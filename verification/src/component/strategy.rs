use vstd::prelude::*;

verus! {

/// How a component relates to its neighbours when a composition is placed.
#[derive(Clone, Copy, PartialEq, Eq, Structural, PartialOrd, Ord, Hash, Debug)]
pub enum PlaceMain {
    NoPlane,
    NonLess,
    Equal,
    Acute,
    AlignPlane,
    Contain,
    InContain,
    Both,
    Only,
    Surround,
    BeSurround,
    NoSurround,
    NoBeSurround,
}

} // verus!
