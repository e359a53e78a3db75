use vstd::prelude::*;

verus! {

/// A point on the integer grid of a component's prototype.
#[derive(Clone, Copy, PartialEq, Eq, Structural, Hash, Debug, Default)]
pub struct IndexPoint {
    pub x: usize,
    pub y: usize,
}

impl IndexPoint {
    pub fn new(x: usize, y: usize) -> (r: Self)
        ensures
            r.x == x,
            r.y == y,
    {
        IndexPoint { x, y }
    }
}

/// A stroke of a component prototype: its grid points, and whether it is hidden.
#[derive(Clone, Debug, Default)]
pub struct KeyPath {
    pub points: Vec<IndexPoint>,
    pub hide: bool,
}

impl KeyPath {
    /// A visible path through `points`.
    pub fn from_points(points: Vec<IndexPoint>) -> (r: Self)
        ensures
            r.points@ == points@,
            !r.hide,
    {
        KeyPath { points, hide: false }
    }
}

} // verus!
