use vstd::prelude::*;
use crate::axis::DataHV;

verus! {

/// The attributes a component prototype carries beside its paths.
///
/// Each attribute is absent until it is set. Those the layout rules read are
/// held as plain values; any other attribute is kept by name, as the JSON text
/// it was stored with, and handed back unchanged.
#[derive(Clone, Debug, Default)]
pub struct CompAttrs {
    /// Allocated cell counts between consecutive grid lines, for each axis.
    pub allocs: Option<DataHV<Vec<usize>>>,
    /// Upper bounds on the allocation that apply where a neighbour rule matches.
    pub in_place: Option<Vec<(String, DataHV<Vec<usize>>)>>,
    /// Candidate reduced allocations, tried in order, for each axis.
    pub reduce_alloc: Option<DataHV<Vec<Vec<usize>>>>,
    /// Positions of the allocation that a reduction leaves alone, for each axis.
    pub fixed_alloc: Option<DataHV<Vec<usize>>>,
    /// The total allocation a reduction aims at, for each axis.
    pub reduce_target: Option<DataHV<Option<usize>>>,
    /// Whether a neighbour lies before and after, for each axis.
    pub adjacencies: Option<DataHV<[bool; 2]>>,
    /// The remaining attributes: name and JSON text.
    pub others: Vec<(String, String)>,
}

/// The allocation attribute.
pub struct Allocs;

impl Allocs {
    pub fn key() -> (r: &'static str)
        ensures
            r@ == "allocs"@,
    {
        "allocs"
    }
}

/// The attribute of allocation bounds that depend on the neighbours.
pub struct InPlaceAllocs;

impl InPlaceAllocs {
    pub fn key() -> (r: &'static str)
        ensures
            r@ == "in_place"@,
    {
        "in_place"
    }
}

/// The attribute of the box a character occupies.
pub struct CharBox;

impl CharBox {
    pub fn key() -> (r: &'static str)
        ensures
            r@ == "char_box"@,
    {
        "char_box"
    }
}

/// The attribute of candidate reduced allocations.
pub struct ReduceAllc;

impl ReduceAllc {
    pub fn key() -> (r: &'static str)
        ensures
            r@ == "ruduce_alloc"@,
    {
        "ruduce_alloc"
    }
}

/// The attribute of a preset visual center.
pub struct PresetCenter;

impl PresetCenter {
    pub fn key() -> (r: &'static str)
        ensures
            r@ == "preset_center"@,
    {
        "preset_center"
    }
}

} // verus!
