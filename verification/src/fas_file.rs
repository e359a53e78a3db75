use vstd::prelude::*;
use crate::struc::attribute::AttrMatcher;

verus! {

/// The entry for a count `index` in a table of per-count values: `zero_value`
/// for zero, entry `index - 1` where the table has it, and its last entry for
/// any larger count (none where the table is empty).
pub fn integer_index_last_get<'a, T>(list: &'a Vec<T>, index: usize, zero_value: &'a T) -> (r:
    Option<&'a T>)
    ensures
        index == 0 ==> r == Some(zero_value),
        index > 0 && index <= list@.len() ==> r == Some(&list@[index - 1]),
        index > 0 && index > list@.len() && list@.len() > 0 ==> r == Some(&list@.last()),
        index > 0 && list@.len() == 0 ==> r is None,
{
    if index == 0 {
        Some(zero_value)
    } else if index - 1 < list.len() {
        Some(&list[index - 1])
    } else if list.len() > 0 {
        Some(&list[list.len() - 1])
    } else {
        None
    }
}

/// A regular expression with the weight it stands for.
pub struct WeightRegex<T> {
    pub regex: AttrMatcher,
    pub weight: T,
}

impl<T> WeightRegex<T> {
    /// The expression compiled from `regex` with `weight`; none where the
    /// pattern does not compile.
    pub fn from_str(regex: &str, weight: T) -> (r: Option<Self>)
        ensures
            r is Some <==> crate::struc::attribute::regex_compiles(regex@),
            r matches Some(w) ==> w.regex.pattern() == regex@ && w.weight == weight,
    {
        match AttrMatcher::new(regex) {
            Some(m) => Some(WeightRegex { regex: m, weight }),
            None => None,
        }
    }

    /// The compiled expression `regex` with `weight`.
    pub fn new(regex: AttrMatcher, weight: T) -> (r: Self)
        ensures
            r.regex == regex,
            r.weight == weight,
    {
        WeightRegex { regex, weight }
    }
}

/// A rule of the allocation table: spaces whose attribute text the expression
/// matches get `weight`, in structures that carry one of the tags of `filter`
/// (in any structure where `filter` is empty).
pub struct AllocateRule {
    pub weight: usize,
    pub filter: Vec<String>,
    pub regex: AttrMatcher,
}

impl AllocateRule {
    /// The rule that gives `weight` to what `regex` matches, under `filter`.
    pub fn new(regex: AttrMatcher, weight: usize, filter: Vec<String>) -> (r: Self)
        ensures
            r.regex == regex,
            r.weight == weight,
            r.filter == filter,
    {
        AllocateRule { weight, filter, regex }
    }
}

/// The allocation rules, tried in order.
pub struct AllocateTable(pub Vec<AllocateRule>);

impl AllocateTable {
    /// The table of the rules `table`.
    pub fn new(table: Vec<AllocateRule>) -> (r: Self)
        ensures
            r.0 == table,
    {
        AllocateTable(table)
    }
}

} // verus!
