use vstd::prelude::*;
use crate::axis::{Axis, DataHV};
use crate::component::attrs::CompAttrs;
use crate::construct::space::{IndexPoint, KeyPath};
use crate::config::{place_match, spec_place_match};
use crate::sorted::{insert_sorted, lemma_sorted_unique, strictly_increasing};
use crate::struc::{coord, coord_exec};
use std::collections::BTreeMap;

verus! {

/// The sum of a list of counts.
pub open spec fn seq_sum(s: Seq<usize>) -> int
    decreases s.len(),
{
    if s.len() == 0 {
        0
    } else {
        seq_sum(s.drop_last()) + s.last()
    }
}

/// The gaps between consecutive values of `s`.
pub open spec fn gaps(s: Seq<usize>) -> Seq<usize> {
    if s.len() == 0 {
        s
    } else {
        Seq::new((s.len() - 1) as nat, |i: int| (s[i + 1] - s[i]) as usize)
    }
}

/// `s` with its zeros taken out.
pub open spec fn without_zeros(s: Seq<usize>) -> Seq<usize>
    decreases s.len(),
{
    if s.len() == 0 {
        s
    } else if s.last() == 0 {
        without_zeros(s.drop_last())
    } else {
        without_zeros(s.drop_last()).push(s.last())
    }
}

/// `s` with each run of equal neighbours cut down to one element.
pub open spec fn dedup(s: Seq<usize>) -> Seq<usize>
    decreases s.len(),
{
    if s.len() == 0 {
        s
    } else {
        let p = dedup(s.drop_last());
        if p.len() > 0 && p.last() == s.last() {
            p
        } else {
            p.push(s.last())
        }
    }
}

/// How many grid lines get a position: with an allocation, one more than it
/// has entries (at most as many as there are lines); without, all of them.
pub open spec fn mapped_len(values: Seq<usize>, allocs: Option<Seq<usize>>) -> int {
    match allocs {
        Some(a) => if values.len() <= a.len() + 1 {
            values.len() as int
        } else {
            a.len() + 1int
        },
        None => values.len() as int,
    }
}

/// The allocated position of the `k`-th grid line: the allocation summed over
/// the gaps before it or, without an allocation, its distance from the first line.
pub open spec fn mapped_value(values: Seq<usize>, allocs: Option<Seq<usize>>, k: int) -> usize {
    match allocs {
        Some(a) => seq_sum(a.take(k)) as usize,
        None => (values[k] - values[0]) as usize,
    }
}

/// The allocated positions of the grid lines, in order.
pub open spec fn mapped_values(values: Seq<usize>, allocs: Option<Seq<usize>>) -> Seq<usize> {
    Seq::new(mapped_len(values, allocs) as nat, |k: int| mapped_value(values, allocs, k))
}

/// The place of `v` in `values`.
pub open spec fn index_in(values: Seq<usize>, v: usize) -> int {
    choose|k: int| 0 <= k < values.len() && values[k] == v
}

/// The map from the grid lines that get a position to their position.
pub open spec fn values_to_positions(values: Seq<usize>, allocs: Option<Seq<usize>>) -> Map<
    usize,
    usize,
> {
    Map::new(
        |v: usize| exists|k: int| 0 <= k < mapped_len(values, allocs) && values[k] == v,
        |v: usize| mapped_value(values, allocs, index_in(values, v)),
    )
}

/// Appending a value adds it to the sum.
pub proof fn lemma_sum_push(s: Seq<usize>, x: usize)
    ensures
        seq_sum(s.push(x)) == seq_sum(s) + x,
{
    assert(s.push(x).drop_last() =~= s);
}

/// A sum of naturals is not negative.
pub proof fn lemma_sum_nonneg(s: Seq<usize>)
    ensures
        seq_sum(s) >= 0,
    decreases s.len(),
{
    if s.len() > 0 {
        lemma_sum_nonneg(s.drop_last());
    }
}

/// A prefix sums to no more than the whole list.
pub proof fn lemma_sum_take_le(s: Seq<usize>, k: int)
    requires
        0 <= k <= s.len(),
    ensures
        seq_sum(s.take(k)) <= seq_sum(s),
        seq_sum(s.take(k)) >= 0,
    decreases s.len() - k,
{
    lemma_sum_nonneg(s.take(k));
    if k < s.len() {
        lemma_sum_take_le(s, k + 1);
        assert(s.take(k + 1).drop_last() =~= s.take(k));
    } else {
        assert(s.take(k) =~= s);
    }
}

/// The gaps of a sorted list sum to the distance from its first to its last value.
pub proof fn lemma_gaps_sum(s: Seq<usize>)
    requires
        strictly_increasing(s),
    ensures
        s.len() > 0 ==> seq_sum(gaps(s)) == s.last() - s[0],
        s.len() == 0 ==> seq_sum(gaps(s)) == 0,
    decreases s.len(),
{
    if s.len() > 1 {
        let t = s.drop_last();
        lemma_gaps_sum(t);
        assert(gaps(s).drop_last() =~= gaps(t));
    } else if s.len() == 1 {
        assert(gaps(s) =~= Seq::<usize>::empty());
    }
}

/// Dropping zeros and removing repeats keep every value that was there.
pub proof fn lemma_dedup_contains(s: Seq<usize>, x: usize)
    requires
        s.contains(x),
    ensures
        dedup(s).contains(x),
    decreases s.len(),
{
    let p = dedup(s.drop_last());
    if s.last() == x {
        if p.len() > 0 && p.last() == s.last() {
            assert(p[p.len() - 1] == x);
        } else {
            assert(p.push(s.last())[p.len() as int] == x);
        }
    } else {
        let k = choose|k: int| 0 <= k < s.len() && s[k] == x;
        assert(s.drop_last()[k] == x);
        lemma_dedup_contains(s.drop_last(), x);
        let q = choose|q: int| 0 <= q < p.len() && p[q] == x;
        if !(p.len() > 0 && p.last() == s.last()) {
            assert(p.push(s.last())[q] == x);
        }
    }
}

/// `s` with each entry lowered to the entry of `lim` at the same place, where
/// `lim` has one and it is smaller.
pub open spec fn clamp_with(s: Seq<usize>, lim: Seq<usize>) -> Seq<usize> {
    Seq::new(s.len(), |i: int| if i < lim.len() && lim[i] < s[i] { lim[i] } else { s[i] })
}

/// `s` lowered, along `axis`, by the bounds of each rule of `rules` that
/// accepts the neighbour states `adj`, taken in order.
pub open spec fn clamp_rules(
    s: Seq<usize>,
    rules: Seq<(String, DataHV<Vec<usize>>)>,
    adj: DataHV<[bool; 2]>,
    axis: Axis,
) -> Seq<usize>
    decreases rules.len(),
{
    if rules.len() == 0 {
        s
    } else {
        let prev = clamp_rules(s, rules.drop_last(), adj, axis);
        if spec_place_match(rules.last().0@, adj) {
            clamp_with(prev, rules.last().1.spec_get(axis)@)
        } else {
            prev
        }
    }
}

/// Entry `i` of the allocation `allocs` can be lowered by the candidate `rl`:
/// the candidate is smaller there and the entry is not fixed.
pub open spec fn lowers_at(rl: Seq<usize>, allocs: Seq<usize>, fixed: Seq<usize>, i: int) -> bool {
    0 <= i < rl.len() && i < allocs.len() && !fixed.contains(i as usize) && rl[i] < allocs[i]
}

/// The candidate `rl` lowers some entry of `allocs`.
pub open spec fn lowers(rl: Seq<usize>, allocs: Seq<usize>, fixed: Seq<usize>) -> bool {
    exists|i: int| lowers_at(rl, allocs, fixed, i)
}

/// `allocs` with each entry that `rl` can lower taken down by one.
pub open spec fn lowered(rl: Seq<usize>, allocs: Seq<usize>, fixed: Seq<usize>) -> Seq<usize> {
    Seq::new(
        allocs.len(),
        |i: int|
            if lowers_at(rl, allocs, fixed, i) {
                (allocs[i] - 1) as usize
            } else {
                allocs[i]
            },
    )
}

/// The place of the first candidate of `list` that lowers some entry of
/// `allocs`, or the length of `list` where none does.
pub open spec fn first_lowering(list: Seq<Vec<usize>>, allocs: Seq<usize>, fixed: Seq<usize>) -> int
    decreases list.len(),
{
    if list.len() == 0 {
        0
    } else if lowers(list[0]@, allocs, fixed) {
        0
    } else {
        1 + first_lowering(list.drop_first(), allocs, fixed)
    }
}

/// Each entry of `a` is at most the entry of `b` at the same place.
pub open spec fn pointwise_le(a: Seq<usize>, b: Seq<usize>) -> bool {
    a.len() == b.len() && forall|i: int| 0 <= i < a.len() ==> a[i] <= b[i]
}

/// A list that is nowhere above another sums to no more than it.
pub proof fn lemma_sum_le(a: Seq<usize>, b: Seq<usize>)
    requires
        pointwise_le(a, b),
    ensures
        seq_sum(a) <= seq_sum(b),
    decreases a.len(),
{
    if a.len() > 0 {
        lemma_sum_le(a.drop_last(), b.drop_last());
    }
}

/// The first lowering candidate is in range, lowers, and no earlier one does.
pub proof fn lemma_first_lowering(list: Seq<Vec<usize>>, allocs: Seq<usize>, fixed: Seq<usize>)
    ensures
        0 <= first_lowering(list, allocs, fixed) <= list.len(),
        first_lowering(list, allocs, fixed) < list.len() ==> lowers(
            list[first_lowering(list, allocs, fixed)]@,
            allocs,
            fixed,
        ),
        forall|q: int|
            0 <= q < first_lowering(list, allocs, fixed) ==> !lowers(
                #[trigger] list[q]@,
                allocs,
                fixed,
            ),
    decreases list.len(),
{
    if list.len() > 0 && !lowers(list[0]@, allocs, fixed) {
        let t = list.drop_first();
        lemma_first_lowering(t, allocs, fixed);
        assert forall|q: int| 0 <= q < first_lowering(list, allocs, fixed) implies !lowers(
            #[trigger] list[q]@,
            allocs,
            fixed,
        ) by {
            if q > 0 {
                assert(list[q] == t[q - 1]);
            }
        }
    }
}

/// Leaving out the empty gaps does not change the total allocation: the
/// allocated space sums to the allocation size.
pub proof fn lemma_space_keeps_total(s: Seq<usize>)
    ensures
        seq_sum(without_zeros(s)) == seq_sum(s),
    decreases s.len(),
{
    if s.len() > 0 {
        lemma_space_keeps_total(s.drop_last());
        if s.last() != 0 {
            lemma_sum_push(without_zeros(s.drop_last()), s.last());
        }
    }
}

/// Bounds that depend on the neighbours only ever lower an allocation.
pub proof fn lemma_clamp_only_lowers(
    s: Seq<usize>,
    rules: Seq<(String, DataHV<Vec<usize>>)>,
    adj: DataHV<[bool; 2]>,
    axis: Axis,
)
    ensures
        pointwise_le(clamp_rules(s, rules, adj, axis), s),
    decreases rules.len(),
{
    if rules.len() > 0 {
        lemma_clamp_only_lowers(s, rules.drop_last(), adj, axis);
    }
}

/// A reduction candidate lowers each entry of an allocation by at most one,
/// and changes the allocation exactly where it lowers some entry.
pub proof fn lemma_lowered_by_one(rl: Seq<usize>, allocs: Seq<usize>, fixed: Seq<usize>)
    ensures
        pointwise_le(lowered(rl, allocs, fixed), allocs),
        forall|i: int|
            0 <= i < allocs.len() ==> allocs[i] <= #[trigger] lowered(rl, allocs, fixed)[i] + 1,
        (lowered(rl, allocs, fixed) == allocs) <==> !lowers(rl, allocs, fixed),
{
    let l = lowered(rl, allocs, fixed);
    if lowers(rl, allocs, fixed) {
        let i = choose|i: int| lowers_at(rl, allocs, fixed, i);
        assert(l[i] != allocs[i]);
    } else {
        assert(l =~= allocs);
    }
}

/// A prototype of a component: its paths on the integer grid and its attributes.
#[derive(Clone, Debug, Default)]
pub struct StrucProto {
    pub paths: Vec<KeyPath>,
    pub attrs: CompAttrs,
}

impl StrucProto {
    /// A prototype with the given paths and no attributes.
    pub fn from_paths(paths: Vec<KeyPath>) -> (r: Self)
        ensures
            r.paths@ == paths@,
            r.attrs.allocs is None,
            r.attrs.in_place is None,
            r.attrs.reduce_alloc is None,
            r.attrs.fixed_alloc is None,
            r.attrs.reduce_target is None,
            r.attrs.adjacencies is None,
            r.attrs.others@.len() == 0,
    {
        StrucProto {
            paths,
            attrs: CompAttrs {
                allocs: None,
                in_place: None,
                reduce_alloc: None,
                fixed_alloc: None,
                reduce_target: None,
                adjacencies: None,
                others: Vec::new(),
            },
        }
    }

    /// Some point of some path lies on the grid line `v` along `axis`.
    pub open spec fn has_value(&self, axis: Axis, v: usize) -> bool {
        exists|i: int, j: int|
            0 <= i < self.paths@.len() && 0 <= j < self.paths@[i].points@.len() && coord(
                #[trigger] self.paths@[i].points@[j],
                axis,
            ) == v
    }

    /// Like `has_value`, over the points before point `j` of path `i`.
    pub open spec fn has_value_before(&self, axis: Axis, i: int, j: int, v: usize) -> bool {
        exists|a: int, b: int|
            0 <= a < self.paths@.len() && 0 <= b < self.paths@[a].points@.len() && (a < i || (a
                == i && b < j)) && coord(#[trigger] self.paths@[a].points@[b], axis) == v
    }

    /// `s` lists the grid lines in use along `axis`, in increasing order.
    pub open spec fn is_value_list(&self, axis: Axis, s: Seq<usize>) -> bool {
        strictly_increasing(s) && forall|v: usize| s.contains(v) <==> self.has_value(axis, v)
    }

    /// The grid lines in use along `axis`, in increasing order.
    pub open spec fn value_list(&self, axis: Axis) -> Seq<usize> {
        choose|s: Seq<usize>| self.is_value_list(axis, s)
    }

    /// The allocation along `axis`: the attribute where it is set, else the
    /// gaps between the grid lines in use.
    pub open spec fn spec_allocation_values(&self, axis: Axis) -> Seq<usize> {
        match self.attrs.allocs {
            Some(a) => a.spec_get(axis)@,
            None => gaps(self.value_list(axis)),
        }
    }

    /// The allocation attribute along `axis`, where it is set.
    pub open spec fn allocs_of(&self, axis: Axis) -> Option<Seq<usize>> {
        match self.attrs.allocs {
            Some(a) => Some(a.spec_get(axis)@),
            None => None,
        }
    }

    /// The allocation attribute sums to a count that fits a machine word.
    pub open spec fn allocs_fit(&self) -> bool {
        self.attrs.allocs matches Some(a) ==> seq_sum(a.h@) <= usize::MAX && seq_sum(a.v@)
            <= usize::MAX
    }

    /// A list that describes the grid lines is the list.
    pub proof fn lemma_value_list(&self, axis: Axis, s: Seq<usize>)
        requires
            self.is_value_list(axis, s),
        ensures
            self.value_list(axis) == s,
    {
        let c = self.value_list(axis);
        assert(self.is_value_list(axis, c));
        lemma_sorted_unique(c, s);
    }

    pub(crate) fn values_in_axis(&self, axis: Axis) -> (r: Vec<usize>)
        ensures
            self.is_value_list(axis, r@),
            r@ == self.value_list(axis),
    {
        let mut r: Vec<usize> = Vec::new();
        let n = self.paths.len();
        let mut i: usize = 0;
        while i < n
            invariant
                n == self.paths@.len(),
                0 <= i <= n,
                strictly_increasing(r@),
                forall|v: usize| r@.contains(v) <==> self.has_value_before(axis, i as int, 0, v),
            decreases n - i,
        {
            let path = &self.paths[i];
            let m = path.points.len();
            let mut j: usize = 0;
            while j < m
                invariant
                    n == self.paths@.len(),
                    0 <= i < n,
                    path == self.paths@[i as int],
                    m == path.points@.len(),
                    0 <= j <= m,
                    strictly_increasing(r@),
                    forall|v: usize|
                        r@.contains(v) <==> self.has_value_before(axis, i as int, j as int, v),
                decreases m - j,
            {
                let c = coord_exec(path.points[j], axis);
                let ghost pre = r@;
                insert_sorted(&mut r, c);
                assert forall|v: usize|
                    r@.contains(v) <==> self.has_value_before(axis, i as int, j + 1, v) by {
                    if self.has_value_before(axis, i as int, j + 1, v) {
                        let (a, b) = choose|a: int, b: int|
                            0 <= a < self.paths@.len() && 0 <= b < self.paths@[a].points@.len()
                                && (a < i || (a == i && b < j + 1)) && coord(
                                #[trigger] self.paths@[a].points@[b],
                                axis,
                            ) == v;
                        if !(a == i && b == j) {
                            assert(self.has_value_before(axis, i as int, j as int, v));
                        }
                    }
                    if pre.contains(v) {
                        let (a, b) = choose|a: int, b: int|
                            0 <= a < self.paths@.len() && 0 <= b < self.paths@[a].points@.len()
                                && (a < i || (a == i && b < j)) && coord(
                                #[trigger] self.paths@[a].points@[b],
                                axis,
                            ) == v;
                        assert(self.has_value_before(axis, i as int, j + 1, v));
                    }
                    if v == c {
                        assert(coord(self.paths@[i as int].points@[j as int], axis) == v);
                        assert(self.has_value_before(axis, i as int, j + 1, v));
                    }
                }
                j = j + 1;
            }
            assert forall|v: usize|
                r@.contains(v) <==> self.has_value_before(axis, i + 1, 0, v) by {
                if self.has_value_before(axis, i + 1, 0, v) {
                    let (a, b) = choose|a: int, b: int|
                        0 <= a < self.paths@.len() && 0 <= b < self.paths@[a].points@.len() && (a
                            < i + 1 || (a == i + 1 && b < 0)) && coord(
                            #[trigger] self.paths@[a].points@[b],
                            axis,
                        ) == v;
                    assert(self.has_value_before(axis, i as int, m as int, v));
                }
                if self.has_value_before(axis, i as int, m as int, v) {
                    let (a, b) = choose|a: int, b: int|
                        0 <= a < self.paths@.len() && 0 <= b < self.paths@[a].points@.len() && (a
                            < i || (a == i && b < m)) && coord(
                            #[trigger] self.paths@[a].points@[b],
                            axis,
                        ) == v;
                    assert(self.has_value_before(axis, i + 1, 0, v));
                }
            }
            i = i + 1;
        }
        assert forall|v: usize| r@.contains(v) <==> self.has_value(axis, v) by {
            if self.has_value(axis, v) {
                let (a, b) = choose|a: int, b: int|
                    0 <= a < self.paths@.len() && 0 <= b < self.paths@[a].points@.len() && coord(
                        #[trigger] self.paths@[a].points@[b],
                        axis,
                    ) == v;
                assert(self.has_value_before(axis, n as int, 0, v));
            }
        }
        proof {
            self.lemma_value_list(axis, r@);
        }
        r
    }

    /// The grid lines in use along each axis, in increasing order.
    pub fn values(&self) -> (r: DataHV<Vec<usize>>)
        ensures
            r.h@ == self.value_list(Axis::Horizontal),
            r.v@ == self.value_list(Axis::Vertical),
            self.is_value_list(Axis::Horizontal, r.h@),
            self.is_value_list(Axis::Vertical, r.v@),
    {
        DataHV { h: self.values_in_axis(Axis::Horizontal), v: self.values_in_axis(Axis::Vertical) }
    }

    /// The allocation along each axis: the attribute where it is set, else the
    /// gaps between consecutive grid lines in use.
    pub fn allocation_values(&self) -> (r: DataHV<Vec<usize>>)
        ensures
            r.h@ == self.spec_allocation_values(Axis::Horizontal),
            r.v@ == self.spec_allocation_values(Axis::Vertical),
            self.attrs.allocs is None ==> self.is_value_list(
                Axis::Horizontal,
                self.value_list(Axis::Horizontal),
            ) && self.is_value_list(Axis::Vertical, self.value_list(Axis::Vertical)),
    {
        match &self.attrs.allocs {
            Some(a) => DataHV { h: copy_counts(&a.h), v: copy_counts(&a.v) },
            None => {
                let values = self.values();
                DataHV { h: gaps_exec(&values.h), v: gaps_exec(&values.v) }
            },
        }
    }

    /// The allocation along each axis with its empty gaps left out.
    pub fn allocation_space(&self) -> (r: DataHV<Vec<usize>>)
        ensures
            r.h@ == without_zeros(self.spec_allocation_values(Axis::Horizontal)),
            r.v@ == without_zeros(self.spec_allocation_values(Axis::Vertical)),
    {
        let a = self.allocation_values();
        DataHV { h: drop_zeros(&a.h), v: drop_zeros(&a.v) }
    }

    /// The total allocation along each axis.
    pub fn allocation_size(&self) -> (r: DataHV<usize>)
        requires
            self.allocs_fit(),
        ensures
            r.h == seq_sum(self.spec_allocation_values(Axis::Horizontal)),
            r.v == seq_sum(self.spec_allocation_values(Axis::Vertical)),
    {
        let a = self.allocation_values();
        proof {
            self.lemma_allocation_sum(Axis::Horizontal);
            self.lemma_allocation_sum(Axis::Vertical);
        }
        DataHV { h: sum_counts(&a.h), v: sum_counts(&a.v) }
    }

    /// Where the allocation attribute fits a machine word, so does the
    /// allocation in use along either axis.
    pub proof fn lemma_allocation_sum(&self, axis: Axis)
        requires
            self.allocs_fit(),
            self.attrs.allocs is None ==> self.is_value_list(axis, self.value_list(axis)),
        ensures
            0 <= seq_sum(self.spec_allocation_values(axis)) <= usize::MAX,
    {
        lemma_sum_nonneg(self.spec_allocation_values(axis));
        if self.attrs.allocs is None {
            lemma_gaps_sum(self.value_list(axis));
        }
    }

    /// For each axis, the map from each grid line that gets a position to
    /// its allocated position.
    pub fn values_map(&self) -> (r: DataHV<BTreeMap<usize, usize>>)
        requires
            self.allocs_fit(),
        ensures
            r.h@ == values_to_positions(
                self.value_list(Axis::Horizontal),
                self.allocs_of(Axis::Horizontal),
            ),
            r.v@ == values_to_positions(
                self.value_list(Axis::Vertical),
                self.allocs_of(Axis::Vertical),
            ),
    {
        let mh = self.mapped_in_axis(Axis::Horizontal);
        let mv = self.mapped_in_axis(Axis::Vertical);
        let values = self.values();
        DataHV { h: position_map(&values.h, &mh), v: position_map(&values.v, &mv) }
    }

    /// The allocated positions of the grid lines along `axis`, in order.
    pub(crate) fn mapped_in_axis(&self, axis: Axis) -> (r: Vec<usize>)
        requires
            self.allocs_fit(),
        ensures
            r@ == mapped_values(self.value_list(axis), self.allocs_of(axis)),
            r@.len() <= self.value_list(axis).len(),
    {
        let values = self.values_in_axis(axis);
        match &self.attrs.allocs {
            Some(a) => {
                let al = a.hv_get(axis);
                mapped_with_allocs(&values, al)
            },
            None => mapped_from_first(&values),
        }
    }

    /// For each position in `vals`, its place among the distinct allocated
    /// positions of the grid lines along `axis`.
    pub fn value_index_in_axis(&self, vals: &[usize], axis: Axis) -> (r: Vec<usize>)
        requires
            self.allocs_fit(),
            forall|t: int|
                0 <= t < vals@.len() ==> mapped_values(
                    self.value_list(axis),
                    self.allocs_of(axis),
                ).contains(#[trigger] vals@[t]),
        ensures
            r@.len() == vals@.len(),
            forall|t: int|
                0 <= t < vals@.len() ==> {
                    let d = dedup(mapped_values(self.value_list(axis), self.allocs_of(axis)));
                    &&& (#[trigger] r@[t]) < d.len()
                    &&& d[r@[t] as int] == vals@[t]
                    &&& forall|q: int| 0 <= q < r@[t] ==> d[q] != vals@[t]
                },
    {
        let mapped = self.mapped_in_axis(axis);
        let d = dedup_exec(&mapped);
        let ghost gd = dedup(mapped_values(self.value_list(axis), self.allocs_of(axis)));
        let mut r: Vec<usize> = Vec::new();
        let n = vals.len();
        let mut t: usize = 0;
        while t < n
            invariant
                n == vals@.len(),
                0 <= t <= n,
                d@ == gd,
                gd == dedup(mapped_values(self.value_list(axis), self.allocs_of(axis))),
                forall|t2: int|
                    0 <= t2 < vals@.len() ==> mapped_values(
                        self.value_list(axis),
                        self.allocs_of(axis),
                    ).contains(#[trigger] vals@[t2]),
                r@.len() == t,
                forall|t2: int|
                    0 <= t2 < t ==> {
                        &&& (#[trigger] r@[t2]) < gd.len()
                        &&& gd[r@[t2] as int] == vals@[t2]
                        &&& forall|q: int| 0 <= q < r@[t2] ==> gd[q] != vals@[t2]
                    },
            decreases n - t,
        {
            let x = vals[t];
            proof {
                lemma_dedup_contains(
                    mapped_values(self.value_list(axis), self.allocs_of(axis)),
                    x,
                );
            }
            let mut p: usize = 0;
            while p < d.len() && d[p] != x
                invariant
                    0 <= p <= d@.len(),
                    d@.contains(x),
                    forall|q: int| 0 <= q < p ==> d@[q] != x,
                decreases d@.len() - p,
            {
                p = p + 1;
            }
            if p == d.len() {
                proof {
                    let q = choose|q: int| 0 <= q < d@.len() && d@[q] == x;
                    assert(false);
                }
            }
            r.push(p);
            t = t + 1;
        }
        r
    }

    /// The bounds on the allocation that depend on the neighbours.
    pub open spec fn in_place_rules(&self) -> Seq<(String, DataHV<Vec<usize>>)> {
        match self.attrs.in_place {
            Some(v) => v@,
            None => Seq::empty(),
        }
    }

    /// The entries of the allocation along `axis` that a reduction leaves alone.
    pub open spec fn fixed_of(&self, axis: Axis) -> Seq<usize> {
        match self.attrs.fixed_alloc {
            Some(f) => f.spec_get(axis)@,
            None => Seq::<usize>::empty(),
        }
    }

    /// The reduction target, with both entries unset where the attribute is absent.
    pub open spec fn target_or_unset(&self) -> DataHV<Option<usize>> {
        match self.attrs.reduce_target {
            Some(t) => t,
            None => DataHV { h: None, v: None },
        }
    }

    /// Lowers the allocation by the bounds of each rule that accepts the
    /// neighbour states `adjacencies`; records those states, the new
    /// allocation and, for each axis where something was lowered, its new
    /// total as the reduction target.
    pub fn set_allocs_in_adjacency(&mut self, adjacencies: DataHV<[bool; 2]>)
        requires
            old(self).allocs_fit(),
        ensures
            final(self).paths@ == old(self).paths@,
            final(self).attrs.in_place == old(self).attrs.in_place,
            final(self).attrs.reduce_alloc == old(self).attrs.reduce_alloc,
            final(self).attrs.fixed_alloc == old(self).attrs.fixed_alloc,
            final(self).attrs.others == old(self).attrs.others,
            final(self).attrs.adjacencies == Some(adjacencies),
            final(self).attrs.allocs matches Some(a) && a.h@ == clamp_rules(
                old(self).spec_allocation_values(Axis::Horizontal),
                old(self).in_place_rules(),
                adjacencies,
                Axis::Horizontal,
            ) && a.v@ == clamp_rules(
                old(self).spec_allocation_values(Axis::Vertical),
                old(self).in_place_rules(),
                adjacencies,
                Axis::Vertical,
            ),
            final(self).attrs.reduce_target matches Some(t) && ({
                let ch = clamp_rules(
                    old(self).spec_allocation_values(Axis::Horizontal),
                    old(self).in_place_rules(),
                    adjacencies,
                    Axis::Horizontal,
                );
                let cv = clamp_rules(
                    old(self).spec_allocation_values(Axis::Vertical),
                    old(self).in_place_rules(),
                    adjacencies,
                    Axis::Vertical,
                );
                &&& t.h == if ch != old(self).spec_allocation_values(Axis::Horizontal) {
                    Some(seq_sum(ch) as usize)
                } else {
                    old(self).target_or_unset().h
                }
                &&& t.v == if cv != old(self).spec_allocation_values(Axis::Vertical) {
                    Some(seq_sum(cv) as usize)
                } else {
                    old(self).target_or_unset().v
                }
            }),
            final(self).allocs_fit(),
    {
        let start = self.allocation_values();
        let mut cur = self.allocation_values();
        proof {
            self.lemma_allocation_sum(Axis::Horizontal);
            self.lemma_allocation_sum(Axis::Vertical);
        }
        let ghost orig_h = start.h@;
        let ghost orig_v = start.v@;
        let mut bh = false;
        let mut bv = false;
        match &self.attrs.in_place {
            Some(rules) => {
                let n = rules.len();
                let mut k: usize = 0;
                while k < n
                    invariant
                        n == rules@.len(),
                        0 <= k <= n,
                        cur.h@ == clamp_rules(orig_h, rules@.take(k as int), adjacencies, Axis::Horizontal),
                        cur.v@ == clamp_rules(orig_v, rules@.take(k as int), adjacencies, Axis::Vertical),
                        pointwise_le(cur.h@, orig_h),
                        pointwise_le(cur.v@, orig_v),
                        bh <==> cur.h@ != orig_h,
                        bv <==> cur.v@ != orig_v,
                    decreases n - k,
                {
                    proof {
                        assert(rules@.take(k + 1).drop_last() =~= rules@.take(k as int));
                        assert(rules@.take(k + 1).last() == rules@[k as int]);
                    }
                    let rule = &rules[k];
                    if place_match(rule.0.as_str(), adjacencies) {
                        let ch = clamp_in_place(&mut cur.h, &rule.1.h, Ghost(orig_h));
                        let cv = clamp_in_place(&mut cur.v, &rule.1.v, Ghost(orig_v));
                        bh = bh || ch;
                        bv = bv || cv;
                    }
                    k = k + 1;
                }
                proof {
                    assert(rules@.take(n as int) =~= rules@);
                }
            },
            None => {
                assert(cur.h@ == clamp_rules(orig_h, self.in_place_rules(), adjacencies, Axis::Horizontal));
                assert(cur.v@ == clamp_rules(orig_v, self.in_place_rules(), adjacencies, Axis::Vertical));
            },
        }
        proof {
            lemma_sum_le(cur.h@, orig_h);
            lemma_sum_le(cur.v@, orig_v);
            lemma_sum_nonneg(cur.h@);
            lemma_sum_nonneg(cur.v@);
        }
        let mut target = match self.attrs.reduce_target {
            Some(t) => t,
            None => DataHV { h: None, v: None },
        };
        if bh {
            target.h = Some(sum_counts(&cur.h));
        }
        if bv {
            target.v = Some(sum_counts(&cur.v));
        }
        self.attrs.reduce_target = Some(target);
        self.attrs.adjacencies = Some(adjacencies);
        self.attrs.allocs = Some(cur);
    }

    /// Tries the candidate reduced allocations along `axis` in order and takes
    /// the first one that is below the allocation at some entry that is not
    /// fixed. Unless `check` is set, each such entry is lowered by one. Where a
    /// candidate applies, the allocation is recorded and its total along `axis`
    /// becomes the reduction target; otherwise nothing changes. Returns whether
    /// a candidate applied.
    pub fn reduce(&mut self, axis: Axis, check: bool) -> (ok: bool)
        requires
            old(self).allocs_fit(),
        ensures
            ({
                let a0 = old(self).spec_allocation_values(axis);
                let fixed = old(self).fixed_of(axis);
                match old(self).attrs.reduce_alloc {
                    Some(rl) => {
                        let list = rl.spec_get(axis)@;
                        let k = first_lowering(list, a0, fixed);
                        &&& ok == (k < list.len())
                        &&& ok ==> {
                            let na = if check {
                                a0
                            } else {
                                lowered(list[k]@, a0, fixed)
                            };
                            &&& final(self).paths@ == old(self).paths@
                            &&& final(self).attrs.in_place == old(self).attrs.in_place
                            &&& final(self).attrs.reduce_alloc == old(self).attrs.reduce_alloc
                            &&& final(self).attrs.fixed_alloc == old(self).attrs.fixed_alloc
                            &&& final(self).attrs.adjacencies == old(self).attrs.adjacencies
                            &&& final(self).attrs.others == old(self).attrs.others
                            &&& final(self).attrs.allocs matches Some(a) && a.spec_get(axis)@ == na
                                && a.spec_get(crate::axis::spec_axis_inverse(axis))@
                                == old(self).spec_allocation_values(
                                crate::axis::spec_axis_inverse(axis),
                            )
                            &&& final(self).attrs.reduce_target == Some(
                                old(self).target_or_unset().spec_set(axis, Some(seq_sum(na) as usize)),
                            )
                        }
                        &&& !ok ==> *final(self) == *old(self)
                    },
                    None => !ok && *final(self) == *old(self),
                }
            }),
    {
        let mut allocs = self.allocation_values();
        proof {
            self.lemma_allocation_sum(axis);
        }
        let ghost a0 = self.spec_allocation_values(axis);
        let ghost fixed_s = self.fixed_of(axis);
        let empty: Vec<usize> = Vec::new();
        let fixed = match &self.attrs.fixed_alloc {
            Some(f) => f.hv_get(axis),
            None => &empty,
        };
        assert(fixed@ == fixed_s);
        let mut ok = false;
        match &self.attrs.reduce_alloc {
            Some(rl) => {
                let list = rl.hv_get(axis);
                proof {
                    lemma_first_lowering(list@, a0, fixed_s);
                }
                let k = first_lowering_exec(list, allocs.hv_get(axis), fixed);
                if k < list.len() {
                    if !check {
                        let mut cur = match axis {
                            Axis::Horizontal => copy_counts(&allocs.h),
                            Axis::Vertical => copy_counts(&allocs.v),
                        };
                        lower_in_place(&mut cur, &list[k], fixed);
                        allocs.hv_set(axis, cur);
                    }
                    ok = true;
                }
            },
            None => {},
        }
        if ok {
            let ghost na = allocs.spec_get(axis)@;
            proof {
                assert(pointwise_le(na, a0));
                lemma_sum_le(na, a0);
                lemma_sum_nonneg(na);
            }
            let total = sum_counts(allocs.hv_get(axis));
            let mut target = match self.attrs.reduce_target {
                Some(t) => t,
                None => DataHV { h: None, v: None },
            };
            target.hv_set(axis, Some(total));
            self.attrs.reduce_target = Some(target);
            self.attrs.allocs = Some(allocs);
        }
        ok
    }
}

/// Lowers each entry of `v` to the entry of `lim` at the same place where
/// that is smaller; says whether anything changed.
fn clamp_in_place(v: &mut Vec<usize>, lim: &Vec<usize>, Ghost(orig): Ghost<Seq<usize>>) -> (changed: bool)
    requires
        pointwise_le(old(v)@, orig),
    ensures
        final(v)@ == clamp_with(old(v)@, lim@),
        pointwise_le(final(v)@, orig),
        changed == (final(v)@ != old(v)@),
        old(v)@ != orig ==> final(v)@ != orig,
{
    let ghost start = v@;
    let mut changed = false;
    let n = v.len();
    let mut i: usize = 0;
    while i < n
        invariant
            n == v@.len(),
            n == start.len(),
            pointwise_le(start, orig),
            0 <= i <= n,
            forall|q: int| 0 <= q < i ==> v@[q] == clamp_with(start, lim@)[q],
            forall|q: int| i <= q < n ==> v@[q] == start[q],
            changed <==> exists|q: int| 0 <= q < i && v@[q] != start[q],
        decreases n - i,
    {
        if i < lim.len() && lim[i] < v[i] {
            v.set(i, lim[i]);
            changed = true;
            assert(v@[i as int] != start[i as int]);
        }
        i = i + 1;
    }
    assert(v@ =~= clamp_with(start, lim@));
    proof {
        if changed {
            let q = choose|q: int| 0 <= q < n && v@[q] != start[q];
            assert(v@ != start);
        } else {
            assert(v@ =~= start);
        }
        if start != orig {
            assert(exists|q: int| 0 <= q < n && start[q] != orig[q]) by {
                assert(!(start =~= orig));
            }
            let q = choose|q: int| 0 <= q < n && start[q] != orig[q];
            assert(v@[q] < orig[q]);
        }
    }
    changed
}

/// The place of the first candidate of `list` that lowers some entry of
/// `allocs`, or the length of `list` where none does.
fn first_lowering_exec(list: &Vec<Vec<usize>>, allocs: &Vec<usize>, fixed: &Vec<usize>) -> (r: usize)
    ensures
        r == first_lowering(list@, allocs@, fixed@),
{
    proof {
        lemma_first_lowering(list@, allocs@, fixed@);
    }
    let n = list.len();
    let mut k: usize = 0;
    while k < n
        invariant
            n == list@.len(),
            0 <= k <= n,
            k <= first_lowering(list@, allocs@, fixed@),
            0 <= first_lowering(list@, allocs@, fixed@) <= n,
            first_lowering(list@, allocs@, fixed@) < n ==> lowers(
                list@[first_lowering(list@, allocs@, fixed@)]@,
                allocs@,
                fixed@,
            ),
            forall|q: int|
                0 <= q < first_lowering(list@, allocs@, fixed@) ==> !lowers(
                    #[trigger] list@[q]@,
                    allocs@,
                    fixed@,
                ),
        decreases n - k,
    {
        if lowers_exec(&list[k], allocs, fixed) {
            return k;
        }
        k = k + 1;
    }
    k
}

/// `v` holds `i`.
fn holds_index(v: &Vec<usize>, i: usize) -> (r: bool)
    ensures
        r == v@.contains(i),
{
    let mut k: usize = 0;
    while k < v.len()
        invariant
            0 <= k <= v@.len(),
            forall|q: int| 0 <= q < k ==> v@[q] != i,
        decreases v@.len() - k,
    {
        if v[k] == i {
            assert(v@[k as int] == i);
            return true;
        }
        k = k + 1;
    }
    false
}

/// Whether the candidate `rl` lowers some entry of `allocs`.
fn lowers_exec(rl: &Vec<usize>, allocs: &Vec<usize>, fixed: &Vec<usize>) -> (r: bool)
    ensures
        r == lowers(rl@, allocs@, fixed@),
{
    let mut i: usize = 0;
    while i < rl.len() && i < allocs.len()
        invariant
            0 <= i <= rl@.len(),
            forall|q: int| 0 <= q < i ==> !lowers_at(rl@, allocs@, fixed@, q),
        decreases rl@.len() - i,
    {
        if !holds_index(fixed, i) && rl[i] < allocs[i] {
            assert(lowers_at(rl@, allocs@, fixed@, i as int));
            return true;
        }
        i = i + 1;
    }
    false
}

/// Takes down by one each entry of `v` that `rl` lowers.
fn lower_in_place(v: &mut Vec<usize>, rl: &Vec<usize>, fixed: &Vec<usize>)
    ensures
        final(v)@ == lowered(rl@, old(v)@, fixed@),
{
    let ghost start = v@;
    let n = v.len();
    let mut i: usize = 0;
    while i < n
        invariant
            n == v@.len(),
            n == start.len(),
            0 <= i <= n,
            forall|q: int| 0 <= q < i ==> v@[q] == lowered(rl@, start, fixed@)[q],
            forall|q: int| i <= q < n ==> v@[q] == start[q],
        decreases n - i,
    {
        if i < rl.len() && !holds_index(fixed, i) && rl[i] < v[i] {
            let x = v[i] - 1;
            v.set(i, x);
        }
        i = i + 1;
    }
    assert(v@ =~= lowered(rl@, start, fixed@));
}

/// The allocated positions of the grid lines `values` under the allocation `allocs`.
fn mapped_with_allocs(values: &Vec<usize>, allocs: &Vec<usize>) -> (r: Vec<usize>)
    requires
        seq_sum(allocs@) <= usize::MAX,
    ensures
        r@ == mapped_values(values@, Some(allocs@)),
        r@.len() <= values@.len(),
{
    let n = if allocs.len() < values.len() && values.len() - allocs.len() > 1 {
        allocs.len() + 1
    } else {
        values.len()
    };
    let mut r: Vec<usize> = Vec::new();
    let mut sum: usize = 0;
    let mut k: usize = 0;
    while k < n
        invariant
            n == mapped_len(values@, Some(allocs@)),
            n <= allocs@.len() + 1,
            0 <= k <= n,
            k < n ==> sum == seq_sum(allocs@.take(k as int)),
            seq_sum(allocs@) <= usize::MAX,
            r@.len() == k,
            forall|q: int| 0 <= q < k ==> r@[q] == mapped_value(values@, Some(allocs@), q),
        decreases n - k,
    {
        proof {
            lemma_sum_take_le(allocs@, k as int);
        }
        r.push(sum);
        if k < allocs.len() {
            proof {
                assert(allocs@.take(k + 1).drop_last() =~= allocs@.take(k as int));
                lemma_sum_take_le(allocs@, k + 1);
            }
            sum = sum + allocs[k];
        }
        k = k + 1;
    }
    assert(r@ =~= mapped_values(values@, Some(allocs@)));
    r
}

/// The distances of the sorted grid lines `values` from the first of them.
fn mapped_from_first(values: &Vec<usize>) -> (r: Vec<usize>)
    requires
        strictly_increasing(values@),
    ensures
        r@ == mapped_values(values@, None),
        r@.len() <= values@.len(),
{
    let mut r: Vec<usize> = Vec::new();
    let n = values.len();
    let mut k: usize = 0;
    while k < n
        invariant
            n == values@.len(),
            strictly_increasing(values@),
            0 <= k <= n,
            r@.len() == k,
            forall|q: int| 0 <= q < k ==> r@[q] == mapped_value(values@, None, q),
        decreases n - k,
    {
        if k > 0 {
            assert(values@[0] < values@[k as int]);
        }
        r.push(values[k] - values[0]);
        k = k + 1;
    }
    assert(r@ =~= mapped_values(values@, None));
    r
}

/// `usize` keys are ordered the way a map needs.
pub(crate) open spec fn usize_keys_ordered() -> bool {
    vstd::laws_cmp::obeys_cmp::<usize>()
}

/// `usize` keys are ordered the way a map needs.
pub(crate) proof fn lemma_usize_key_order()
    ensures
        usize_keys_ordered(),
{
    broadcast use vstd::laws_cmp::group_laws_cmp;

}

/// The map from the first grid lines of `values` to the positions `mapped`.
fn position_map(values: &Vec<usize>, mapped: &Vec<usize>) -> (r: BTreeMap<usize, usize>)
    requires
        strictly_increasing(values@),
        mapped@.len() <= values@.len(),
    ensures
        r@ == Map::new(
            |v: usize| exists|k: int| 0 <= k < mapped@.len() && values@[k] == v,
            |v: usize| mapped@[index_in(values@, v)],
        ),
{
    proof {
        lemma_usize_key_order();
    }
    let mut m: BTreeMap<usize, usize> = BTreeMap::new();
    let n = mapped.len();
    let mut k: usize = 0;
    while k < n
        invariant
            n == mapped@.len(),
            n <= values@.len(),
            strictly_increasing(values@),
            0 <= k <= n,
            m@ == Map::new(
                |v: usize| exists|q: int| 0 <= q < k && values@[q] == v,
                |v: usize| mapped@[index_in(values@, v)],
            ),
        decreases n - k,
    {
        let ghost pre = m@;
        proof {
            let c = index_in(values@, values@[k as int]);
            assert(values@[k as int] == values@[k as int]);
            assert(0 <= c < values@.len() && values@[c] == values@[k as int]);
            if c < k {
                assert(values@[c] < values@[k as int]);
            } else if c > k {
                assert(values@[k as int] < values@[c]);
            }
        }
        m.insert(values[k], mapped[k]);
        proof {
            let target = Map::new(
                |v: usize| exists|q: int| 0 <= q < k + 1 && values@[q] == v,
                |v: usize| mapped@[index_in(values@, v)],
            );
            assert forall|v: usize| #[trigger] m@.contains_key(v) <==> target.contains_key(v) by {
                if target.contains_key(v) {
                    let q = choose|q: int| 0 <= q < k + 1 && values@[q] == v;
                    if q < k {
                        assert(pre.contains_key(v));
                    }
                }
                if pre.contains_key(v) {
                    let q = choose|q: int| 0 <= q < k && values@[q] == v;
                    assert(target.contains_key(v));
                }
            }
            assert(m@ =~= target);
        }
        k = k + 1;
    }
    m
}

/// `s` with each run of equal neighbours cut down to one element.
fn dedup_exec(s: &Vec<usize>) -> (r: Vec<usize>)
    ensures
        r@ == dedup(s@),
{
    let mut r: Vec<usize> = Vec::new();
    let mut i: usize = 0;
    while i < s.len()
        invariant
            0 <= i <= s@.len(),
            r@ == dedup(s@.take(i as int)),
        decreases s@.len() - i,
    {
        proof {
            assert(s@.take(i + 1).drop_last() =~= s@.take(i as int));
        }
        let rl = r.len();
        if rl > 0 && r[rl - 1] == s[i] {
        } else {
            r.push(s[i]);
        }
        i = i + 1;
    }
    proof {
        assert(s@.take(i as int) =~= s@);
    }
    r
}

/// A copy of `s`.
fn copy_counts(s: &Vec<usize>) -> (r: Vec<usize>)
    ensures
        r@ == s@,
{
    let mut r: Vec<usize> = Vec::new();
    let mut i: usize = 0;
    while i < s.len()
        invariant
            0 <= i <= s@.len(),
            r@ == s@.take(i as int),
        decreases s@.len() - i,
    {
        r.push(s[i]);
        i = i + 1;
        proof {
            assert(r@ =~= s@.take(i as int));
        }
    }
    proof {
        assert(s@.take(i as int) =~= s@);
    }
    r
}

/// The gaps between consecutive values of a sorted list.
fn gaps_exec(s: &Vec<usize>) -> (r: Vec<usize>)
    requires
        strictly_increasing(s@),
    ensures
        r@ == gaps(s@),
{
    let mut r: Vec<usize> = Vec::new();
    if s.len() == 0 {
        assert(r@ =~= gaps(s@));
        return r;
    }
    let mut i: usize = 1;
    while i < s.len()
        invariant
            1 <= i <= s@.len(),
            strictly_increasing(s@),
            r@.len() == i - 1,
            forall|k: int| 0 <= k < i - 1 ==> r@[k] == gaps(s@)[k],
        decreases s@.len() - i,
    {
        assert(s@[i - 1] < s@[i as int]);
        r.push(s[i] - s[i - 1]);
        i = i + 1;
    }
    assert(r@ =~= gaps(s@));
    r
}

/// `s` without its zeros.
fn drop_zeros(s: &Vec<usize>) -> (r: Vec<usize>)
    ensures
        r@ == without_zeros(s@),
{
    let mut r: Vec<usize> = Vec::new();
    let mut i: usize = 0;
    while i < s.len()
        invariant
            0 <= i <= s@.len(),
            r@ == without_zeros(s@.take(i as int)),
        decreases s@.len() - i,
    {
        proof {
            assert(s@.take(i + 1).drop_last() =~= s@.take(i as int));
        }
        if s[i] != 0 {
            r.push(s[i]);
        }
        i = i + 1;
    }
    proof {
        assert(s@.take(i as int) =~= s@);
    }
    r
}

/// The sum of `s`, where it fits a machine word.
fn sum_counts(s: &Vec<usize>) -> (r: usize)
    requires
        seq_sum(s@) <= usize::MAX,
    ensures
        r == seq_sum(s@),
{
    let mut r: usize = 0;
    let mut i: usize = 0;
    while i < s.len()
        invariant
            0 <= i <= s@.len(),
            r == seq_sum(s@.take(i as int)),
            seq_sum(s@) <= usize::MAX,
        decreases s@.len() - i,
    {
        proof {
            assert(s@.take(i + 1).drop_last() =~= s@.take(i as int));
            lemma_sum_take_le(s@, i + 1);
        }
        r = r + s[i];
        i = i + 1;
    }
    proof {
        assert(s@.take(i as int) =~= s@);
    }
    r
}

} // verus!
