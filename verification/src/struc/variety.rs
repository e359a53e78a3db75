use vstd::prelude::*;
use crate::axis::{Axis, DataHV};
use crate::component::struc::seq_sum;
use crate::fas_file::{AllocateRule, AllocateTable};
use crate::sorted::strictly_increasing;
use crate::struc::attribute::regex_is_match;
use crate::struc::view::{coords_in_limit, is_attr_view, reals_readable, space_attrs_of, StrucAttrView};
use crate::struc::{count_below, Struc, ValueMode};

verus! {

/// `ul` lists, sorted and once each, the grid lines along `axis` that only
/// unreal points of `st` lie on.
pub open spec fn lists_unreal_only(st: Struc, axis: Axis, ul: Seq<usize>) -> bool {
    &&& strictly_increasing(ul)
    &&& forall|v: usize|
        ul.contains(v) <==> (st.has_coord(axis, ValueMode::Unreal, v) && !st.has_coord(axis, ValueMode::Real, v))
}

/// The space between each two consecutive real lines `rl`, less the lines of
/// `ul` between them.
pub open spec fn real_gaps(rl: Seq<usize>, ul: Seq<usize>) -> Seq<int> {
    Seq::new(
        if rl.len() == 0 {
            0
        } else {
            (rl.len() - 1) as nat
        },
        |k: int| rl[k + 1] - rl[k] - (count_below(ul, rl[k + 1]) - count_below(ul, rl[k])),
    )
}

/// `a` holds the spaces between consecutive real lines of `st` along `axis`.
pub open spec fn gaps_hold(st: Struc, axis: Axis, a: Seq<usize>) -> bool {
    forall|rl: Seq<usize>, ul: Seq<usize>|
        #![trigger st.lists_values(rl, axis, ValueMode::Real), lists_unreal_only(st, axis, ul)]
        st.lists_values(rl, axis, ValueMode::Real) && lists_unreal_only(st, axis, ul) ==> a.len() == real_gaps(
            rl,
            ul,
        ).len() && forall|k: int| 0 <= k < a.len() ==> a[k] == #[trigger] real_gaps(rl, ul)[k]
}

/// The running total of the spaces up to real line `k` is the distance from
/// the first real line, less the lines between that only unreal points lie on.
proof fn lemma_gap_prefix(a: Seq<usize>, rl: Seq<usize>, ul: Seq<usize>, k: int)
    requires
        rl.len() > 0,
        a.len() == real_gaps(rl, ul).len(),
        forall|j: int| 0 <= j < a.len() ==> a[j] == #[trigger] real_gaps(rl, ul)[j],
        0 <= k <= a.len(),
    ensures
        seq_sum(a.take(k)) == rl[k] - rl[0] - (count_below(ul, rl[k]) - count_below(ul, rl[0])),
    decreases k,
{
    if k > 0 {
        lemma_gap_prefix(a, rl, ul, k - 1);
        assert(a.take(k).drop_last() =~= a.take(k - 1));
        assert(a[k - 1] == real_gaps(rl, ul)[k - 1]);
    }
}

/// The spaces between the real lines add up to the distance from the first
/// real line to the last, less the lines between them that only unreal points
/// lie on.
pub proof fn lemma_gaps_total(st: Struc, axis: Axis, a: Seq<usize>, rl: Seq<usize>, ul: Seq<usize>)
    requires
        gaps_hold(st, axis, a),
        st.lists_values(rl, axis, ValueMode::Real),
        lists_unreal_only(st, axis, ul),
        rl.len() > 0,
    ensures
        seq_sum(a) == rl.last() - rl[0] - (count_below(ul, rl.last()) - count_below(ul, rl[0])),
{
    assert(a.len() == real_gaps(rl, ul).len());
    lemma_gap_prefix(a, rl, ul, a.len() as int);
    assert(a.take(a.len() as int) =~= a);
}

/// The entries of a sorted list that lie below `v` come first.
pub proof fn lemma_count_below_prefix(s: Seq<usize>, v: usize)
    requires
        strictly_increasing(s),
    ensures
        0 <= count_below(s, v) <= s.len(),
        forall|i: int| 0 <= i < count_below(s, v) ==> s[i] < v,
        forall|i: int| count_below(s, v) <= i < s.len() ==> s[i] >= v,
    decreases s.len(),
{
    if s.len() > 0 {
        let t = s.drop_last();
        assert(strictly_increasing(t));
        lemma_count_below_prefix(t, v);
        assert forall|i: int| 0 <= i < t.len() implies s[i] == t[i] by {}
        if s.last() < v {
            if count_below(t, v) < t.len() {
                let i = count_below(t, v);
                assert(t[i] >= v);
                assert(s[i] < s[s.len() - 1]);
            }
            assert(count_below(s, v) == s.len());
        } else {
            assert(count_below(s, v) == count_below(t, v));
        }
    }
}

/// Entries of a sorted list grow at least as fast as their positions.
proof fn lemma_increasing_gap(s: Seq<usize>, i: int, j: int)
    requires
        strictly_increasing(s),
        0 <= i <= j < s.len(),
    ensures
        s[j] - s[i] >= j - i,
    decreases j - i,
{
    if i < j {
        lemma_increasing_gap(s, i, j - 1);
        assert(s[j - 1] < s[j]);
    }
}

/// Fewer entries of a sorted list than `b - a` lie from `a` on and below `b`
/// when `a` is not among them.
pub proof fn lemma_count_between(s: Seq<usize>, a: usize, b: usize)
    requires
        strictly_increasing(s),
        a < b,
        !s.contains(a),
    ensures
        count_below(s, a) <= count_below(s, b),
        count_below(s, b) - count_below(s, a) <= b - a - 1,
{
    lemma_count_below_prefix(s, a);
    lemma_count_below_prefix(s, b);
    let i = count_below(s, a);
    let j = count_below(s, b);
    if j < i {
        assert(s[j] < a);
        assert(s[j] >= b);
    }
    if j > i {
        assert(s[i] >= a);
        assert(s[i] != a) by {
            if s[i] == a {
                assert(s.contains(a));
            }
        }
        assert(s[j - 1] < b);
        lemma_increasing_gap(s, i, j - 1);
    }
}

/// How many entries of `s` lie below `v`.
fn count_below_exec(s: &Vec<usize>, v: usize) -> (r: usize)
    ensures
        r == count_below(s@, v),
{
    let mut c: usize = 0;
    let mut k: usize = 0;
    while k < s.len()
        invariant
            0 <= k <= s@.len(),
            c == count_below(s@.take(k as int), v),
            c <= k,
        decreases s@.len() - k,
    {
        proof {
            assert(s@.take(k + 1).drop_last() =~= s@.take(k as int));
        }
        if s[k] < v {
            c = c + 1;
        }
        k = k + 1;
    }
    proof {
        assert(s@.take(k as int) =~= s@);
    }
    c
}

/// The spaces between consecutive real lines of `st` along `axis`, each less
/// the lines between them that only unreal points lie on.
fn real_gaps_in(st: &Struc, axis: Axis) -> (r: Vec<usize>)
    ensures
        gaps_hold(*st, axis, r@),
{
    let reals = st.collect_values(axis, ValueMode::Real);
    let ul = st.unreliable_in_axis(axis);
    let mut r: Vec<usize> = Vec::new();
    if reals.len() > 0 {
        let mut prev = count_below_exec(&ul, reals[0]);
        let mut k: usize = 1;
        while k < reals.len()
            invariant
                1 <= k <= reals@.len(),
                st.lists_values(reals@, axis, ValueMode::Real),
                lists_unreal_only(*st, axis, ul@),
                prev == count_below(ul@, reals@[k - 1]),
                r@.len() == k - 1,
                forall|q: int| 0 <= q < k - 1 ==> r@[q] == #[trigger] real_gaps(reals@, ul@)[q],
            decreases reals@.len() - k,
        {
            let c = count_below_exec(&ul, reals[k]);
            proof {
                let a = reals@[k - 1];
                assert(reals@.contains(a));
                assert(!ul@.contains(a));
                assert(a < reals@[k as int]);
                lemma_count_between(ul@, a, reals@[k as int]);
            }
            r.push(reals[k] - reals[k - 1] - (c - prev));
            prev = c;
            k = k + 1;
        }
    }
    proof {
        assert forall|rl: Seq<usize>, ul2: Seq<usize>|
            st.lists_values(rl, axis, ValueMode::Real) && lists_unreal_only(*st, axis, ul2) implies r@.len()
            == real_gaps(rl, ul2).len() && forall|k: int| 0 <= k < r@.len() ==> r@[k] == #[trigger] real_gaps(
            rl,
            ul2,
        )[k] by {
            crate::sorted::lemma_sorted_unique(rl, reals@);
            crate::sorted::lemma_sorted_unique(ul2, ul@);
        }
    }
    r
}

/// The tags that pick the allocation rules of `st`: its own, or `default`
/// where it has none.
pub open spec fn effective_tags(st: Struc) -> Seq<Seq<char>> {
    effective_tags_of(st.tags@)
}

/// The rule is in force for a structure with `tags`: it has no filter, or its
/// filter shares a tag with them.
pub open spec fn rule_applies(rule: AllocateRule, tags: Seq<Seq<char>>) -> bool {
    rule.filter@.len() == 0 || exists|i: int, j: int|
        0 <= i < rule.filter@.len() && 0 <= j < tags.len() && #[trigger] rule.filter@[i]@ == #[trigger] tags[j]
}

/// The weight of a space with attribute text `text`: that of the first rule in
/// force whose expression matches the text; one where none does.
pub open spec fn alloc_weight(rules: Seq<AllocateRule>, tags: Seq<Seq<char>>, text: Seq<char>) -> usize
    decreases rules.len(),
{
    if rules.len() == 0 {
        1
    } else if rule_applies(rules[0], tags) && regex_is_match(rules[0].regex.pattern(), text) {
        rules[0].weight
    } else {
        alloc_weight(rules.drop_first(), tags, text)
    }
}

/// `a` holds the weight of each of the attribute texts `attrs`.
pub open spec fn weights_hold(
    rules: Seq<AllocateRule>,
    tags: Seq<Seq<char>>,
    attrs: Seq<String>,
    a: Seq<usize>,
) -> bool {
    &&& a.len() == attrs.len()
    &&& forall|k: int| 0 <= k < a.len() ==> a[k] == #[trigger] alloc_weight(rules, tags, attrs[k]@)
}

/// What is known of a structure for laying it out: the structure, the
/// attribute texts of its spaces, the allocation of each space, and its
/// attribute view.
pub struct StrucDataCache {
    pub proto: Struc,
    pub attrs: DataHV<Vec<String>>,
    pub allocs: DataHV<Vec<usize>>,
    pub view: StrucAttrView,
}

/// The attribute view of `proto`.
fn attr_view(proto: &Struc) -> (r: StrucAttrView)
    requires
        coords_in_limit(*proto),
    ensures
        is_attr_view(*proto, r),
{
    match StrucAttrView::new(proto) {
        Ok(v) => v,
        Err(_) => {
            proof {
                assert(false);
            }
            StrucAttrView { view: Vec::new(), real: DataHV { h: Vec::new(), v: Vec::new() } }
        },
    }
}

/// Whether one of `filter` is one of `tags`, or `default` where `tags` is empty.
fn filter_meets(filter: &Vec<String>, tags: &Vec<String>) -> (r: bool)
    ensures
        r == (filter@.len() == 0 || exists|i: int, j: int|
            0 <= i < filter@.len() && 0 <= j < effective_tags_of(tags@).len() && #[trigger] filter@[i]@
                == #[trigger] effective_tags_of(tags@)[j]),
{
    if filter.len() == 0 {
        return true;
    }
    let default_tag = "default".to_owned();
    proof {
        reveal_strlit("default");
    }
    let ghost et = effective_tags_of(tags@);
    let mut i: usize = 0;
    while i < filter.len()
        invariant
            0 <= i <= filter@.len(),
            et == effective_tags_of(tags@),
            default_tag@ == seq!['d', 'e', 'f', 'a', 'u', 'l', 't'],
            forall|p: int, q: int|
                0 <= p < i && 0 <= q < et.len() ==> #[trigger] filter@[p]@ != #[trigger] et[q],
        decreases filter@.len() - i,
    {
        if tags.len() == 0 {
            if filter[i] == default_tag {
                assert(filter@[i as int]@ == et[0]);
                return true;
            }
            assert forall|p: int, q: int| 0 <= p < i + 1 && 0 <= q < et.len() implies #[trigger] filter@[p]@
                != #[trigger] et[q] by {
                if p == i {
                    assert(q == 0);
                }
            }
        } else {
            let mut j: usize = 0;
            while j < tags.len()
                invariant
                    0 <= i < filter@.len(),
                    0 <= j <= tags@.len(),
                    tags@.len() > 0,
                    et == effective_tags_of(tags@),
                    forall|q: int| 0 <= q < j ==> filter@[i as int]@ != #[trigger] et[q],
                decreases tags@.len() - j,
            {
                if filter[i] == tags[j] {
                    assert(filter@[i as int]@ == et[j as int]);
                    return true;
                }
                j = j + 1;
            }
            assert forall|p: int, q: int| 0 <= p < i + 1 && 0 <= q < et.len() implies #[trigger] filter@[p]@
                != #[trigger] et[q] by {
                if p == i {
                    assert(filter@[i as int]@ != et[q]);
                }
            }
        }
        i = i + 1;
    }
    false
}

/// The tags that pick allocation rules, by the tags a structure carries.
pub open spec fn effective_tags_of(tags: Seq<String>) -> Seq<Seq<char>> {
    if tags.len() == 0 {
        seq![seq!['d', 'e', 'f', 'a', 'u', 'l', 't']]
    } else {
        tags.map_values(|t: String| t@)
    }
}

/// The weight of each of `attrs` under the rules in force.
fn weights_of(rules: &Vec<AllocateRule>, in_force: &Vec<bool>, attrs: &Vec<String>, Ghost(tags): Ghost<
    Seq<Seq<char>>,
>) -> (r: Vec<usize>)
    requires
        in_force@.len() == rules@.len(),
        forall|q: int| 0 <= q < rules@.len() ==> in_force@[q] == rule_applies(#[trigger] rules@[q], tags),
    ensures
        weights_hold(rules@, tags, attrs@, r@),
{
    let mut r: Vec<usize> = Vec::new();
    let mut k: usize = 0;
    while k < attrs.len()
        invariant
            0 <= k <= attrs@.len(),
            in_force@.len() == rules@.len(),
            forall|q: int| 0 <= q < rules@.len() ==> in_force@[q] == rule_applies(#[trigger] rules@[q], tags),
            r@.len() == k,
            forall|q: int| 0 <= q < k ==> r@[q] == #[trigger] alloc_weight(rules@, tags, attrs@[q]@),
        decreases attrs@.len() - k,
    {
        let text = attrs[k].as_str();
        let mut weight: usize = 1;
        let mut q: usize = 0;
        let n = rules.len();
        proof {
            assert(rules@.subrange(0, n as int) =~= rules@);
        }
        while q < n
            invariant_except_break
                weight == 1,
            invariant
                n == rules@.len(),
                0 <= q <= n,
                in_force@.len() == n,
                forall|p: int| 0 <= p < n ==> in_force@[p] == rule_applies(#[trigger] rules@[p], tags),
                text@ == attrs@[k as int]@,
                alloc_weight(rules@, tags, text@) == alloc_weight(rules@.subrange(q as int, n as int), tags, text@),
            ensures
                weight == alloc_weight(rules@, tags, text@),
            decreases n - q,
        {
            let ghost rest = rules@.subrange(q as int, n as int);
            assert(rest.drop_first() =~= rules@.subrange(q + 1, n as int));
            assert(rest[0] == rules@[q as int]);
            if in_force[q] && crate::struc::attribute::matcher_finds(&rules[q].regex, text) {
                weight = rules[q].weight;
                break ;
            }
            q = q + 1;
        }
        proof {
            if q == n {
                assert(rules@.subrange(n as int, n as int).len() == 0);
            }
        }
        r.push(weight);
        k = k + 1;
    }
    r
}

impl StrucDataCache {
    /// The data of `proto`, with each space allocated the distance between its
    /// real lines less the lines between them that only unreal points lie on.
    pub fn new(proto: Struc) -> (r: Self)
        requires
            coords_in_limit(proto),
            reals_readable(proto),
        ensures
            r.proto == proto,
            is_attr_view(proto, r.view),
            space_attrs_of(proto, r.attrs),
            gaps_hold(proto, Axis::Horizontal, r.allocs.h@),
            gaps_hold(proto, Axis::Vertical, r.allocs.v@),
    {
        let allocs = DataHV { h: real_gaps_in(&proto, Axis::Horizontal), v: real_gaps_in(&proto, Axis::Vertical) };
        let view = attr_view(&proto);
        let attrs = proto.attributes();
        StrucDataCache { proto, attrs, allocs, view }
    }

    /// The data of `proto`, with each space allocated the weight that the
    /// first rule of `table` in force for the structure's tags (`default`
    /// where it has none) and matching the space's attribute text gives;
    /// one where no rule does.
    pub fn from_alloc_table(proto: Struc, table: &AllocateTable) -> (r: Self)
        requires
            coords_in_limit(proto),
            reals_readable(proto),
        ensures
            r.proto == proto,
            is_attr_view(proto, r.view),
            space_attrs_of(proto, r.attrs),
            weights_hold(table.0@, effective_tags(proto), r.attrs.h@, r.allocs.h@),
            weights_hold(table.0@, effective_tags(proto), r.attrs.v@, r.allocs.v@),
    {
        let ghost tags = effective_tags(proto);
        let rules = &table.0;
        let mut in_force: Vec<bool> = Vec::new();
        let mut q: usize = 0;
        while q < rules.len()
            invariant
                0 <= q <= rules@.len(),
                tags == effective_tags_of(proto.tags@),
                in_force@.len() == q,
                forall|p: int| 0 <= p < q ==> in_force@[p] == rule_applies(#[trigger] rules@[p], tags),
            decreases rules@.len() - q,
        {
            let meets = filter_meets(&rules[q].filter, &proto.tags);
            in_force.push(meets);
            q = q + 1;
        }
        let attrs = proto.attributes();
        let allocs = DataHV {
            h: weights_of(rules, &in_force, &attrs.h, Ghost(tags)),
            v: weights_of(rules, &in_force, &attrs.v, Ghost(tags)),
        };
        let view = attr_view(&proto);
        StrucDataCache { proto, attrs, allocs, view }
    }
}

} // verus!
