use vstd::prelude::*;

verus! {

/// `s` is sorted and holds no value twice.
pub open spec fn strictly_increasing(s: Seq<usize>) -> bool {
    forall|i: int, j: int| 0 <= i < j < s.len() ==> s[i] < s[j]
}

/// A sorted list without repeats has as many elements as its set of values.
pub proof fn lemma_sorted_len_is_set_len(s: Seq<usize>)
    requires
        strictly_increasing(s),
    ensures
        s.to_set().len() == s.len(),
        s.to_set().finite(),
{
    assert(s.no_duplicates()) by {
        assert forall|i: int, j: int|
            0 <= i < s.len() && 0 <= j < s.len() && i != j implies s[i] != s[j] by {
            if i < j {
                assert(s[i] < s[j]);
            } else {
                assert(s[j] < s[i]);
            }
        }
    }
    s.unique_seq_to_set();
    vstd::seq_lib::seq_to_set_is_finite(s);
}

/// Inserts `x` into the sorted list `v` unless it is there already.
pub(crate) fn insert_sorted(v: &mut Vec<usize>, x: usize)
    requires
        strictly_increasing(old(v)@),
    ensures
        strictly_increasing(final(v)@),
        final(v)@.len() <= old(v)@.len() + 1,
        forall|y: usize| final(v)@.contains(y) <==> (old(v)@.contains(y) || y == x),
{
    let mut i: usize = 0;
    while i < v.len() && v[i] < x
        invariant
            0 <= i <= v@.len(),
            strictly_increasing(v@),
            v@ == old(v)@,
            forall|k: int| 0 <= k < i ==> v@[k] < x,
        decreases v@.len() - i,
    {
        i = i + 1;
    }
    if i < v.len() && v[i] == x {
        assert(v@.contains(x));
        assert forall|y: usize| v@.contains(y) <==> (old(v)@.contains(y) || y == x) by {}
        return;
    }
    let ghost pre = v@;
    assert(pre == old(v)@);
    v.insert(i, x);
    assert forall|a: int, b: int| 0 <= a < b < v@.len() implies v@[a] < v@[b] by {
        if b < i {
            assert(v@[a] == pre[a] && v@[b] == pre[b]);
        } else if b == i {
            assert(v@[a] == pre[a]);
        } else if a < i {
            assert(v@[a] == pre[a] && v@[b] == pre[b - 1]);
            assert(pre[b - 1] >= x) by {
                if pre[b - 1] < x {
                    assert(pre[i as int] <= pre[b - 1]);
                }
            }
            if pre[b - 1] == x {
                assert(pre[i as int] <= x);
            }
        } else if a == i {
            assert(v@[b] == pre[b - 1]);
            assert(pre[i as int] >= x);
            if b - 1 > i {
                assert(pre[i as int] < pre[b - 1]);
            }
        } else {
            assert(v@[a] == pre[a - 1] && v@[b] == pre[b - 1]);
        }
    }
    assert forall|y: usize| v@.contains(y) <==> (pre.contains(y) || y == x) by {
        if v@.contains(y) {
            let k = choose|k: int| 0 <= k < v@.len() && v@[k] == y;
            if k < i {
                assert(pre[k] == y);
            } else if k > i {
                assert(pre[k - 1] == y);
            }
        }
        if pre.contains(y) {
            let k = choose|k: int| 0 <= k < pre.len() && pre[k] == y;
            if k < i {
                assert(v@[k] == y);
            } else {
                assert(v@[k + 1] == y);
            }
        }
        if y == x {
            assert(v@[i as int] == x);
        }
    }
    assert(forall|y: usize| v@.contains(y) <==> (old(v)@.contains(y) || y == x));
}


/// The position of `x` in the sorted list `v`, if it is there.
pub(crate) fn sorted_position(v: &Vec<usize>, x: usize) -> (r: Option<usize>)
    requires
        strictly_increasing(v@),
    ensures
        r matches Some(p) ==> p < v@.len() && v@[p as int] == x,
        r is None ==> !v@.contains(x),
{
    let mut p: usize = 0;
    while p < v.len()
        invariant
            0 <= p <= v@.len(),
            forall|q: int| 0 <= q < p ==> v@[q] != x,
        decreases v@.len() - p,
    {
        if v[p] == x {
            return Some(p);
        }
        p = p + 1;
    }
    None
}

/// Two sorted lists without repeats that hold the same values are equal.
pub proof fn lemma_sorted_unique(s1: Seq<usize>, s2: Seq<usize>)
    requires
        strictly_increasing(s1),
        strictly_increasing(s2),
        forall|v: usize| s1.contains(v) <==> s2.contains(v),
    ensures
        s1 == s2,
    decreases s1.len(),
{
    if s1.len() == 0 {
        if s2.len() > 0 {
            assert(s2.contains(s2[0]));
        }
        assert(s1 =~= s2);
    } else {
        assert(s1.contains(s1[0]));
        assert(s2.len() > 0);
        assert(s2.contains(s2[0]));
        let k1 = choose|k: int| 0 <= k < s2.len() && s2[k] == s1[0];
        let k2 = choose|k: int| 0 <= k < s1.len() && s1[k] == s2[0];
        if k1 > 0 {
            assert(s2[0] < s2[k1]);
            if k2 > 0 {
                assert(s1[0] < s1[k2]);
            }
        }
        assert(s1[0] == s2[0]);
        let t1 = s1.drop_first();
        let t2 = s2.drop_first();
        assert forall|v: usize| t1.contains(v) <==> t2.contains(v) by {
            if t1.contains(v) {
                let k = choose|k: int| 0 <= k < t1.len() && t1[k] == v;
                assert(s1[k + 1] == v);
                assert(s1[0] < v);
                assert(s2.contains(v));
                let q = choose|q: int| 0 <= q < s2.len() && s2[q] == v;
                assert(q != 0);
                assert(t2[q - 1] == v);
            }
            if t2.contains(v) {
                let k = choose|k: int| 0 <= k < t2.len() && t2[k] == v;
                assert(s2[k + 1] == v);
                assert(s2[0] < v);
                assert(s1.contains(v));
                let q = choose|q: int| 0 <= q < s1.len() && s1[q] == v;
                assert(q != 0);
                assert(t1[q - 1] == v);
            }
        }
        lemma_sorted_unique(t1, t2);
        assert(s1 =~= s2) by {
            assert forall|i: int| 0 <= i < s1.len() implies s1[i] == s2[i] by {
                if i > 0 {
                    assert(s1[i] == t1[i - 1]);
                    assert(s2[i] == t2[i - 1]);
                }
            }
        }
    }
}

} // verus!
