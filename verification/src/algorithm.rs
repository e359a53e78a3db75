use vstd::prelude::*;
use vstd::arithmetic::mul::lemma_mul_inequality;

verus! {

/// The smallest value of `s` over the closed index range `i..=j`.
pub open spec fn range_min(s: Seq<usize>, i: int, j: int) -> int
    decreases j - i,
{
    if j <= i {
        s[i] as int
    } else {
        let m = range_min(s, i, j - 1);
        if (s[j] as int) < m {
            s[j] as int
        } else {
            m
        }
    }
}

/// The area of the rectangle that spans the points `i..=j` of the outline `s`
/// and reaches up to the lowest of them.
pub open spec fn rect_area(s: Seq<usize>, i: int, j: int) -> int {
    (j - i) * range_min(s, i, j)
}

/// The index of the first smallest value of `s`.
pub open spec fn first_min_index(s: Seq<usize>) -> int
    decreases s.len(),
{
    if s.len() <= 1 {
        0
    } else {
        let k = first_min_index(s.drop_last());
        if s.last() < s[k] {
            s.len() - 1
        } else {
            k
        }
    }
}

/// The rectangle `(x1, x2, height, area)` chosen for the outline `s`: the whole
/// width under the first lowest point, or the better of the rectangles found on
/// either side of that point, preferring the whole width, then the left side.
pub open spec fn spec_find_rect(s: Seq<usize>) -> (int, int, int, int)
    decreases s.len(),
{
    if s.len() < 2 {
        (0, 0, 0, 0)
    } else {
        let k = first_min_index(s);
        if 0 <= k < s.len() {
            let m = s[k] as int;
            let x2 = s.len() - 1;
            let area = x2 * m;
            let l = spec_find_rect(s.subrange(0, k));
            let r = spec_find_rect(s.subrange(k + 1, s.len() as int));
            if area >= r.3 {
                if area >= l.3 {
                    (0, x2, m, area)
                } else {
                    l
                }
            } else if r.3 > l.3 {
                (r.0 + k + 1, r.1 + k + 1, r.2, r.3)
            } else {
                l
            }
        } else {
            (0, 0, 0, 0)
        }
    }
}

proof fn lemma_first_min(s: Seq<usize>)
    requires
        s.len() >= 1,
    ensures
        0 <= first_min_index(s) < s.len(),
        forall|t: int| 0 <= t < s.len() ==> s[first_min_index(s)] <= #[trigger] s[t],
        forall|t: int| 0 <= t < first_min_index(s) ==> s[first_min_index(s)] < #[trigger] s[t],
    decreases s.len(),
{
    if s.len() > 1 {
        let d = s.drop_last();
        lemma_first_min(d);
        assert forall|t: int| 0 <= t < d.len() implies d[t] == s[t] by {}
        let k = first_min_index(d);
        assert(s[k] == d[k]);
        assert forall|t: int| 0 <= t < s.len() implies s[first_min_index(s)] <= #[trigger] s[t] by {
            if t < d.len() {
                assert(d[t] == s[t]);
            }
        }
        assert forall|t: int| 0 <= t < first_min_index(s) implies s[first_min_index(s)] < #[trigger] s[t] by {
            if t < d.len() {
                assert(d[t] == s[t]);
            }
        }
    }
}

proof fn lemma_range_min_bounds(s: Seq<usize>, i: int, j: int)
    requires
        0 <= i <= j < s.len(),
    ensures
        forall|t: int| i <= t <= j ==> range_min(s, i, j) <= #[trigger] s[t],
        exists|t: int| i <= t <= j && range_min(s, i, j) == #[trigger] s[t],
    decreases j - i,
{
    if j > i {
        lemma_range_min_bounds(s, i, j - 1);
        let t0 = choose|t: int| i <= t <= j - 1 && range_min(s, i, j - 1) == s[t];
        if (s[j] as int) < range_min(s, i, j - 1) {
            assert(range_min(s, i, j) == s[j]);
        } else {
            assert(range_min(s, i, j) == s[t0]);
        }
    } else {
        assert(range_min(s, i, j) == s[i]);
    }
}

proof fn lemma_range_min_subrange(s: Seq<usize>, a: int, b: int, i: int, j: int)
    requires
        0 <= a <= b <= s.len(),
        0 <= i <= j < b - a,
    ensures
        range_min(s.subrange(a, b), i, j) == range_min(s, i + a, j + a),
    decreases j - i,
{
    if j > i {
        lemma_range_min_subrange(s, a, b, i, j - 1);
    }
}

/// The chosen rectangle lies on the outline, has the height of its lowest point,
/// and no rectangle on the outline has a larger area.
pub proof fn lemma_find_rect(s: Seq<usize>)
    ensures
        s.len() < 2 ==> spec_find_rect(s) == (0int, 0int, 0int, 0int),
        s.len() >= 2 ==> ({
            let r = spec_find_rect(s);
            &&& 0 <= r.0 <= r.1 < s.len()
            &&& r.2 == range_min(s, r.0, r.1)
            &&& r.3 == (r.1 - r.0) * r.2
        }),
        spec_find_rect(s).3 >= 0,
        forall|i: int, j: int|
            0 <= i <= j < s.len() ==> #[trigger] rect_area(s, i, j) <= spec_find_rect(s).3,
    decreases s.len(),
{
    if s.len() >= 2 {
        lemma_first_min(s);
        let k = first_min_index(s);
        let m = s[k] as int;
        let x2 = s.len() - 1;
        let area = x2 * m;
        let ls = s.subrange(0, k);
        let rs = s.subrange(k + 1, s.len() as int);
        lemma_find_rect(ls);
        lemma_find_rect(rs);
        let l = spec_find_rect(ls);
        let r = spec_find_rect(rs);
        let res = spec_find_rect(s);
        assert(x2 * m >= 0) by (nonlinear_arith)
            requires
                x2 >= 0,
                m >= 0,
        ;
        assert(res.3 >= area && res.3 >= l.3 && res.3 >= r.3);
        // the whole width has the height of the lowest point
        lemma_range_min_bounds(s, 0, x2);
        assert(range_min(s, 0, x2) == m);
        // validity
        if res == l && !(area >= r.3 && area >= l.3) {
            assert(l.3 > 0);
            assert(ls.len() >= 2);
            lemma_range_min_subrange(s, 0, k, l.0, l.1);
        } else if !(area >= r.3) && r.3 > l.3 {
            assert(r.3 > 0);
            assert(rs.len() >= 2);
            lemma_range_min_subrange(s, k + 1, s.len() as int, r.0, r.1);
        }
        // optimality
        assert forall|i: int, j: int| 0 <= i <= j < s.len() implies #[trigger] rect_area(
            s,
            i,
            j,
        ) <= res.3 by {
            if i <= k && k <= j {
                lemma_range_min_bounds(s, i, j);
                let t = choose|t: int| i <= t <= j && range_min(s, i, j) == s[t];
                assert(range_min(s, i, j) == m);
                lemma_mul_inequality(j - i, x2, m);
            } else if j < k {
                lemma_range_min_subrange(s, 0, k, i, j);
                assert(rect_area(s, i, j) == rect_area(ls, i, j));
            } else {
                lemma_range_min_subrange(s, k + 1, s.len() as int, i - k - 1, j - k - 1);
                assert(rect_area(s, i, j) == rect_area(rs, i - k - 1, j - k - 1));
            }
        }
    }
}

/// The lowest point of a range of the reversed outline is that of the mirrored
/// range.
proof fn lemma_range_min_reverse(s: Seq<usize>, i: int, j: int)
    requires
        0 <= i <= j < s.len(),
    ensures
        range_min(s.reverse(), i, j) == range_min(s, s.len() - 1 - j, s.len() - 1 - i),
{
    let n = s.len() as int;
    let r = s.reverse();
    lemma_range_min_bounds(r, i, j);
    lemma_range_min_bounds(s, n - 1 - j, n - 1 - i);
    let t1 = choose|t: int| i <= t <= j && range_min(r, i, j) == #[trigger] r[t];
    let t2 = choose|t: int| n - 1 - j <= t <= n - 1 - i && range_min(s, n - 1 - j, n - 1 - i) == #[trigger] s[t];
    assert(r[t1] == s[n - 1 - t1]);
    assert(r[n - 1 - t2] == s[t2]);
}

/// The lowest point of a range of an outline scaled by `k` is `k` times that
/// of the range.
proof fn lemma_range_min_scale(s: Seq<usize>, t: Seq<usize>, k: nat, i: int, j: int)
    requires
        t.len() == s.len(),
        forall|q: int| 0 <= q < s.len() ==> #[trigger] t[q] == k * s[q],
        0 <= i <= j < s.len(),
    ensures
        range_min(t, i, j) == k * range_min(s, i, j),
{
    lemma_range_min_bounds(s, i, j);
    lemma_range_min_bounds(t, i, j);
    let w1 = choose|q: int| i <= q <= j && range_min(s, i, j) == #[trigger] s[q];
    let w2 = choose|q: int| i <= q <= j && range_min(t, i, j) == #[trigger] t[q];
    let m = range_min(s, i, j);
    assert(t[w1] == k * s[w1]);
    assert(t[w2] == k * s[w2]);
    assert(m <= s[w2]);
    assert(k * m <= k * s[w2]) by (nonlinear_arith)
        requires
            m <= s[w2],
    ;
}

/// The best area does not change when the outline is read from the other end.
pub proof fn lemma_find_rect_reverse(s: Seq<usize>)
    ensures
        spec_find_rect(s.reverse()).3 == spec_find_rect(s).3,
{
    let n = s.len() as int;
    let rv = s.reverse();
    lemma_find_rect(s);
    lemma_find_rect(rv);
    if n >= 2 {
        let r = spec_find_rect(s);
        let q = spec_find_rect(rv);
        lemma_range_min_reverse(s, n - 1 - r.1, n - 1 - r.0);
        assert(rv.reverse() =~= s);
        assert(rect_area(rv, n - 1 - r.1, n - 1 - r.0) == r.3);
        lemma_range_min_reverse(s, q.0, q.1);
        assert(rect_area(s, n - 1 - q.1, n - 1 - q.0) == q.3);
    }
}

/// The best area of an outline scaled by `k` is `k` times its best area.
pub proof fn lemma_find_rect_scale(s: Seq<usize>, t: Seq<usize>, k: nat)
    requires
        t.len() == s.len(),
        forall|q: int| 0 <= q < s.len() ==> #[trigger] t[q] == k * s[q],
    ensures
        spec_find_rect(t).3 == k * spec_find_rect(s).3,
{
    lemma_find_rect(s);
    lemma_find_rect(t);
    if s.len() >= 2 {
        let r = spec_find_rect(s);
        let q = spec_find_rect(t);
        lemma_range_min_scale(s, t, k, r.0, r.1);
        let m = range_min(s, r.0, r.1);
        assert(rect_area(t, r.0, r.1) == k * r.3) by (nonlinear_arith)
            requires
                rect_area(t, r.0, r.1) == (r.1 - r.0) * (k * m),
                r.3 == (r.1 - r.0) * m,
        ;
        lemma_range_min_scale(s, t, k, q.0, q.1);
        let m2 = range_min(s, q.0, q.1);
        let a = rect_area(s, q.0, q.1);
        assert(a <= r.3);
        assert(q.3 == k * a) by (nonlinear_arith)
            requires
                q.3 == (q.1 - q.0) * (k * m2),
                a == (q.1 - q.0) * m2,
        ;
        assert(k * a <= k * r.3) by (nonlinear_arith)
            requires
                a <= r.3,
        ;
    }
}

fn rect_in(length: &[usize], lo: usize, hi: usize) -> (r: (usize, usize, usize, usize))
    requires
        lo <= hi <= length@.len(),
        forall|t: int| lo <= t < hi ==> length@[t] * (hi - lo - 1) <= usize::MAX,
    ensures
        (r.0 as int, r.1 as int, r.2 as int, r.3 as int) == spec_find_rect(
            length@.subrange(lo as int, hi as int),
        ),
    decreases hi - lo,
{
    let ghost s = length@.subrange(lo as int, hi as int);
    if hi - lo < 2 {
        return (0, 0, 0, 0);
    }
    let mut k = lo;
    let mut i = lo + 1;
    assert(length@.subrange(lo as int, lo + 1) =~= seq![length@[lo as int]]);
    while i < hi
        invariant
            lo < i <= hi <= length@.len(),
            lo <= k < i,
            k - lo == first_min_index(length@.subrange(lo as int, i as int)),
        decreases hi - i,
    {
        let ghost old_s = length@.subrange(lo as int, i as int);
        let ghost new_s = length@.subrange(lo as int, i + 1);
        assert(new_s.drop_last() =~= old_s);
        if length[i] < length[k] {
            k = i;
        }
        i = i + 1;
    }
    proof {
        assert(length@.subrange(lo as int, hi as int) =~= s);
        lemma_first_min(s);
        lemma_find_rect(s);
    }
    let min_height = length[k];
    let x2 = hi - lo - 1;
    proof {
        let b = length@[k as int] as int;
        assert(b * (hi - lo - 1) <= usize::MAX);
        assert(x2 * b == b * (hi - lo - 1)) by (nonlinear_arith)
            requires
                x2 == hi - lo - 1,
        ;
    }
    let area = x2 * min_height;
    proof {
        assert forall|t: int| lo <= t < k implies length@[t] * (k - lo - 1) <= usize::MAX by {
            let b = length@[t] as int;
            assert(b * (k - lo - 1) <= b * (hi - lo - 1)) by (nonlinear_arith)
                requires
                    k - lo - 1 <= hi - lo - 1,
                    b >= 0,
            ;
        }
        assert forall|t: int| k + 1 <= t < hi implies length@[t] * (hi - (k + 1) - 1) <= usize::MAX by {
            let b = length@[t] as int;
            assert(b * (hi - (k + 1) - 1) <= b * (hi - lo - 1)) by (nonlinear_arith)
                requires
                    hi - (k + 1) - 1 <= hi - lo - 1,
                    b >= 0,
            ;
        }
    }
    let (x1_l, x2_l, height_l, area_l) = rect_in(length, lo, k);
    let (x1_r, x2_r, height_r, area_r) = rect_in(length, k + 1, hi);
    proof {
        let kk = k - lo;
        assert(s.subrange(0, kk) =~= length@.subrange(lo as int, k as int));
        assert(s.subrange(kk + 1, s.len() as int) =~= length@.subrange(k + 1, hi as int));
        lemma_find_rect(length@.subrange(k + 1, hi as int));
        assert(s[kk] == min_height);
    }
    let split = k - lo;
    if area >= area_r {
        if area >= area_l {
            (0, x2, min_height, area)
        } else {
            (x1_l, x2_l, height_l, area_l)
        }
    } else {
        if area_r > area_l {
            proof {
                assert(area_r > 0);
            }
            (x1_r + split + 1, x2_r + split + 1, height_r, area_r)
        } else {
            (x1_l, x2_l, height_l, area_l)
        }
    }
}

/// Finds the largest rectangle under the outline `length`, whose points are
/// one unit apart: returns `(x1, x2, height, area)`. The widest rectangle at
/// the highest point, `(length.len() - 1) * max`, must fit in a `usize`.
pub fn find_reactangle_three(length: &[usize]) -> (r: (usize, usize, usize, usize))
    requires
        forall|t: int| 0 <= t < length@.len() ==> length@[t] * (length@.len() - 1) <= usize::MAX,
    ensures
        (r.0 as int, r.1 as int, r.2 as int, r.3 as int) == spec_find_rect(length@),
        length@.len() < 2 ==> r == (0usize, 0usize, 0usize, 0usize),
        length@.len() >= 2 ==> {
            &&& r.0 <= r.1 < length@.len()
            &&& r.2 == range_min(length@, r.0 as int, r.1 as int)
            &&& r.3 == (r.1 - r.0) * r.2
        },
        forall|i: int, j: int|
            0 <= i <= j < length@.len() ==> #[trigger] rect_area(length@, i, j) <= r.3,
{
    proof {
        assert(length@.subrange(0, length@.len() as int) =~= length@);
        lemma_find_rect(length@);
    }
    rect_in(length, 0, length.len())
}

} // verus!
