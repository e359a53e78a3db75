use vstd::prelude::*;

use crate::axis::{Axis, DataHV};
use crate::sorted::{lemma_sorted_unique, sorted_position, strictly_increasing};
use crate::struc::attribute::{
    in_coord_limit, spec_symbol_of_connect, spec_symbol_of_type, string_push, PaddingPointAttr,
    PointAttribute, COORD_LIMIT,
};
use crate::struc::space::{KeyPoint, KeyPointType};
use crate::struc::{coord, counts, Error, Struc, ValueMode};

verus! {

/// A pair of symbols: a point kind and a connection.
pub type SymbolPair = (char, char);

/// The symbols of `s`, pair after pair.
pub open spec fn flat(s: Seq<SymbolPair>) -> Seq<char>
    decreases s.len(),
{
    if s.len() == 0 {
        Seq::empty()
    } else {
        flat(s.drop_last()) + seq![s.last().0, s.last().1]
    }
}

/// `e` put into `t` behind every pair whose second symbol is not greater.
pub open spec fn insert_by_second(t: Seq<SymbolPair>, e: SymbolPair) -> Seq<SymbolPair>
    decreases t.len(),
{
    if t.len() == 0 || t.last().1 <= e.1 {
        t.push(e)
    } else {
        insert_by_second(t.drop_last(), e).push(t.last())
    }
}

/// `s` sorted by second symbol, pairs with equal second symbols in their
/// earlier order.
pub open spec fn sort_by_second(s: Seq<SymbolPair>) -> Seq<SymbolPair>
    decreases s.len(),
{
    if s.len() == 0 {
        s
    } else {
        insert_by_second(sort_by_second(s.drop_last()), s.last())
    }
}

/// The decimal digit of `d`.
pub open spec fn digit(d: nat) -> char {
    if d == 0 {
        '0'
    } else if d == 1 {
        '1'
    } else if d == 2 {
        '2'
    } else if d == 3 {
        '3'
    } else if d == 4 {
        '4'
    } else if d == 5 {
        '5'
    } else if d == 6 {
        '6'
    } else if d == 7 {
        '7'
    } else if d == 8 {
        '8'
    } else {
        '9'
    }
}

/// The decimal writing of `n`.
pub open spec fn decimal(n: nat) -> Seq<char>
    decreases n,
{
    if n < 10 {
        seq![digit(n)]
    } else {
        decimal(n / 10).push(digit(n % 10))
    }
}

/// Appends the pairs of `v`, symbol by symbol, to `out`.
fn push_pairs(out: &mut Vec<char>, v: &Vec<SymbolPair>)
    ensures
        final(out)@ == old(out)@ + flat(v@),
{
    let mut i: usize = 0;
    while i < v.len()
        invariant
            0 <= i <= v@.len(),
            out@ == old(out)@ + flat(v@.take(i as int)),
        decreases v@.len() - i,
    {
        proof {
            assert(v@.take(i + 1).drop_last() =~= v@.take(i as int));
        }
        let (a, b) = v[i];
        out.push(a);
        out.push(b);
        i = i + 1;
        proof {
            assert(out@ =~= old(out)@ + flat(v@.take(i as int)));
        }
    }
    proof {
        assert(v@.take(i as int) =~= v@);
    }
}

/// Appends the characters of `s` to `out`.
fn push_chars(out: &mut Vec<char>, s: &Vec<char>)
    ensures
        final(out)@ == old(out)@ + s@,
{
    let mut i: usize = 0;
    while i < s.len()
        invariant
            0 <= i <= s@.len(),
            out@ == old(out)@ + s@.take(i as int),
        decreases s@.len() - i,
    {
        out.push(s[i]);
        i = i + 1;
        proof {
            assert(out@ =~= old(out)@ + s@.take(i as int));
        }
    }
    proof {
        assert(s@.take(i as int) =~= s@);
    }
}

fn digit_exec(d: usize) -> (r: char)
    requires
        d < 10,
    ensures
        r == digit(d as nat),
{
    if d == 0 {
        '0'
    } else if d == 1 {
        '1'
    } else if d == 2 {
        '2'
    } else if d == 3 {
        '3'
    } else if d == 4 {
        '4'
    } else if d == 5 {
        '5'
    } else if d == 6 {
        '6'
    } else if d == 7 {
        '7'
    } else if d == 8 {
        '8'
    } else {
        '9'
    }
}

/// Appends the decimal writing of `n` to `out`.
fn push_decimal(out: &mut Vec<char>, n: usize)
    ensures
        final(out)@ == old(out)@ + decimal(n as nat),
    decreases n,
{
    if n >= 10 {
        push_decimal(out, n / 10);
    }
    out.push(digit_exec(n % 10));
    proof {
        if n < 10 {
            assert(n % 10 == n);
        }
        assert(out@ =~= old(out)@ + decimal(n as nat));
    }
}

/// Puts `e` into the sorted list `t` behind every pair whose second symbol is
/// not greater.
fn insert_pair(t: &mut Vec<SymbolPair>, e: SymbolPair)
    ensures
        final(t)@ == insert_by_second(old(t)@, e),
    decreases old(t)@.len(),
{
    let n = t.len();
    if n == 0 || t[n - 1].1 <= e.1 {
        t.push(e);
    } else {
        let last = t.pop().unwrap();
        insert_pair(t, e);
        t.push(last);
    }
}

/// `v` sorted by second symbol, keeping the order of pairs with equal ones.
fn sort_pairs(v: &Vec<SymbolPair>) -> (r: Vec<SymbolPair>)
    ensures
        r@ == sort_by_second(v@),
{
    let mut r: Vec<SymbolPair> = Vec::new();
    let mut i: usize = 0;
    while i < v.len()
        invariant
            0 <= i <= v@.len(),
            r@ == sort_by_second(v@.take(i as int)),
        decreases v@.len() - i,
    {
        proof {
            assert(v@.take(i + 1).drop_last() =~= v@.take(i as int));
        }
        insert_pair(&mut r, v[i]);
        i = i + 1;
    }
    proof {
        assert(v@.take(i as int) =~= v@);
    }
    r
}

/// A string holding the characters of `s`.
fn string_of(s: &Vec<char>) -> (r: String)
    ensures
        r@ == s@,
{
    let mut r = String::new();
    let mut i: usize = 0;
    while i < s.len()
        invariant
            0 <= i <= s@.len(),
            r@ == s@.take(i as int),
        decreases s@.len() - i,
    {
        string_push(&mut r, s[i]);
        i = i + 1;
        proof {
            assert(r@ =~= s@.take(i as int));
        }
    }
    proof {
        assert(s@.take(i as int) =~= s@);
    }
    r
}

/// What a connection symbol of a point next to a space adds, by code:
/// `1` an attribute pair and a space pair, and the row counts; `2` the same
/// and a previous-row pair; `3` a previous-row pair and a space pair, and the
/// row counts; `4` padding; `0` nothing. `is_h` picks the spaces between
/// columns, `second` the side after the space.
#[verifier::opaque]
pub open spec fn connect_class(is_h: bool, second: bool, c: char) -> int {
    if is_h {
        if !second {
            if c == '3' || c == '2' {
                1
            } else if c == '6' {
                2
            } else if c == '8' || c == '9' {
                3
            } else if c == '1' || c == '4' || c == '7' {
                4
            } else {
                0
            }
        } else {
            if c == '2' || c == '1' {
                1
            } else if c == '4' {
                2
            } else if c == '8' || c == '7' {
                3
            } else if c == '9' || c == '6' || c == '3' {
                4
            } else {
                0
            }
        }
    } else {
        if !second {
            if c == '6' || c == '3' {
                1
            } else if c == '2' {
                2
            } else if c == '1' || c == '4' {
                3
            } else if c == '7' || c == '8' || c == '9' {
                4
            } else {
                0
            }
        } else {
            if c == '6' || c == '9' {
                1
            } else if c == '8' {
                2
            } else if c == '7' || c == '4' {
                3
            } else if c == '1' || c == '2' || c == '3' {
                4
            } else {
                0
            }
        }
    }
}

/// What the front symbol `f` of an attribute whose next symbol is `n` adds,
/// by code: `1` an attribute pair and a previous-row pair, and the row counts;
/// `2` the two pairs only; `3` padding; `0` nothing.
#[verifier::opaque]
pub open spec fn front_class(is_h: bool, f: char, n: char) -> int {
    if is_h {
        if f == 'h' {
            1
        } else if f == 'v' || f == 'l' || f == 'r' {
            2
        } else if f == 't' || f == 'b' || (f == '0' && n == '0') {
            3
        } else {
            0
        }
    } else {
        if f == 'v' {
            1
        } else if f == 't' || f == 'b' || f == 'h' {
            2
        } else if f == 'l' || f == 'r' || (f == '0' && n == '0') {
            3
        } else {
            0
        }
    }
}

/// What the points of one cell next to a space add to a row: pairs for the
/// attribute of the row, for the previous-row part, for the space itself,
/// padding symbols, and whether the row counts.
pub struct Contrib {
    pub attr: Seq<SymbolPair>,
    pub pre: Seq<SymbolPair>,
    pub space: Seq<SymbolPair>,
    pub pad: Seq<char>,
    pub ok: bool,
}

pub open spec fn pair_if(b: bool, t: char, c: char) -> Seq<SymbolPair> {
    if b {
        seq![(t, c)]
    } else {
        Seq::empty()
    }
}

pub open spec fn chars_if(b: bool, t: char, c: char) -> Seq<char> {
    if b {
        seq![t, c]
    } else {
        Seq::empty()
    }
}

/// What one attribute `a` adds.
pub open spec fn attr_contrib(is_h: bool, second: bool, a: Seq<char>) -> Contrib {
    let f = a[0];
    let t = a[1];
    let n = a[2];
    let cf = connect_class(is_h, second, f);
    let cn = connect_class(is_h, second, n);
    let fc = front_class(is_h, f, n);
    Contrib {
        attr: pair_if(cf == 1 || cf == 2, t, f) + pair_if(cn == 1 || cn == 2, t, n) + pair_if(
            fc == 1 || fc == 2,
            t,
            f,
        ),
        pre: pair_if(cf == 2 || cf == 3, t, f) + pair_if(cn == 2 || cn == 3, t, n) + pair_if(
            fc == 1 || fc == 2,
            t,
            f,
        ),
        space: pair_if(1 <= cf <= 3, t, f) + pair_if(1 <= cn <= 3, t, n),
        pad: chars_if(cf == 4, t, f) + chars_if(cn == 4, t, n) + chars_if(fc == 3, t, f),
        ok: (1 <= cf <= 3) || (1 <= cn <= 3) || fc == 1,
    }
}

/// `r` is what one symbol `c` of a point of kind `t` adds: the pair `(t, c)`
/// among the attribute pairs, the previous-row pairs and the space pairs as
/// `attr`, `pre` and `space` say, the symbols `t c` as padding as `pad` says,
/// and the row counts exactly where `ok` says.
pub open spec fn adds(r: Contrib, t: char, c: char, attr: bool, pre: bool, space: bool, pad: bool, ok: bool) -> bool {
    &&& r.attr == (if attr {
        seq![(t, c)]
    } else {
        Seq::<SymbolPair>::empty()
    })
    &&& r.pre == (if pre {
        seq![(t, c)]
    } else {
        Seq::<SymbolPair>::empty()
    })
    &&& r.space == (if space {
        seq![(t, c)]
    } else {
        Seq::<SymbolPair>::empty()
    })
    &&& r.pad == (if pad {
        seq![t, c]
    } else {
        Seq::<char>::empty()
    })
    &&& r.ok == ok
}

/// What the next connection `c` of a point of kind `t` at the start of a path
/// (front symbol `0`) adds to a row, by side of the space:
/// - left of a space between columns: `2`, `3` an attribute and a space pair;
///   `6` those and a previous-row pair; `8`, `9` a previous-row and a space
///   pair; `1`, `4`, `7` padding;
/// - right of it: `1`, `2` an attribute and a space pair; `4` those and a
///   previous-row pair; `7`, `8` a previous-row and a space pair; `3`, `6`,
///   `9` padding;
/// - above a space between rows: `3`, `6` an attribute and a space pair; `2`
///   those and a previous-row pair; `1`, `4` a previous-row and a space pair;
///   `7`, `8`, `9` padding;
/// - below it: `6`, `9` an attribute and a space pair; `8` those and a
///   previous-row pair; `4`, `7` a previous-row and a space pair; `1`, `2`,
///   `3` padding.
/// Every pair other than padding makes the row count.
pub proof fn lemma_connection_table(t: char, c: char)
    ensures
        ({
            let r = attr_contrib(true, false, seq!['0', t, c]);
            &&& (c == '2' || c == '3') ==> adds(r, t, c, true, false, true, false, true)
            &&& c == '6' ==> adds(r, t, c, true, true, true, false, true)
            &&& (c == '8' || c == '9') ==> adds(r, t, c, false, true, true, false, true)
            &&& (c == '1' || c == '4' || c == '7') ==> adds(r, t, c, false, false, false, true, false)
        }),
        ({
            let r = attr_contrib(true, true, seq!['0', t, c]);
            &&& (c == '1' || c == '2') ==> adds(r, t, c, true, false, true, false, true)
            &&& c == '4' ==> adds(r, t, c, true, true, true, false, true)
            &&& (c == '7' || c == '8') ==> adds(r, t, c, false, true, true, false, true)
            &&& (c == '3' || c == '6' || c == '9') ==> adds(r, t, c, false, false, false, true, false)
        }),
        ({
            let r = attr_contrib(false, false, seq!['0', t, c]);
            &&& (c == '3' || c == '6') ==> adds(r, t, c, true, false, true, false, true)
            &&& c == '2' ==> adds(r, t, c, true, true, true, false, true)
            &&& (c == '1' || c == '4') ==> adds(r, t, c, false, true, true, false, true)
            &&& (c == '7' || c == '8' || c == '9') ==> adds(r, t, c, false, false, false, true, false)
        }),
        ({
            let r = attr_contrib(false, true, seq!['0', t, c]);
            &&& (c == '6' || c == '9') ==> adds(r, t, c, true, false, true, false, true)
            &&& c == '8' ==> adds(r, t, c, true, true, true, false, true)
            &&& (c == '4' || c == '7') ==> adds(r, t, c, false, true, true, false, true)
            &&& (c == '1' || c == '2' || c == '3') ==> adds(r, t, c, false, false, false, true, false)
        }),
{
    lemma_next_only(true, false, t, c);
    lemma_next_only(true, true, t, c);
    lemma_next_only(false, false, t, c);
    lemma_next_only(false, true, t, c);
    reveal(connect_class);
}

/// A point at the start of a path adds only what its next symbol adds.
proof fn lemma_next_only(is_h: bool, second: bool, t: char, c: char)
    ensures
        c != '0' ==> ({
            let r = attr_contrib(is_h, second, seq!['0', t, c]);
            let k = connect_class(is_h, second, c);
            &&& r.attr == pair_if(k == 1 || k == 2, t, c)
            &&& r.pre == pair_if(k == 2 || k == 3, t, c)
            &&& r.space == pair_if(1 <= k <= 3, t, c)
            &&& r.pad == chars_if(k == 4, t, c)
            &&& r.ok == (1 <= k <= 3)
        }),
{
    reveal(connect_class);
    reveal(front_class);
    let a = seq!['0', t, c];
    assert(a[0] == '0' && a[1] == t && a[2] == c);
    assert(connect_class(is_h, second, '0') == 0);
    if c != '0' {
        assert(front_class(is_h, '0', c) == 0);
        let r = attr_contrib(is_h, second, a);
        let k = connect_class(is_h, second, c);
        assert(r.attr =~= pair_if(k == 1 || k == 2, t, c));
        assert(r.pre =~= pair_if(k == 2 || k == 3, t, c));
        assert(r.space =~= pair_if(1 <= k <= 3, t, c));
        assert(r.pad =~= chars_if(k == 4, t, c));
    }
}

/// What the front symbol `f` of a point of kind `t` adds to a row, for a point
/// whose next symbol is `0`: across a space between columns, `h` an
/// attribute and a previous-row pair and the row counts, `v`, `l`, `r` the two
/// pairs only, `t`, `b` padding; across a space between rows, `v` the two
/// pairs and the row counts, `t`, `b`, `h` the two pairs only, `l`, `r`
/// padding; and a point alone (`0` on both sides) is padding either way.
pub proof fn lemma_front_table(t: char, f: char, second: bool)
    ensures
        ({
            let r = attr_contrib(true, second, seq![f, t, '0']);
            &&& f == 'h' ==> adds(r, t, f, true, true, false, false, true)
            &&& (f == 'v' || f == 'l' || f == 'r') ==> adds(r, t, f, true, true, false, false, false)
            &&& (f == 't' || f == 'b' || f == '0') ==> adds(r, t, f, false, false, false, true, false)
        }),
        ({
            let r = attr_contrib(false, second, seq![f, t, '0']);
            &&& f == 'v' ==> adds(r, t, f, true, true, false, false, true)
            &&& (f == 't' || f == 'b' || f == 'h') ==> adds(r, t, f, true, true, false, false, false)
            &&& (f == 'l' || f == 'r' || f == '0') ==> adds(r, t, f, false, false, false, true, false)
        }),
{
    reveal(front_class);
    let a = seq![f, t, '0'];
    assert(a[0] == f && a[1] == t && a[2] == '0');
    if f == 'h' || f == 'v' || f == 'l' || f == 'r' || f == 't' || f == 'b' || f == '0' {
        lemma_front_only(true, second, t, f);
        lemma_front_only(false, second, t, f);
    }
}

/// A point whose symbols other than the front one are `0` adds only what its
/// front symbol adds.
proof fn lemma_front_only(is_h: bool, second: bool, t: char, f: char)
    requires
        f == 'h' || f == 'v' || f == 'l' || f == 'r' || f == 't' || f == 'b' || f == '0',
    ensures
        ({
            let r = attr_contrib(is_h, second, seq![f, t, '0']);
            let k = front_class(is_h, f, '0');
            &&& r.attr == pair_if(k == 1 || k == 2, t, f)
            &&& r.pre == pair_if(k == 1 || k == 2, t, f)
            &&& r.space == Seq::<SymbolPair>::empty()
            &&& r.pad == chars_if(k == 3, t, f)
            &&& r.ok == (k == 1)
        }),
{
    reveal(connect_class);
    reveal(front_class);
    let a = seq![f, t, '0'];
    assert(a[0] == f && a[1] == t && a[2] == '0');
    assert(connect_class(is_h, second, f) == 0);
    assert(connect_class(is_h, second, '0') == 0);
    let r = attr_contrib(is_h, second, a);
    let k = front_class(is_h, f, '0');
    assert(r.attr =~= pair_if(k == 1 || k == 2, t, f));
    assert(r.pre =~= pair_if(k == 1 || k == 2, t, f));
    assert(r.space =~= Seq::<SymbolPair>::empty());
    assert(r.pad =~= chars_if(k == 3, t, f));
}

pub open spec fn empty_contrib() -> Contrib {
    Contrib {
        attr: Seq::empty(),
        pre: Seq::empty(),
        space: Seq::empty(),
        pad: Seq::empty(),
        ok: false,
    }
}

pub open spec fn join(x: Contrib, y: Contrib) -> Contrib {
    Contrib {
        attr: x.attr + y.attr,
        pre: x.pre + y.pre,
        space: x.space + y.space,
        pad: x.pad + y.pad,
        ok: x.ok || y.ok,
    }
}

/// The kind of point that a space along the axis does not look at: vertical
/// points for spaces between columns, horizontal ones for spaces between rows.
pub open spec fn skipped_kind(is_h: bool) -> char {
    if is_h {
        'V'
    } else {
        'H'
    }
}

/// What the attributes of a cell add, in the order the cell holds them.
pub open spec fn cell_contrib(is_h: bool, second: bool, cell: Seq<PointAttribute>) -> Contrib
    decreases cell.len(),
{
    if cell.len() == 0 {
        empty_contrib()
    } else {
        let prev = cell_contrib(is_h, second, cell.drop_last());
        if cell.last()@[1] == skipped_kind(is_h) {
            prev
        } else {
            join(prev, attr_contrib(is_h, second, cell.last()@))
        }
    }
}

/// The values `Contrib` stands for, held in vectors.
pub struct ContribBuf {
    pub attr: Vec<SymbolPair>,
    pub pre: Vec<SymbolPair>,
    pub space: Vec<SymbolPair>,
    pub pad: Vec<char>,
    pub ok: bool,
}

impl View for ContribBuf {
    type V = Contrib;

    open spec fn view(&self) -> Contrib {
        Contrib {
            attr: self.attr@,
            pre: self.pre@,
            space: self.space@,
            pad: self.pad@,
            ok: self.ok,
        }
    }
}

fn connect_class_exec(is_h: bool, second: bool, c: char) -> (r: u8)
    ensures
        r as int == connect_class(is_h, second, c),
{
    reveal(connect_class);
    if is_h {
        if !second {
            if c == '3' || c == '2' {
                1
            } else if c == '6' {
                2
            } else if c == '8' || c == '9' {
                3
            } else if c == '1' || c == '4' || c == '7' {
                4
            } else {
                0
            }
        } else {
            if c == '2' || c == '1' {
                1
            } else if c == '4' {
                2
            } else if c == '8' || c == '7' {
                3
            } else if c == '9' || c == '6' || c == '3' {
                4
            } else {
                0
            }
        }
    } else {
        if !second {
            if c == '6' || c == '3' {
                1
            } else if c == '2' {
                2
            } else if c == '1' || c == '4' {
                3
            } else if c == '7' || c == '8' || c == '9' {
                4
            } else {
                0
            }
        } else {
            if c == '6' || c == '9' {
                1
            } else if c == '8' {
                2
            } else if c == '7' || c == '4' {
                3
            } else if c == '1' || c == '2' || c == '3' {
                4
            } else {
                0
            }
        }
    }
}

fn front_class_exec(is_h: bool, f: char, n: char) -> (r: u8)
    ensures
        r as int == front_class(is_h, f, n),
{
    reveal(front_class);
    if is_h {
        if f == 'h' {
            1
        } else if f == 'v' || f == 'l' || f == 'r' {
            2
        } else if f == 't' || f == 'b' || (f == '0' && n == '0') {
            3
        } else {
            0
        }
    } else {
        if f == 'v' {
            1
        } else if f == 't' || f == 'b' || f == 'h' {
            2
        } else if f == 'l' || f == 'r' || (f == '0' && n == '0') {
            3
        } else {
            0
        }
    }
}

fn push_pair_if(v: &mut Vec<SymbolPair>, b: bool, t: char, c: char)
    ensures
        final(v)@ == old(v)@ + pair_if(b, t, c),
{
    if b {
        v.push((t, c));
    }
    assert(v@ =~= old(v)@ + pair_if(b, t, c));
}

fn push_chars_if(v: &mut Vec<char>, b: bool, t: char, c: char)
    ensures
        final(v)@ == old(v)@ + chars_if(b, t, c),
{
    if b {
        v.push(t);
        v.push(c);
    }
    assert(v@ =~= old(v)@ + chars_if(b, t, c));
}

/// What the attribute `pa` contributes.
fn attr_contrib_exec(pa: &PointAttribute, is_h: bool, second: bool) -> (r: ContribBuf)
    ensures
        r@ == attr_contrib(is_h, second, pa@),
{
    let f = pa.front_connect();
    let t = pa.this_point();
    let n = pa.next_connect();
    let cf = connect_class_exec(is_h, second, f);
    let cn = connect_class_exec(is_h, second, n);
    let fc = front_class_exec(is_h, f, n);
    let mut attr: Vec<SymbolPair> = Vec::new();
    push_pair_if(&mut attr, cf == 1 || cf == 2, t, f);
    push_pair_if(&mut attr, cn == 1 || cn == 2, t, n);
    push_pair_if(&mut attr, fc == 1 || fc == 2, t, f);
    let mut pre: Vec<SymbolPair> = Vec::new();
    push_pair_if(&mut pre, cf == 2 || cf == 3, t, f);
    push_pair_if(&mut pre, cn == 2 || cn == 3, t, n);
    push_pair_if(&mut pre, fc == 1 || fc == 2, t, f);
    let mut space: Vec<SymbolPair> = Vec::new();
    push_pair_if(&mut space, 1 <= cf && cf <= 3, t, f);
    push_pair_if(&mut space, 1 <= cn && cn <= 3, t, n);
    let mut pad: Vec<char> = Vec::new();
    push_chars_if(&mut pad, cf == 4, t, f);
    push_chars_if(&mut pad, cn == 4, t, n);
    push_chars_if(&mut pad, fc == 3, t, f);
    let ok = (1 <= cf && cf <= 3) || (1 <= cn && cn <= 3) || fc == 1;
    let r = ContribBuf { attr, pre, space, pad, ok };
    proof {
        let c = attr_contrib(is_h, second, pa@);
        assert(r.attr@ =~= c.attr);
        assert(r.pre@ =~= c.pre);
        assert(r.space@ =~= c.space);
        assert(r.pad@ =~= c.pad);
    }
    r
}

/// Adds `c` to `acc`, list by list.
fn join_into(acc: &mut ContribBuf, c: ContribBuf)
    ensures
        final(acc)@ == join(old(acc)@, c@),
{
    let mut c = c;
    acc.attr.append(&mut c.attr);
    acc.pre.append(&mut c.pre);
    acc.space.append(&mut c.space);
    acc.pad.append(&mut c.pad);
    acc.ok = acc.ok || c.ok;
}

/// What the attributes of `cell` contribute.
fn cell_contrib_exec(cell: &Vec<PointAttribute>, is_h: bool, second: bool) -> (r: ContribBuf)
    ensures
        r@ == cell_contrib(is_h, second, cell@),
{
    let mut acc = ContribBuf {
        attr: Vec::new(),
        pre: Vec::new(),
        space: Vec::new(),
        pad: Vec::new(),
        ok: false,
    };
    let skipped = if is_h {
        'V'
    } else {
        'H'
    };
    let mut i: usize = 0;
    proof {
        assert(acc@ =~= cell_contrib(is_h, second, cell@.take(0)));
    }
    while i < cell.len()
        invariant
            0 <= i <= cell@.len(),
            skipped == skipped_kind(is_h),
            acc@ == cell_contrib(is_h, second, cell@.take(i as int)),
        decreases cell@.len() - i,
    {
        proof {
            assert(cell@.take(i + 1).drop_last() =~= cell@.take(i as int));
        }
        let pa = &cell[i];
        if pa.this_point() != skipped {
            let c = attr_contrib_exec(pa, is_h, second);
            join_into(&mut acc, c);
        }
        i = i + 1;
    }
    proof {
        assert(cell@.take(i as int) =~= cell@);
    }
    acc
}

/// What the scan of a line of cells along a space has gathered so far: the
/// text of the rows, the padding carried to the next counting row on either
/// side, and the pairs of the space itself on either side.
pub struct ScanState {
    pub output: Seq<char>,
    pub pad1: Seq<char>,
    pub pad2: Seq<char>,
    pub space1: Seq<SymbolPair>,
    pub space2: Seq<SymbolPair>,
}

pub open spec fn empty_scan() -> ScanState {
    ScanState {
        output: Seq::empty(),
        pad1: Seq::empty(),
        pad2: Seq::empty(),
        space1: Seq::empty(),
        space2: Seq::empty(),
    }
}

/// The text a counting row adds: for the first row its attribute pairs; for
/// the others the padding carried so far, the previous-row pairs and, but for
/// the last row, the attribute pairs.
pub open spec fn row_text(
    pad1: Seq<char>,
    pad2: Seq<char>,
    c1: Contrib,
    c2: Contrib,
    first: bool,
    last: bool,
) -> Seq<char> {
    let attrs = flat(sort_by_second(c1.attr)) + seq!['-'] + flat(sort_by_second(c2.attr));
    if first {
        attrs
    } else {
        let head = seq!['>'] + pad1 + c1.pad + seq!['-'] + pad2 + c2.pad + seq!['<'] + flat(
            sort_by_second(c1.pre),
        ) + seq!['-'] + flat(sort_by_second(c2.pre)) + seq![';'];
        if last {
            head
        } else {
            head + attrs
        }
    }
}

/// The scan after one more row, whose cells contribute `c1` and `c2`: a row
/// counts when `forced` or when either cell says so; a counting row adds its
/// text and restarts the padding, any other row only adds to the padding.
pub open spec fn row_step(
    st: ScanState,
    c1: Contrib,
    c2: Contrib,
    forced: bool,
    first: bool,
    last: bool,
) -> ScanState {
    if forced || c1.ok || c2.ok {
        ScanState {
            output: st.output + row_text(st.pad1, st.pad2, c1, c2, first, last),
            pad1: c1.pad,
            pad2: c2.pad,
            space1: st.space1 + c1.space,
            space2: st.space2 + c2.space,
        }
    } else {
        ScanState {
            output: st.output,
            pad1: st.pad1 + flat(c1.attr) + c1.pad,
            pad2: st.pad2 + flat(c2.attr) + c2.pad,
            space1: st.space1 + c1.space,
            space2: st.space2 + c2.space,
        }
    }
}

/// The scan of the first `j` rows of the two lines of cells `l1` and `l2`
/// on either side of a space. The last row always counts, and so does the
/// row `special`.
pub open spec fn scan(
    is_h: bool,
    l1: Seq<Seq<PointAttribute>>,
    l2: Seq<Seq<PointAttribute>>,
    special: int,
    j: int,
) -> ScanState
    decreases j,
{
    if j <= 0 {
        empty_scan()
    } else {
        let r = j - 1;
        row_step(
            scan(is_h, l1, l2, special, j - 1),
            cell_contrib(is_h, false, l1[r]),
            cell_contrib(is_h, true, l2[r]),
            r + 1 == l1.len() || r == special,
            r == 0,
            r + 1 == l1.len(),
        )
    }
}

/// The attribute text of a space: its tag, its own pairs on either side, the
/// text of its rows, and how many spaces lie before and after it.
pub open spec fn space_text(tag: char, st: ScanState, before: nat, after: nat) -> Seq<char> {
    seq![tag, ':'] + flat(sort_by_second(st.space1)) + seq!['-'] + flat(
        sort_by_second(st.space2),
    ) + seq![':'] + st.output + seq![':'] + decimal(before) + seq!['-'] + decimal(after)
}

/// The values `ScanState` stands for, held in vectors.
pub struct ScanBuf {
    pub output: Vec<char>,
    pub pad1: Vec<char>,
    pub pad2: Vec<char>,
    pub space1: Vec<SymbolPair>,
    pub space2: Vec<SymbolPair>,
}

impl View for ScanBuf {
    type V = ScanState;

    open spec fn view(&self) -> ScanState {
        ScanState {
            output: self.output@,
            pad1: self.pad1@,
            pad2: self.pad2@,
            space1: self.space1@,
            space2: self.space2@,
        }
    }
}

fn row_text_exec(
    pad1: &Vec<char>,
    pad2: &Vec<char>,
    c1: &ContribBuf,
    c2: &ContribBuf,
    first: bool,
    last: bool,
) -> (r: Vec<char>)
    ensures
        r@ == row_text(pad1@, pad2@, c1@, c2@, first, last),
{
    let a1 = sort_pairs(&c1.attr);
    let a2 = sort_pairs(&c2.attr);
    let mut attrs: Vec<char> = Vec::new();
    push_pairs(&mut attrs, &a1);
    attrs.push('-');
    push_pairs(&mut attrs, &a2);
    assert(attrs@ =~= flat(sort_by_second(c1@.attr)) + seq!['-'] + flat(sort_by_second(c2@.attr)));
    if first {
        return attrs;
    }
    let p1 = sort_pairs(&c1.pre);
    let p2 = sort_pairs(&c2.pre);
    let mut r: Vec<char> = Vec::new();
    r.push('>');
    push_chars(&mut r, pad1);
    push_chars(&mut r, &c1.pad);
    r.push('-');
    push_chars(&mut r, pad2);
    push_chars(&mut r, &c2.pad);
    r.push('<');
    push_pairs(&mut r, &p1);
    r.push('-');
    push_pairs(&mut r, &p2);
    r.push(';');
    let ghost head = seq!['>'] + pad1@ + c1@.pad + seq!['-'] + pad2@ + c2@.pad + seq!['<'] + flat(
        sort_by_second(c1@.pre),
    ) + seq!['-'] + flat(sort_by_second(c2@.pre)) + seq![';'];
    assert(r@ =~= head);
    if !last {
        push_chars(&mut r, &attrs);
    }
    r
}

/// Adds one row, whose cells contribute `c1` and `c2`, to the scan `st`.
fn row_step_exec(
    st: &mut ScanBuf,
    c1: ContribBuf,
    c2: ContribBuf,
    forced: bool,
    first: bool,
    last: bool,
)
    ensures
        final(st)@ == row_step(old(st)@, c1@, c2@, forced, first, last),
{
    let ghost g1 = c1@;
    let ghost g2 = c2@;
    let mut c1 = c1;
    let mut c2 = c2;
    if forced || c1.ok || c2.ok {
        let line = row_text_exec(&st.pad1, &st.pad2, &c1, &c2, first, last);
        push_chars(&mut st.output, &line);
        st.pad1 = c1.pad;
        st.pad2 = c2.pad;
    } else {
        push_pairs(&mut st.pad1, &c1.attr);
        push_chars(&mut st.pad1, &c1.pad);
        push_pairs(&mut st.pad2, &c2.attr);
        push_chars(&mut st.pad2, &c2.pad);
    }
    st.space1.append(&mut c1.space);
    st.space2.append(&mut c2.space);
    proof {
        assert(st.pad1@ =~= row_step(old(st)@, g1, g2, forced, first, last).pad1);
        assert(st.pad2@ =~= row_step(old(st)@, g1, g2, forced, first, last).pad2);
    }
}

fn space_text_exec(tag: char, st: &ScanBuf, before: usize, after: usize) -> (r: Vec<char>)
    ensures
        r@ == space_text(tag, st@, before as nat, after as nat),
{
    let s1 = sort_pairs(&st.space1);
    let s2 = sort_pairs(&st.space2);
    let mut r: Vec<char> = Vec::new();
    r.push(tag);
    r.push(':');
    push_pairs(&mut r, &s1);
    r.push('-');
    push_pairs(&mut r, &s2);
    r.push(':');
    push_chars(&mut r, &st.output);
    r.push(':');
    push_decimal(&mut r, before);
    r.push('-');
    push_decimal(&mut r, after);
    assert(r@ =~= space_text(tag, st@, before as nat, after as nat));
    r
}

fn empty_scan_buf() -> (r: ScanBuf)
    ensures
        r@ == empty_scan(),
{
    let r = ScanBuf {
        output: Vec::new(),
        pad1: Vec::new(),
        pad2: Vec::new(),
        space1: Vec::new(),
        space2: Vec::new(),
    };
    assert(r@ =~= empty_scan());
    r
}

/// The grid of a structure's points and of the segments between them, with
/// the grid lines that real points lie on. Each cell lists its attributes in
/// increasing order, each at most once.
pub struct StrucAttrView {
    pub view: Vec<Vec<Vec<PointAttribute>>>,
    pub real: DataHV<Vec<usize>>,
}

impl StrucAttrView {
    pub open spec fn height(&self) -> int {
        self.view@.len() as int
    }

    pub open spec fn width(&self) -> int {
        if self.view@.len() == 0 {
            0
        } else {
            self.view@[0]@.len() as int
        }
    }

    /// The attributes of the cell in row `y` and column `x`.
    pub open spec fn cell(&self, y: int, x: int) -> Seq<PointAttribute> {
        self.view@[y]@[x]@
    }

    /// The cells of column `x`, top to bottom.
    pub open spec fn column(&self, x: int) -> Seq<Seq<PointAttribute>> {
        Seq::new(self.height() as nat, |y: int| self.cell(y, x))
    }

    /// The cells of row `y`, left to right.
    pub open spec fn row(&self, y: int) -> Seq<Seq<PointAttribute>> {
        Seq::new(self.width() as nat, |x: int| self.cell(y, x))
    }

    /// The grid is a rectangle; where spaces between columns are read over
    /// rows, the real columns lie within the grid and there is a real row;
    /// where spaces between rows are read over columns, the real rows lie
    /// within the grid.
    pub open spec fn well_formed(&self) -> bool {
        &&& forall|y: int| 0 <= y < self.height() ==> (#[trigger] self.view@[y])@.len() == self.width()
        &&& (self.real.h@.len() >= 2 && self.height() > 0) ==> forall|i: int|
            0 <= i < self.real.h@.len() ==> #[trigger] self.real.h@[i] < self.width()
        &&& (self.real.v@.len() >= 2 && self.width() > 0) ==> forall|i: int|
            0 <= i < self.real.v@.len() ==> #[trigger] self.real.v@[i] < self.height()
        &&& (self.real.h@.len() >= 2 && self.height() > 0 ==> self.real.v@.len() > 0)
    }

    /// The text of the space between real columns `i` and `i + 1`.
    pub open spec fn column_space_text(&self, i: int) -> Seq<char> {
        space_text(
            'h',
            scan(
                true,
                self.column(self.real.h@[i] as int),
                self.column(self.real.h@[i + 1] as int),
                self.real.v@[0] as int,
                self.height(),
            ),
            i as nat,
            (self.real.h@.len() - i - 2) as nat,
        )
    }

    /// The text of the space between real rows `i` and `i + 1`.
    pub open spec fn row_space_text(&self, i: int) -> Seq<char> {
        space_text(
            'v',
            scan(
                false,
                self.row(self.real.v@[i] as int),
                self.row(self.real.v@[i + 1] as int),
                0,
                self.width(),
            ),
            i as nat,
            (self.real.v@.len() - i - 2) as nat,
        )
    }

    /// The attribute texts of the spaces between consecutive real columns and
    /// between consecutive real rows.
    pub fn get_space_attrs(&self) -> (r: DataHV<Vec<String>>)
        requires
            self.well_formed(),
        ensures
            r.h@.len() == if self.real.h@.len() == 0 {
                0
            } else {
                self.real.h@.len() - 1
            },
            r.v@.len() == if self.real.v@.len() == 0 {
                0
            } else {
                self.real.v@.len() - 1
            },
            forall|i: int| 0 <= i < r.h@.len() ==> (#[trigger] r.h@[i])@ == self.column_space_text(i),
            forall|i: int| 0 <= i < r.v@.len() ==> (#[trigger] r.v@[i])@ == self.row_space_text(i),
    {
        let height = self.view.len();
        let width = if height == 0 {
            0
        } else {
            self.view[0].len()
        };
        let xl = &self.real.h;
        let yl = &self.real.v;
        let mut h: Vec<String> = Vec::new();
        let mut x: usize = 1;
        while x < xl.len()
            invariant
                self.well_formed(),
                height == self.height(),
                width == self.width(),
                xl == &self.real.h,
                yl == &self.real.v,
                1 <= x,
                xl@.len() > 0 ==> x <= xl@.len(),
                xl@.len() == 0 ==> x == 1,
                h@.len() == x - 1,
                forall|i: int| 0 <= i < h@.len() ==> (#[trigger] h@[i])@ == self.column_space_text(i),
            decreases xl@.len() - x,
        {
            let c1 = xl[x - 1];
            let c2 = xl[x];
            let special = if yl.len() > 0 {
                yl[0]
            } else {
                0
            };
            let ghost l1 = self.column(c1 as int);
            let ghost l2 = self.column(c2 as int);
            let ghost sp = self.real.v@[0] as int;
            let mut st = empty_scan_buf();
            let mut y: usize = 0;
            while y < height
                invariant
                    self.well_formed(),
                    height == self.height(),
                    width == self.width(),
                    height > 0 ==> c1 < width && c2 < width,
                    l1 == self.column(c1 as int),
                    l2 == self.column(c2 as int),
                    height > 0 ==> special == sp,
                    0 <= y <= height,
                    st@ == scan(true, l1, l2, sp, y as int),
                decreases height - y,
            {
                let row = &self.view[y];
                assert(row@.len() == width);
                let cc1 = cell_contrib_exec(&row[c1], true, false);
                let cc2 = cell_contrib_exec(&row[c2], true, true);
                assert(l1[y as int] == row@[c1 as int]@);
                assert(l2[y as int] == row@[c2 as int]@);
                row_step_exec(&mut st, cc1, cc2, y + 1 == height || y == special, y == 0, y + 1 == height);
                y = y + 1;
            }
            let text = space_text_exec('h', &st, x - 1, xl.len() - x - 1);
            let ghost pre = h@;
            h.push(string_of(&text));
            assert forall|i: int| 0 <= i < h@.len() implies (#[trigger] h@[i])@ == self.column_space_text(i) by {
                if i < pre.len() {
                    assert(h@[i] == pre[i]);
                }
            }
            x = x + 1;
        }
        let mut v: Vec<String> = Vec::new();
        let mut y: usize = 1;
        while y < yl.len()
            invariant
                self.well_formed(),
                height == self.height(),
                width == self.width(),
                yl == &self.real.v,
                1 <= y,
                yl@.len() > 0 ==> y <= yl@.len(),
                yl@.len() == 0 ==> y == 1,
                v@.len() == y - 1,
                forall|i: int| 0 <= i < v@.len() ==> (#[trigger] v@[i])@ == self.row_space_text(i),
                h@.len() == if self.real.h@.len() == 0 {
                    0
                } else {
                    self.real.h@.len() - 1
                },
                forall|i: int| 0 <= i < h@.len() ==> (#[trigger] h@[i])@ == self.column_space_text(i),
            decreases yl@.len() - y,
        {
            let r1 = yl[y - 1];
            let r2 = yl[y];
            let ghost l1 = self.row(r1 as int);
            let ghost l2 = self.row(r2 as int);
            let mut st = empty_scan_buf();
            if width > 0 {
            let row1 = &self.view[r1];
            let row2 = &self.view[r2];
            assert(row1@.len() == width && row2@.len() == width);
            let mut x: usize = 0;
            while x < width
                invariant
                    width == self.width(),
                    row1@.len() == width,
                    row2@.len() == width,
                    row1 == self.view@[r1 as int],
                    row2 == self.view@[r2 as int],
                    l1 == self.row(r1 as int),
                    l2 == self.row(r2 as int),
                    0 <= x <= width,
                    st@ == scan(false, l1, l2, 0, x as int),
                decreases width - x,
            {
                let cc1 = cell_contrib_exec(&row1[x], false, false);
                let cc2 = cell_contrib_exec(&row2[x], false, true);
                assert(l1[x as int] == row1@[x as int]@);
                assert(l2[x as int] == row2@[x as int]@);
                row_step_exec(&mut st, cc1, cc2, x + 1 == width || x == 0, x == 0, x + 1 == width);
                x = x + 1;
            }
            }
            assert(st@ == scan(false, l1, l2, 0, width as int));
            let text = space_text_exec('v', &st, y - 1, yl.len() - y - 1);
            let ghost pre = v@;
            v.push(string_of(&text));
            assert forall|i: int| 0 <= i < v@.len() implies (#[trigger] v@[i])@ == self.row_space_text(i) by {
                if i < pre.len() {
                    assert(v@[i] == pre[i]);
                }
            }
            y = y + 1;
        }
        DataHV { h, v }
    }
}

/// `a` comes before `b` in the order of attributes: by front symbol, then
/// point symbol, then next symbol.
pub open spec fn attr_lt(a: Seq<char>, b: Seq<char>) -> bool {
    a[0] < b[0] || (a[0] == b[0] && (a[1] < b[1] || (a[1] == b[1] && a[2] < b[2])))
}

/// The attributes of a cell are in increasing order, each once.
pub open spec fn cell_sorted(cell: Seq<PointAttribute>) -> bool {
    forall|i: int, j: int| 0 <= i < j < cell.len() ==> attr_lt(cell[i]@, cell[j]@)
}

/// The cell holds the attribute `a`.
pub open spec fn cell_has(cell: Seq<PointAttribute>, a: Seq<char>) -> bool {
    exists|k: int| 0 <= k < cell.len() && #[trigger] cell[k]@ == a
}

/// `view` is a grid of `h` rows of `w` sorted cells, and cell `(y, x)` holds
/// `a` exactly where `(y, x, a)` is one of `marks`.
pub open spec fn grid_holds(
    view: Seq<Vec<Vec<PointAttribute>>>,
    h: int,
    w: int,
    marks: Set<(int, int, Seq<char>)>,
) -> bool {
    &&& view.len() == h
    &&& forall|y: int| 0 <= y < h ==> (#[trigger] view[y])@.len() == w
    &&& forall|y: int, x: int| 0 <= y < h && 0 <= x < w ==> cell_sorted(#[trigger] view[y]@[x]@)
    &&& forall|y: int, x: int, a: Seq<char>|
        #![trigger cell_has(view[y]@[x]@, a)]
        #![trigger marks.contains((y, x, a))]
        0 <= y < h && 0 <= x < w ==> (cell_has(view[y]@[x]@, a) <==> marks.contains((y, x, a)))
    &&& forall|m: (int, int, Seq<char>)| #[trigger] marks.contains(m) ==> 0 <= m.0 < h && 0 <= m.1 < w
}

fn attr_less(a: &PointAttribute, b: &PointAttribute) -> (r: bool)
    ensures
        r == attr_lt(a@, b@),
{
    let (a0, a1, a2) = (a.front_connect(), a.this_point(), a.next_connect());
    let (b0, b1, b2) = (b.front_connect(), b.this_point(), b.next_connect());
    a0 < b0 || (a0 == b0 && (a1 < b1 || (a1 == b1 && a2 < b2)))
}

fn attr_same(a: &PointAttribute, b: &PointAttribute) -> (r: bool)
    ensures
        r == (a@ == b@),
{
    proof {
        a.lemma_view_len();
        b.lemma_view_len();
    }
    let r = a.front_connect() == b.front_connect() && a.this_point() == b.this_point()
        && a.next_connect() == b.next_connect();
    proof {
        if r {
            assert(a@ =~= b@);
        }
    }
    r
}

/// Two different attributes are ordered one way or the other.
pub proof fn lemma_attr_total(a: Seq<char>, b: Seq<char>)
    requires
        a.len() == 3,
        b.len() == 3,
    ensures
        attr_lt(a, b) || attr_lt(b, a) || a == b,
{
    if a[0] == b[0] && a[1] == b[1] && a[2] == b[2] {
        assert(a =~= b);
    }
}

/// Adds `pa` to the sorted cell, unless it is there already.
fn cell_insert(cell: &mut Vec<PointAttribute>, pa: PointAttribute)
    requires
        cell_sorted(old(cell)@),
    ensures
        cell_sorted(final(cell)@),
        forall|a: Seq<char>| cell_has(final(cell)@, a) <==> (cell_has(old(cell)@, a) || a == pa@),
{
    proof {
        pa.lemma_view_len();
    }
    let ghost pre = cell@;
    assert(pre == old(cell)@);
    let n = cell.len();
    let mut p: usize = 0;
    let mut go = p < n && attr_less(&cell[p], &pa);
    while go
        invariant
            n == cell@.len(),
            0 <= p <= n,
            cell@ == pre,
            cell_sorted(cell@),
            go == (p < cell@.len() && attr_lt(cell@[p as int]@, pa@)),
            forall|q: int| 0 <= q < p ==> attr_lt(cell@[q]@, pa@),
        decreases cell@.len() - p,
    {
        p = p + 1;
        go = p < n && attr_less(&cell[p], &pa);
    }
    if p < cell.len() && attr_same(&cell[p], &pa) {
        assert forall|a: Seq<char>| cell_has(cell@, a) <==> (cell_has(pre, a) || a == pa@) by {
            if a == pa@ {
                assert(cell@[p as int]@ == a);
            }
        }
        return;
    }
    proof {
        assert forall|q: int| p <= q < pre.len() implies attr_lt(pa@, #[trigger] pre[q]@) by {
            pre[p as int].lemma_view_len();
            lemma_attr_total(pre[p as int]@, pa@);
            assert(attr_lt(pa@, pre[p as int]@));
            if q > p {
                assert(attr_lt(pre[p as int]@, pre[q]@));
            }
        }
    }
    cell.insert(p, pa);
    assert forall|i: int, j: int| 0 <= i < j < cell@.len() implies attr_lt(cell@[i]@, cell@[j]@) by {
        if j < p {
            assert(cell@[i] == pre[i] && cell@[j] == pre[j]);
        } else if j == p {
            assert(cell@[i] == pre[i]);
        } else if i < p {
            assert(cell@[i] == pre[i] && cell@[j] == pre[j - 1]);
            assert(attr_lt(pre[i]@, pa@));
            assert(attr_lt(pa@, pre[j - 1]@));
        } else if i == p {
            assert(cell@[j] == pre[j - 1]);
        } else {
            assert(cell@[i] == pre[i - 1] && cell@[j] == pre[j - 1]);
        }
    }
    assert forall|a: Seq<char>| cell_has(cell@, a) <==> (cell_has(pre, a) || a == pa@) by {
        if cell_has(cell@, a) {
            let k = choose|k: int| 0 <= k < cell@.len() && #[trigger] cell@[k]@ == a;
            if k < p {
                assert(pre[k]@ == a);
            } else if k > p {
                assert(pre[k - 1]@ == a);
            }
        }
        if cell_has(pre, a) {
            let k = choose|k: int| 0 <= k < pre.len() && #[trigger] pre[k]@ == a;
            if k < p {
                assert(cell@[k]@ == a);
            } else {
                assert(cell@[k + 1]@ == a);
            }
        }
        if a == pa@ {
            assert(cell@[p as int]@ == a);
        }
    }
    assert(forall|a: Seq<char>| cell_has(cell@, a) <==> (cell_has(old(cell)@, a) || a == pa@));
}

/// Adds `pa` to the cell in row `y` and column `x`.
fn grid_insert(
    view: &mut Vec<Vec<Vec<PointAttribute>>>,
    y: usize,
    x: usize,
    pa: PointAttribute,
    Ghost(h): Ghost<int>,
    Ghost(w): Ghost<int>,
    Ghost(marks): Ghost<Set<(int, int, Seq<char>)>>,
)
    requires
        grid_holds(old(view)@, h, w, marks),
        y < h,
        x < w,
    ensures
        grid_holds(final(view)@, h, w, marks.insert((y as int, x as int, pa@))),
{
    let ghost pre = view@;
    let mut row: Vec<Vec<PointAttribute>> = Vec::new();
    view.set_and_swap(y, &mut row);
    assert(row@ == pre[y as int]@);
    let mut cell: Vec<PointAttribute> = Vec::new();
    row.set_and_swap(x, &mut cell);
    assert(cell@ == pre[y as int]@[x as int]@);
    cell_insert(&mut cell, pa);
    let ghost new_cell = cell@;
    row.set_and_swap(x, &mut cell);
    view.set_and_swap(y, &mut row);
    let ghost nm = marks.insert((y as int, x as int, pa@));
    assert(view@[y as int]@[x as int]@ == new_cell);
    assert forall|y2: int| 0 <= y2 < h implies (#[trigger] view@[y2])@.len() == w by {
        if y2 != y {
            assert(view@[y2] == pre[y2]);
        }
    }
    assert forall|y2: int, x2: int| 0 <= y2 < h && 0 <= x2 < w implies cell_sorted(
        #[trigger] view@[y2]@[x2]@,
    ) by {
        if y2 != y {
            assert(view@[y2] == pre[y2]);
        } else if x2 != x {
            assert(view@[y2]@[x2] == pre[y2]@[x2]);
        }
    }
    assert forall|y2: int, x2: int, a: Seq<char>|
        #![trigger cell_has(view@[y2]@[x2]@, a)]
        #![trigger nm.contains((y2, x2, a))]
        0 <= y2 < h && 0 <= x2 < w implies (cell_has(view@[y2]@[x2]@, a) <==> nm.contains(
            (y2, x2, a),
        )) by {
        if y2 != y {
            assert(view@[y2] == pre[y2]);
            assert(marks.contains((y2, x2, a)) == cell_has(pre[y2]@[x2]@, a));
        } else if x2 != x {
            assert(view@[y2]@[x2] == pre[y2]@[x2]);
            assert(marks.contains((y2, x2, a)) == cell_has(pre[y2]@[x2]@, a));
        } else {
            assert(marks.contains((y2, x2, a)) == cell_has(pre[y2]@[x2]@, a));
        }
    }
}

/// Adds `pa` to the cells of row `y` from column `lo` up to, not including, `hi`.
fn fill_row(
    view: &mut Vec<Vec<Vec<PointAttribute>>>,
    y: usize,
    lo: usize,
    hi: usize,
    pa: PointAttribute,
    Ghost(h): Ghost<int>,
    Ghost(w): Ghost<int>,
    Ghost(marks): Ghost<Set<(int, int, Seq<char>)>>,
)
    requires
        grid_holds(old(view)@, h, w, marks),
        y < h,
        hi <= w,
    ensures
        grid_holds(
            final(view)@,
            h,
            w,
            marks.union(Set::new(|m: (int, int, Seq<char>)| m.0 == y && lo <= m.1 < hi && m.2 == pa@)),
        ),
{
    let mut x = lo;
    let ghost mut cur = marks;
    while x < hi
        invariant
            y < h,
            hi <= w,
            lo <= x,
            x <= hi || x == lo,
            grid_holds(view@, h, w, cur),
            cur == marks.union(
                Set::new(|m: (int, int, Seq<char>)| m.0 == y && lo <= m.1 < x && m.2 == pa@),
            ),
        decreases hi - x,
    {
        grid_insert(view, y, x, pa, Ghost(h), Ghost(w), Ghost(cur));
        proof {
            let next = marks.union(
                Set::new(|m: (int, int, Seq<char>)| m.0 == y && lo <= m.1 < x + 1 && m.2 == pa@),
            );
            assert(cur.insert((y as int, x as int, pa@)) =~= next);
            cur = next;
        }
        x = x + 1;
    }
    proof {
        let fin = marks.union(
            Set::new(|m: (int, int, Seq<char>)| m.0 == y && lo <= m.1 < hi && m.2 == pa@),
        );
        assert(cur =~= fin);
    }
}

/// Adds `pa` to the cells of column `x` from row `lo` up to, not including, `hi`.
fn fill_column(
    view: &mut Vec<Vec<Vec<PointAttribute>>>,
    x: usize,
    lo: usize,
    hi: usize,
    pa: PointAttribute,
    Ghost(h): Ghost<int>,
    Ghost(w): Ghost<int>,
    Ghost(marks): Ghost<Set<(int, int, Seq<char>)>>,
)
    requires
        grid_holds(old(view)@, h, w, marks),
        x < w,
        hi <= h,
    ensures
        grid_holds(
            final(view)@,
            h,
            w,
            marks.union(Set::new(|m: (int, int, Seq<char>)| m.1 == x && lo <= m.0 < hi && m.2 == pa@)),
        ),
{
    let mut y = lo;
    let ghost mut cur = marks;
    while y < hi
        invariant
            x < w,
            hi <= h,
            lo <= y,
            y <= hi || y == lo,
            grid_holds(view@, h, w, cur),
            cur == marks.union(
                Set::new(|m: (int, int, Seq<char>)| m.1 == x && lo <= m.0 < y && m.2 == pa@),
            ),
        decreases hi - y,
    {
        grid_insert(view, y, x, pa, Ghost(h), Ghost(w), Ghost(cur));
        proof {
            let next = marks.union(
                Set::new(|m: (int, int, Seq<char>)| m.1 == x && lo <= m.0 < y + 1 && m.2 == pa@),
            );
            assert(cur.insert((y as int, x as int, pa@)) =~= next);
            cur = next;
        }
        y = y + 1;
    }
    proof {
        let fin = marks.union(
            Set::new(|m: (int, int, Seq<char>)| m.1 == x && lo <= m.0 < hi && m.2 == pa@),
        );
        assert(cur =~= fin);
    }
}

/// The points of `s` that are not markers, in order.
pub open spec fn not_marks(s: Seq<KeyPoint>) -> Seq<KeyPoint>
    decreases s.len(),
{
    if s.len() == 0 {
        s
    } else if s.last().p_type == KeyPointType::Mark {
        not_marks(s.drop_last())
    } else {
        not_marks(s.drop_last()).push(s.last())
    }
}

/// Each point that is kept is a point of `s` and no marker.
pub proof fn lemma_not_marks(s: Seq<KeyPoint>)
    ensures
        forall|k: int|
            0 <= k < not_marks(s).len() ==> s.contains(#[trigger] not_marks(s)[k])
                && not_marks(s)[k].p_type != KeyPointType::Mark,
    decreases s.len(),
{
    if s.len() > 0 {
        let t = s.drop_last();
        lemma_not_marks(t);
        assert forall|k: int|
            0 <= k < not_marks(s).len() implies s.contains(#[trigger] not_marks(s)[k])
                && not_marks(s)[k].p_type != KeyPointType::Mark by {
            if k < not_marks(t).len() {
                assert(not_marks(s)[k] == not_marks(t)[k]);
                let j = choose|j: int| 0 <= j < t.len() && t[j] == not_marks(t)[k];
                assert(s[j] == t[j]);
            } else {
                assert(not_marks(s)[k] == s.last());
                assert(s[s.len() - 1] == s.last());
            }
        }
    }
}

/// The point before the `k`-th of `f`, if any.
pub open spec fn before_of(f: Seq<KeyPoint>, k: int) -> Option<KeyPoint> {
    if k > 0 {
        Some(f[k - 1])
    } else {
        None
    }
}

/// The point after the `k`-th of `f`, if any.
pub open spec fn after_of(f: Seq<KeyPoint>, k: int) -> Option<KeyPoint> {
    if k + 1 < f.len() {
        Some(f[k + 1])
    } else {
        None
    }
}

/// The attribute of the `k`-th point of `f` between its neighbours.
pub open spec fn point_attr(f: Seq<KeyPoint>, k: int) -> Seq<char> {
    seq![
        spec_symbol_of_connect(Some(f[k]), before_of(f, k)),
        spec_symbol_of_type(Some(f[k].p_type)),
        spec_symbol_of_connect(Some(f[k]), after_of(f, k)),
    ]
}

/// The place of `v` in the list of grid lines `list`.
pub open spec fn line_index(list: Seq<usize>, v: usize) -> int {
    choose|k: int| 0 <= k < list.len() && list[k] == v
}

/// The column and row of the cell of `kp` among the grid lines `mh` and `mv`.
pub open spec fn grid_pos(mh: Seq<usize>, mv: Seq<usize>, kp: KeyPoint) -> (int, int) {
    (line_index(mh, kp.point.x), line_index(mv, kp.point.y))
}

/// A connection along a grid line (or none): its segment is padded by a line.
pub open spec fn is_line_connect(c: char) -> bool {
    c == '2' || c == '8' || c == '6' || c == '4' || c == '0'
}

/// A diagonal connection: its segment is padded by a box.
pub open spec fn is_box_connect(c: char) -> bool {
    c == '1' || c == '3' || c == '9' || c == '7'
}

/// The symbol of the padding along a connection: `v` for vertical, `h` for
/// horizontal, `0` for none.
pub open spec fn line_pad_symbol(c: char) -> char {
    if c == '2' || c == '8' {
        'v'
    } else if c == '6' || c == '4' {
        'h'
    } else {
        '0'
    }
}

/// `m` (row, column, attribute) is padding of the segment from the cell `p`
/// to the cell `q` (column, row) that starts at a point with attribute `pa`:
/// the cells strictly between them along a straight segment; for a diagonal
/// one, the sides of the box they span, each side leaving out one corner.
pub open spec fn pad_mark(pa: Seq<char>, p: (int, int), q: (int, int), m: (int, int, Seq<char>)) -> bool {
    let x1 = if p.0 <= q.0 {
        p.0
    } else {
        q.0
    };
    let x2 = if p.0 <= q.0 {
        q.0
    } else {
        p.0
    };
    let y1 = if p.1 <= q.1 {
        p.1
    } else {
        q.1
    };
    let y2 = if p.1 <= q.1 {
        q.1
    } else {
        p.1
    };
    let t = pa[1];
    let c = pa[2];
    if is_line_connect(c) {
        let sym = line_pad_symbol(c);
        m.2 == seq![sym, t, sym] && if x1 == x2 {
            m.1 == x1 && y1 < m.0 < y2
        } else if y1 == y2 {
            m.0 == y1 && x1 < m.1 < x2
        } else {
            false
        }
    } else if is_box_connect(c) {
        let o1: int = if (x1 == p.0 && y1 == p.1) || (x1 == q.0 && y1 == q.1) {
            1
        } else {
            0
        };
        let o2: int = 1 - o1;
        ||| m.2 == seq!['t', t, 't'] && m.0 == y1 && x1 + o1 <= m.1 <= x2 - o2
        ||| m.2 == seq!['l', t, 'l'] && m.1 == x1 && y1 + o1 <= m.0 <= y2 - o2
        ||| m.2 == seq!['b', t, 'b'] && m.0 == y2 && x1 + o2 <= m.1 <= x2 - o1
        ||| m.2 == seq!['r', t, 'r'] && m.1 == x2 && y1 + o2 <= m.0 <= y2 - o1
    } else {
        false
    }
}

/// Pads the segment from the cell `p` to the cell `q` that starts at a point
/// with attribute `pa`.
fn pad_segment(
    view: &mut Vec<Vec<Vec<PointAttribute>>>,
    pa: &PointAttribute,
    p: (usize, usize),
    q: (usize, usize),
    Ghost(h): Ghost<int>,
    Ghost(w): Ghost<int>,
    Ghost(marks): Ghost<Set<(int, int, Seq<char>)>>,
)
    requires
        grid_holds(old(view)@, h, w, marks),
        h <= usize::MAX,
        w <= usize::MAX,
        p.0 < w,
        q.0 < w,
        p.1 < h,
        q.1 < h,
        is_line_connect(pa@[2]) || is_box_connect(pa@[2]),
    ensures
        grid_holds(
            final(view)@,
            h,
            w,
            marks.union(
                Set::new(
                    |m: (int, int, Seq<char>)|
                        pad_mark(pa@, (p.0 as int, p.1 as int), (q.0 as int, q.1 as int), m),
                ),
            ),
        ),
{
    let x1 = if p.0 <= q.0 {
        p.0
    } else {
        q.0
    };
    let x2 = if p.0 <= q.0 {
        q.0
    } else {
        p.0
    };
    let y1 = if p.1 <= q.1 {
        p.1
    } else {
        q.1
    };
    let y2 = if p.1 <= q.1 {
        q.1
    } else {
        p.1
    };
    let ghost pp = (p.0 as int, p.1 as int);
    let ghost qq = (q.0 as int, q.1 as int);
    let ghost target = marks.union(
        Set::new(|m: (int, int, Seq<char>)| pad_mark(pa@, pp, qq, m)),
    );
    let ghost t = pa@[1];
    match pa.padding_next() {
        PaddingPointAttr::Line(pad) => {
            if x1 == x2 {
                fill_column(view, x1, y1 + 1, y2, pad, Ghost(h), Ghost(w), Ghost(marks));
                proof {
                    let got = marks.union(
                        Set::new(
                            |m: (int, int, Seq<char>)| m.1 == x1 && y1 + 1 <= m.0 < y2 && m.2 == pad@,
                        ),
                    );
                    assert(got =~= target);
                }
            } else if y1 == y2 {
                fill_row(view, y1, x1 + 1, x2, pad, Ghost(h), Ghost(w), Ghost(marks));
                proof {
                    let got = marks.union(
                        Set::new(
                            |m: (int, int, Seq<char>)| m.0 == y1 && x1 + 1 <= m.1 < x2 && m.2 == pad@,
                        ),
                    );
                    assert(got =~= target);
                }
            } else {
                proof {
                    assert(marks =~= target);
                }
            }
        },
        PaddingPointAttr::Box(b) => {
            let o1: usize = if (x1 == p.0 && y1 == p.1) || (x1 == q.0 && y1 == q.1) {
                1
            } else {
                0
            };
            let o2: usize = 1 - o1;
            let ghost s0 = marks;
            fill_row(view, y1, x1 + o1, x2 + 1 - o2, b[0], Ghost(h), Ghost(w), Ghost(s0));
            let ghost s1 = s0.union(
                Set::new(
                    |m: (int, int, Seq<char>)| m.0 == y1 && x1 + o1 <= m.1 < x2 + 1 - o2 && m.2 == b[0]@,
                ),
            );
            fill_column(view, x1, y1 + o1, y2 + 1 - o2, b[2], Ghost(h), Ghost(w), Ghost(s1));
            let ghost s2 = s1.union(
                Set::new(
                    |m: (int, int, Seq<char>)| m.1 == x1 && y1 + o1 <= m.0 < y2 + 1 - o2 && m.2 == b[2]@,
                ),
            );
            fill_row(view, y2, x1 + o2, x2 + 1 - o1, b[1], Ghost(h), Ghost(w), Ghost(s2));
            let ghost s3 = s2.union(
                Set::new(
                    |m: (int, int, Seq<char>)| m.0 == y2 && x1 + o2 <= m.1 < x2 + 1 - o1 && m.2 == b[1]@,
                ),
            );
            fill_column(view, x2, y1 + o2, y2 + 1 - o1, b[3], Ghost(h), Ghost(w), Ghost(s3));
            proof {
                let s4 = s3.union(
                    Set::new(
                        |m: (int, int, Seq<char>)|
                            m.1 == x2 && y1 + o2 <= m.0 < y2 + 1 - o1 && m.2 == b[3]@,
                    ),
                );
                assert(s4 =~= target);
            }
        },
    }
}

/// The points of path `i` that a grid takes: all of them, or those that are
/// not markers.
pub open spec fn kept_points(st: Struc, i: int, all: bool) -> Seq<KeyPoint> {
    if all {
        st.key_paths@[i].points@
    } else {
        not_marks(st.key_paths@[i].points@)
    }
}

/// The cell (column, row) of `kp`: its own coordinates, or its places among
/// the grid lines `mh` and `mv`.
pub open spec fn cell_pos(mh: Seq<usize>, mv: Seq<usize>, all: bool, kp: KeyPoint) -> (int, int) {
    if all {
        (kp.point.x as int, kp.point.y as int)
    } else {
        grid_pos(mh, mv, kp)
    }
}

/// `m` is put into the grid by the `k`-th kept point of path `i` of `st`: its
/// attribute in its own cell, and the padding of the segment to the next kept
/// point.
pub open spec fn step_mark(
    st: Struc,
    mh: Seq<usize>,
    mv: Seq<usize>,
    all: bool,
    i: int,
    k: int,
    m: (int, int, Seq<char>),
) -> bool {
    let f = kept_points(st, i, all);
    let pos = cell_pos(mh, mv, all, f[k]);
    &&& 0 <= i < st.key_paths@.len()
    &&& 0 <= k < f.len()
    &&& (m == (pos.1, pos.0, point_attr(f, k)) || (k + 1 < f.len() && pad_mark(
        point_attr(f, k),
        pos,
        cell_pos(mh, mv, all, f[k + 1]),
        m,
    )))
}

/// What the kept points before the `k`-th of path `i` put into the grid.
pub open spec fn marks_before(
    st: Struc,
    mh: Seq<usize>,
    mv: Seq<usize>,
    all: bool,
    i: int,
    k: int,
) -> Set<
    (int, int, Seq<char>),
> {
    Set::new(
        |m: (int, int, Seq<char>)|
            exists|i2: int, k2: int|
                (i2 < i || (i2 == i && k2 < k)) && #[trigger] step_mark(st, mh, mv, all, i2, k2, m),
    )
}

/// The sorted coordinates along `axis` of the points of `st` that are not markers.
pub open spec fn not_mark_lines(st: Struc, axis: Axis) -> Seq<usize> {
    choose|m: Seq<usize>| st.lists_values(m, axis, ValueMode::NotMark)
}

/// Every coordinate of `st` is below the limit up to which directions are classified.
pub open spec fn coords_in_limit(st: Struc) -> bool {
    forall|i: int, j: int|
        #![trigger st.point_of(i, j)]
        st.valid_index(i, j) ==> st.point_of(i, j).point.x < COORD_LIMIT && st.point_of(
            i,
            j,
        ).point.y < COORD_LIMIT
}

/// `r` lists, in increasing order, the places in `lines` of the grid lines that
/// real points of `st` lie on along `axis`.
pub open spec fn real_places(st: Struc, lines: Seq<usize>, axis: Axis, r: Seq<usize>) -> bool {
    &&& strictly_increasing(r)
    &&& forall|k: usize|
        r.contains(k) <==> (k < lines.len() && st.has_coord(axis, ValueMode::Real, lines[k as int]))
}

/// The marks after the `k`-th point are those before it and its own.
pub proof fn lemma_marks_step(st: Struc, mh: Seq<usize>, mv: Seq<usize>, all: bool, i: int, k: int)
    ensures
        marks_before(st, mh, mv, all, i, k + 1) == marks_before(st, mh, mv, all, i, k).union(
            Set::new(|m: (int, int, Seq<char>)| step_mark(st, mh, mv, all, i, k, m)),
        ),
{
    let a = marks_before(st, mh, mv, all, i, k + 1);
    let b = marks_before(st, mh, mv, all, i, k).union(
        Set::new(|m: (int, int, Seq<char>)| step_mark(st, mh, mv, all, i, k, m)),
    );
    assert forall|m: (int, int, Seq<char>)| a.contains(m) <==> b.contains(m) by {
        if a.contains(m) {
            let (i2, k2) = choose|i2: int, k2: int|
                (i2 < i || (i2 == i && k2 < k + 1)) && #[trigger] step_mark(st, mh, mv, all, i2, k2, m);
            if !(i2 == i && k2 == k) {
                assert(marks_before(st, mh, mv, all, i, k).contains(m));
            }
        }
        if marks_before(st, mh, mv, all, i, k).contains(m) {
            let (i2, k2) = choose|i2: int, k2: int|
                (i2 < i || (i2 == i && k2 < k)) && #[trigger] step_mark(st, mh, mv, all, i2, k2, m);
            assert(a.contains(m));
        }
        if step_mark(st, mh, mv, all, i, k, m) {
            assert(a.contains(m));
        }
    }
    assert(a =~= b);
}

/// Past the last point of a path, the marks are those before the next path.
pub proof fn lemma_marks_next_path(st: Struc, mh: Seq<usize>, mv: Seq<usize>, all: bool, i: int)
    requires
        0 <= i < st.key_paths@.len(),
    ensures
        marks_before(st, mh, mv, all, i + 1, 0) == marks_before(
            st,
            mh,
            mv,
            all,
            i,
            kept_points(st, i, all).len() as int,
        ),
{
    let n = kept_points(st, i, all).len() as int;
    let a = marks_before(st, mh, mv, all, i + 1, 0);
    let b = marks_before(st, mh, mv, all, i, n);
    assert forall|m: (int, int, Seq<char>)| a.contains(m) <==> b.contains(m) by {
        if a.contains(m) {
            let (i2, k2) = choose|i2: int, k2: int|
                (i2 < i + 1 || (i2 == i + 1 && k2 < 0)) && #[trigger] step_mark(
                    st,
                    mh,
                    mv,
                    all,
                    i2,
                    k2,
                    m,
                );
            assert(b.contains(m));
        }
        if b.contains(m) {
            let (i2, k2) = choose|i2: int, k2: int|
                (i2 < i || (i2 == i && k2 < n)) && #[trigger] step_mark(st, mh, mv, all, i2, k2, m);
            assert(a.contains(m));
        }
    }
    assert(a =~= b);
}

/// The place of `v` in the sorted list of grid lines `list`, which holds it.
pub(crate) fn line_position(list: &Vec<usize>, v: usize) -> (r: usize)
    requires
        strictly_increasing(list@),
        list@.contains(v),
    ensures
        r < list@.len(),
        list@[r as int] == v,
        r == line_index(list@, v),
{
    let p = sorted_position(list, v);
    match p {
        Some(r) => {
            proof {
                let c = line_index(list@, v);
                assert(list@[r as int] == v);
                assert(0 <= c < list@.len() && list@[c] == v);
                if c < r {
                    assert(list@[c] < list@[r as int]);
                } else if c > r {
                    assert(list@[r as int] < list@[c]);
                }
            }
            r
        },
        None => {
            proof {
                assert(false);
            }
            0
        },
    }
}

/// The points of `s` that are not markers.
fn not_marks_exec(s: &Vec<KeyPoint>) -> (r: Vec<KeyPoint>)
    ensures
        r@ == not_marks(s@),
{
    let mut r: Vec<KeyPoint> = Vec::new();
    let mut i: usize = 0;
    while i < s.len()
        invariant
            0 <= i <= s@.len(),
            r@ == not_marks(s@.take(i as int)),
        decreases s@.len() - i,
    {
        proof {
            assert(s@.take(i + 1).drop_last() =~= s@.take(i as int));
        }
        if s[i].p_type != KeyPointType::Mark {
            r.push(s[i]);
        }
        i = i + 1;
    }
    proof {
        assert(s@.take(i as int) =~= s@);
    }
    r
}

/// A grid of `h` rows of `w` empty cells.
fn empty_grid(h: usize, w: usize) -> (r: Vec<Vec<Vec<PointAttribute>>>)
    ensures
        grid_holds(r@, h as int, w as int, Set::empty()),
{
    let mut r: Vec<Vec<Vec<PointAttribute>>> = Vec::new();
    let mut y: usize = 0;
    while y < h
        invariant
            0 <= y <= h,
            r@.len() == y,
            forall|y2: int| 0 <= y2 < y ==> (#[trigger] r@[y2])@.len() == w,
            forall|y2: int, x2: int| 0 <= y2 < y && 0 <= x2 < w ==> (#[trigger] r@[y2]@[x2])@.len() == 0,
        decreases h - y,
    {
        let mut row: Vec<Vec<PointAttribute>> = Vec::new();
        let mut x: usize = 0;
        while x < w
            invariant
                0 <= x <= w,
                row@.len() == x,
                forall|x2: int| 0 <= x2 < x ==> (#[trigger] row@[x2])@.len() == 0,
            decreases w - x,
        {
            row.push(Vec::new());
            x = x + 1;
        }
        let ghost pre = r@;
        r.push(row);
        assert forall|y2: int, x2: int| 0 <= y2 < y + 1 && 0 <= x2 < w implies (#[trigger] r@[y2]@[x2])@.len() == 0 by {
            if y2 < y {
                assert(r@[y2] == pre[y2]);
            }
        }
        assert forall|y2: int| 0 <= y2 < y + 1 implies (#[trigger] r@[y2])@.len() == w by {
            if y2 < y {
                assert(r@[y2] == pre[y2]);
            }
        }
        y = y + 1;
    }
    assert forall|y2: int, x2: int, a: Seq<char>|
        0 <= y2 < h && 0 <= x2 < w implies !cell_has(r@[y2]@[x2]@, a) by {
        assert(r@[y2]@[x2]@.len() == 0);
    }
    r
}

/// The places in `lines` of the grid lines that appear in `reals`, in increasing order.
fn places_of_reals(lines: &Vec<usize>, reals: &Vec<usize>) -> (r: Vec<usize>)
    requires
        strictly_increasing(reals@),
    ensures
        strictly_increasing(r@),
        forall|k: usize| r@.contains(k) <==> (k < lines@.len() && reals@.contains(lines@[k as int])),
{
    let mut r: Vec<usize> = Vec::new();
    let n = lines.len();
    let mut k: usize = 0;
    while k < n
        invariant
            n == lines@.len(),
            0 <= k <= n,
            strictly_increasing(reals@),
            strictly_increasing(r@),
            forall|q: int| 0 <= q < r@.len() ==> r@[q] < k,
            forall|q: usize| r@.contains(q) <==> (q < k && reals@.contains(lines@[q as int])),
        decreases n - k,
    {
        let found = sorted_position(reals, lines[k]);
        let ghost pre = r@;
        let ghost hit = reals@.contains(lines@[k as int]);
        match found {
            Some(p) => {
                assert(reals@[p as int] == lines@[k as int]);
                r.push(k);
                assert(r@[pre.len() as int] == k);
            },
            None => {},
        }
        assert(forall|q: usize| pre.contains(q) <==> (q < k && reals@.contains(lines@[q as int])));
        assert forall|q: usize| r@.contains(q) <==> (q < k + 1 && reals@.contains(lines@[q as int])) by {
            if q < k {
                if r@.contains(q) {
                    let t = choose|t: int| 0 <= t < r@.len() && r@[t] == q;
                    if t < pre.len() {
                        assert(pre[t] == q);
                        assert(pre.contains(q));
                    }
                }
                if reals@.contains(lines@[q as int]) {
                    assert(pre.contains(q));
                    let t = choose|t: int| 0 <= t < pre.len() && pre[t] == q;
                    assert(r@[t] == q);
                }
            } else if q == k {
                if hit {
                    assert(r@[pre.len() as int] == k);
                } else {
                    if r@.contains(q) {
                        let t = choose|t: int| 0 <= t < r@.len() && r@[t] == q;
                        assert(pre[t] < k);
                    }
                }
            } else {
                if r@.contains(q) {
                    let t = choose|t: int| 0 <= t < r@.len() && r@[t] == q;
                    if t < pre.len() {
                        assert(pre[t] < k);
                    }
                }
            }
        }
        k = k + 1;
    }
    r
}

/// A point of path `i` that is not a marker lies within the classified range
/// and on grid lines of points that are not markers.
pub proof fn lemma_kept_point(st: Struc, i: int, k: int)
    requires
        coords_in_limit(st),
        0 <= i < st.key_paths@.len(),
        0 <= k < not_marks(st.key_paths@[i].points@).len(),
    ensures
        in_coord_limit(Some(not_marks(st.key_paths@[i].points@)[k])),
        st.has_coord(
            Axis::Horizontal,
            ValueMode::NotMark,
            not_marks(st.key_paths@[i].points@)[k].point.x,
        ),
        st.has_coord(
            Axis::Vertical,
            ValueMode::NotMark,
            not_marks(st.key_paths@[i].points@)[k].point.y,
        ),
{
    let pts = st.key_paths@[i].points@;
    lemma_not_marks(pts);
    let kp = not_marks(pts)[k];
    assert(pts.contains(kp));
    let j = choose|j: int| 0 <= j < pts.len() && pts[j] == kp;
    assert(st.valid_index(i, j));
    assert(st.point_of(i, j) == kp);
    assert(coord(st.point_of(i, j).point, Axis::Horizontal) == kp.point.x);
    assert(coord(st.point_of(i, j).point, Axis::Vertical) == kp.point.y);
}

impl StrucAttrView {
    /// Builds the grid of `struc` over the grid lines of its points that are
    /// not markers: each such point puts its attribute into its cell, and the
    /// segment to the next such point of its path puts padding into the cells
    /// it crosses; `real` gets the places of the grid lines that real points
    /// lie on. Never fails.
    pub fn new(struc: &Struc) -> (r: Result<Self, Error>)
        requires
            coords_in_limit(*struc),
        ensures
            r matches Ok(v) && is_attr_view(*struc, v),
            struc.lists_values(not_mark_lines(*struc, Axis::Horizontal), Axis::Horizontal, ValueMode::NotMark),
            struc.lists_values(not_mark_lines(*struc, Axis::Vertical), Axis::Vertical, ValueMode::NotMark),
    {
        let maps = struc.maps_to_not_mark_pos();
        let ghost mh = maps.h@;
        let ghost mv = maps.v@;
        let ghost st = *struc;
        proof {
            let ch = not_mark_lines(st, Axis::Horizontal);
            let cv = not_mark_lines(st, Axis::Vertical);
            assert(st.lists_values(ch, Axis::Horizontal, ValueMode::NotMark));
            assert(st.lists_values(cv, Axis::Vertical, ValueMode::NotMark));
            lemma_sorted_unique(ch, mh);
            lemma_sorted_unique(cv, mv);
        }
        let w = maps.h.len();
        let hgt = maps.v.len();
        let mut view = empty_grid(hgt, w);
        proof {
            assert(marks_before(st, mh, mv, false, 0, 0) =~= Set::<(int, int, Seq<char>)>::empty());
        }
        let n = struc.key_paths.len();
        let mut i: usize = 0;
        while i < n
            invariant
                st == *struc,
                coords_in_limit(st),
                n == st.key_paths@.len(),
                mh == maps.h@,
                mv == maps.v@,
                st.lists_values(mh, Axis::Horizontal, ValueMode::NotMark),
                st.lists_values(mv, Axis::Vertical, ValueMode::NotMark),
                w == mh.len(),
                hgt == mv.len(),
                0 <= i <= n,
                grid_holds(view@, hgt as int, w as int, marks_before(st, mh, mv, false, i as int, 0)),
            decreases n - i,
        {
            let f = not_marks_exec(&struc.key_paths[i].points);
            let m = f.len();
            let mut k: usize = 0;
            while k < m
                invariant
                    st == *struc,
                    coords_in_limit(st),
                    n == st.key_paths@.len(),
                    0 <= i < n,
                    f@ == not_marks(st.key_paths@[i as int].points@),
                    m == f@.len(),
                    mh == maps.h@,
                    mv == maps.v@,
                    st.lists_values(mh, Axis::Horizontal, ValueMode::NotMark),
                    st.lists_values(mv, Axis::Vertical, ValueMode::NotMark),
                    w == mh.len(),
                    hgt == mv.len(),
                    0 <= k <= m,
                    grid_holds(view@, hgt as int, w as int, marks_before(st, mh, mv, false, i as int, k as int)),
                decreases m - k,
            {
                let kp = f[k];
                proof {
                    lemma_kept_point(st, i as int, k as int);
                    if k > 0 {
                        lemma_kept_point(st, i as int, k - 1);
                    }
                    if k + 1 < m {
                        lemma_kept_point(st, i as int, k + 1);
                    }
                }
                let prev = if k > 0 {
                    Some(f[k - 1])
                } else {
                    None
                };
                let next = if k + 1 < m {
                    Some(f[k + 1])
                } else {
                    None
                };
                let pa = PointAttribute::from_key_point(prev, kp, next);
                assert(pa@ == point_attr(f@, k as int));
                let px = line_position(&maps.h, kp.point.x);
                let py = line_position(&maps.v, kp.point.y);
                let ghost pos = grid_pos(mh, mv, kp);
                assert(pos == (px as int, py as int));
                let ghost before = marks_before(st, mh, mv, false, i as int, k as int);
                let ghost mid = before;
                match next {
                    Some(nk) => {
                        let nx = line_position(&maps.h, nk.point.x);
                        let ny = line_position(&maps.v, nk.point.y);
                        assert(grid_pos(mh, mv, nk) == (nx as int, ny as int));
                        proof {
                            pa.lemma_view_len();
                        }
                        pad_segment(&mut view, &pa, (px, py), (nx, ny), Ghost(hgt as int), Ghost(w as int), Ghost(before));
                        proof {
                            mid = before.union(
                                Set::new(
                                    |mk: (int, int, Seq<char>)|
                                        pad_mark(pa@, (px as int, py as int), (nx as int, ny as int), mk),
                                ),
                            );
                        }
                    },
                    None => {},
                }
                grid_insert(&mut view, py, px, pa, Ghost(hgt as int), Ghost(w as int), Ghost(mid));
                proof {
                    lemma_marks_step(st, mh, mv, false, i as int, k as int);
                    let step = Set::new(
                        |mk: (int, int, Seq<char>)| step_mark(st, mh, mv, false, i as int, k as int, mk),
                    );
                    assert(mid.insert((py as int, px as int, pa@)) =~= before.union(step));
                }
                k = k + 1;
            }
            proof {
                lemma_marks_next_path(st, mh, mv, false, i as int);
            }
            i = i + 1;
        }
        let real_map = struc.maps_to_real_point();
        let rh = places_of_reals(&maps.h, &real_map.h);
        let rv = places_of_reals(&maps.v, &real_map.v);
        Ok(StrucAttrView { view, real: DataHV { h: rh, v: rv } })
    }
}

/// A digit, `0` to `9`.
pub open spec fn is_digit(c: char) -> bool {
    '0' <= c <= '9'
}

/// The symbols of the attributes of `cell` whose front symbol is a digit, in order.
pub open spec fn digit_attrs(cell: Seq<PointAttribute>) -> Seq<char>
    decreases cell.len(),
{
    if cell.len() == 0 {
        Seq::empty()
    } else {
        digit_attrs(cell.drop_last()) + if is_digit(cell.last()@[0]) {
            cell.last()@
        } else {
            Seq::empty()
        }
    }
}

/// The grid of all points of a structure, each in the cell of its own
/// coordinates, and of the segments between them.
pub struct StrucAllAttrView {
    pub view: Vec<Vec<Vec<PointAttribute>>>,
}

impl StrucAllAttrView {
    /// The cell in row `y` and column `x`.
    pub open spec fn cell(&self, y: int, x: int) -> Seq<PointAttribute> {
        self.view@[y]@[x]@
    }

    /// The text of column `column` over the rows from `start` up to, not
    /// including, `end`: for each row the digit-fronted attributes of its cell
    /// and a `-`.
    pub open spec fn rows_text(&self, column: int, start: int, end: int) -> Seq<char>
        decreases end - start,
    {
        if end <= start {
            Seq::empty()
        } else {
            self.rows_text(column, start, end - 1) + digit_attrs(self.cell(end - 1, column)) + seq![
                '-',
            ]
        }
    }

    pub fn width(&self) -> (r: usize)
        ensures
            r == if self.view@.len() == 0 {
                0
            } else {
                self.view@[0]@.len()
            },
    {
        if self.view.len() == 0 {
            0
        } else {
            self.view[0].len()
        }
    }

    pub fn height(&self) -> (r: usize)
        ensures
            r == self.view@.len(),
    {
        self.view.len()
    }

    /// The attribute text of column `column` over the rows of `range`.
    pub fn read_row(&self, column: usize, range: std::ops::Range<usize>) -> (r: String)
        requires
            range.start < range.end ==> range.end <= self.view@.len(),
            forall|y: int| range.start <= y < range.end ==> column < (#[trigger] self.view@[y])@.len(),
        ensures
            r@ == seq!['v', ':'] + self.rows_text(column as int, range.start as int, range.end as int)
                + seq![';'],
    {
        let start = range.start;
        let end = range.end;
        let mut out: Vec<char> = Vec::new();
        out.push('v');
        out.push(':');
        let mut y = start;
        while y < end
            invariant
                start <= y,
                y <= end || y == start,
                start < end ==> end <= self.view@.len(),
                forall|y2: int| start <= y2 < end ==> column < (#[trigger] self.view@[y2])@.len(),
                out@ == seq!['v', ':'] + self.rows_text(column as int, start as int, y as int),
            decreases end - y,
        {
            let cell = &self.view[y][column];
            let mut k: usize = 0;
            let ghost base = out@;
            while k < cell.len()
                invariant
                    0 <= k <= cell@.len(),
                    out@ == base + digit_attrs(cell@.take(k as int)),
                decreases cell@.len() - k,
            {
                proof {
                    assert(cell@.take(k + 1).drop_last() =~= cell@.take(k as int));
                    cell@[k as int].lemma_view_len();
                }
                let pa = &cell[k];
                let f = pa.front_connect();
                if '0' <= f && f <= '9' {
                    out.push(f);
                    out.push(pa.this_point());
                    out.push(pa.next_connect());
                    assert(out@ =~= base + digit_attrs(cell@.take(k + 1)));
                } else {
                    assert(out@ =~= base + digit_attrs(cell@.take(k + 1)));
                }
                k = k + 1;
            }
            proof {
                assert(cell@.take(k as int) =~= cell@);
            }
            out.push('-');
            y = y + 1;
            proof {
                assert(out@ =~= seq!['v', ':'] + self.rows_text(column as int, start as int, y as int));
            }
        }
        out.push(';');
        proof {
            if end <= start {
                assert(self.rows_text(column as int, start as int, end as int) =~= Seq::<char>::empty());
            }
            assert(out@ =~= seq!['v', ':'] + self.rows_text(column as int, start as int, end as int)
                + seq![';']);
        }
        string_of(&out)
    }
}

/// A point of a structure lies within the classified range and within the box
/// of the largest coordinates.
pub proof fn lemma_point_in_box(st: Struc, i: int, j: int, mx: usize, my: usize)
    requires
        coords_in_limit(st),
        st.valid_index(i, j),
        st.is_max_coord(Axis::Horizontal, mx),
        st.is_max_coord(Axis::Vertical, my),
    ensures
        in_coord_limit(Some(st.point_of(i, j))),
        st.point_of(i, j).point.x <= mx,
        st.point_of(i, j).point.y <= my,
{
    assert(coord(st.point_of(i, j).point, Axis::Horizontal) <= mx);
    assert(coord(st.point_of(i, j).point, Axis::Vertical) <= my);
}

impl StrucAllAttrView {
    /// Builds the grid of `struc`, whose smallest coordinates are zero, with
    /// one cell per grid point: each point puts its attribute into its cell,
    /// and the segment to the next point of its path puts padding into the
    /// cells it crosses. Never fails.
    pub fn new(struc: &Struc) -> (r: Result<Self, Error>)
        requires
            coords_in_limit(*struc),
            struc.has_points() ==> struc.is_min_coord(Axis::Horizontal, 0) && struc.is_min_coord(
                Axis::Vertical,
                0,
            ),
        ensures
            r matches Ok(v) && ({
                let marks = marks_before(
                    *struc,
                    Seq::empty(),
                    Seq::empty(),
                    true,
                    struc.key_paths@.len() as int,
                    0,
                );
                &&& struc.has_points() ==> exists|mx: usize, my: usize|
                    struc.is_max_coord(Axis::Horizontal, mx) && struc.is_max_coord(Axis::Vertical, my)
                        && grid_holds(v.view@, my + 1, mx + 1, marks)
                &&& !struc.has_points() ==> grid_holds(v.view@, 1, 1, marks)
            }),
    {
        let ghost st = *struc;
        let ghost e = Seq::<usize>::empty();
        proof {
            assert(coords_in_limit(st));
            assert forall|i: int, j: int| #[trigger] st.valid_index(i, j) implies st.point_of(i, j).point.x
                < usize::MAX && st.point_of(i, j).point.y < usize::MAX by {
                assert(st.point_of(i, j).point.x < COORD_LIMIT);
                assert(st.point_of(i, j).point.y < COORD_LIMIT);
            }
            assert(st.coords_bounded());
        }
        let size = struc.size();
        let w = size.width;
        let hgt = size.height;
        let ghost mut mx: usize = 0;
        let ghost mut my: usize = 0;
        proof {
            if st.has_points() {
                let (lo, hi) = choose|lo: usize, hi: usize|
                    st.is_min_coord(Axis::Horizontal, lo) && st.is_max_coord(Axis::Horizontal, hi)
                        && w == hi + 1 - lo;
                let (lo2, hi2) = choose|lo: usize, hi: usize|
                    st.is_min_coord(Axis::Vertical, lo) && st.is_max_coord(Axis::Vertical, hi)
                        && hgt == hi + 1 - lo;
                let (a, b) = choose|a: int, b: int|
                    #![trigger st.point_of(a, b)]
                    st.valid_index(a, b) && coord(st.point_of(a, b).point, Axis::Horizontal) == 0;
                assert(lo <= coord(st.point_of(a, b).point, Axis::Horizontal));
                let (c, d) = choose|c: int, d: int|
                    #![trigger st.point_of(c, d)]
                    st.valid_index(c, d) && coord(st.point_of(c, d).point, Axis::Vertical) == 0;
                assert(lo2 <= coord(st.point_of(c, d).point, Axis::Vertical));
                mx = hi;
                my = hi2;
            }
        }
        let mut view = empty_grid(hgt, w);
        proof {
            assert(marks_before(st, e, e, true, 0, 0) =~= Set::<(int, int, Seq<char>)>::empty());
        }
        let n = struc.key_paths.len();
        let mut i: usize = 0;
        while i < n
            invariant
                st == *struc,
                coords_in_limit(st),
                n == st.key_paths@.len(),
                st.has_points() ==> st.is_max_coord(Axis::Horizontal, mx) && st.is_max_coord(
                    Axis::Vertical,
                    my,
                ) && w == mx + 1 && hgt == my + 1,
                !st.has_points() ==> w == 1 && hgt == 1,
                0 <= i <= n,
                grid_holds(view@, hgt as int, w as int, marks_before(st, e, e, true, i as int, 0)),
            decreases n - i,
        {
            let f = &struc.key_paths[i].points;
            let m = f.len();
            let mut k: usize = 0;
            while k < m
                invariant
                    st == *struc,
                    coords_in_limit(st),
                    n == st.key_paths@.len(),
                    0 <= i < n,
                    f@ == st.key_paths@[i as int].points@,
                    m == f@.len(),
                    st.has_points() ==> st.is_max_coord(Axis::Horizontal, mx) && st.is_max_coord(
                        Axis::Vertical,
                        my,
                    ) && w == mx + 1 && hgt == my + 1,
                    !st.has_points() ==> w == 1 && hgt == 1,
                    0 <= k <= m,
                    grid_holds(
                        view@,
                        hgt as int,
                        w as int,
                        marks_before(st, e, e, true, i as int, k as int),
                    ),
                decreases m - k,
            {
                let kp = f[k];
                proof {
                    assert(st.valid_index(i as int, k as int));
                    assert(st.has_points());
                    lemma_point_in_box(st, i as int, k as int, mx, my);
                    if k > 0 {
                        assert(st.valid_index(i as int, k - 1));
                        lemma_point_in_box(st, i as int, k - 1, mx, my);
                    }
                    if k + 1 < m {
                        assert(st.valid_index(i as int, k + 1));
                        lemma_point_in_box(st, i as int, k + 1, mx, my);
                    }
                }
                let prev = if k > 0 {
                    Some(f[k - 1])
                } else {
                    None
                };
                let next = if k + 1 < m {
                    Some(f[k + 1])
                } else {
                    None
                };
                let pa = PointAttribute::from_key_point(prev, kp, next);
                assert(pa@ == point_attr(f@, k as int));
                let px = kp.point.x;
                let py = kp.point.y;
                let ghost before = marks_before(st, e, e, true, i as int, k as int);
                let ghost mid = before;
                match next {
                    Some(nk) => {
                        proof {
                            pa.lemma_view_len();
                        }
                        pad_segment(
                            &mut view,
                            &pa,
                            (px, py),
                            (nk.point.x, nk.point.y),
                            Ghost(hgt as int),
                            Ghost(w as int),
                            Ghost(before),
                        );
                        proof {
                            mid = before.union(
                                Set::new(
                                    |mk: (int, int, Seq<char>)|
                                        pad_mark(
                                            pa@,
                                            (px as int, py as int),
                                            (nk.point.x as int, nk.point.y as int),
                                            mk,
                                        ),
                                ),
                            );
                        }
                    },
                    None => {},
                }
                grid_insert(&mut view, py, px, pa, Ghost(hgt as int), Ghost(w as int), Ghost(mid));
                proof {
                    lemma_marks_step(st, e, e, true, i as int, k as int);
                    let step = Set::new(
                        |mk: (int, int, Seq<char>)| step_mark(st, e, e, true, i as int, k as int, mk),
                    );
                    assert(mid.insert((py as int, px as int, pa@)) =~= before.union(step));
                }
                k = k + 1;
            }
            proof {
                lemma_marks_next_path(st, e, e, true, i as int);
            }
            i = i + 1;
        }
        Ok(StrucAllAttrView { view })
    }
}

/// `v` is the attribute view of `st`: the grid of the attributes of its points
/// and paddings on the lines that not only marks lie on, with the places of
/// the lines that real points lie on.
pub open spec fn is_attr_view(st: Struc, v: StrucAttrView) -> bool {
    let mh = not_mark_lines(st, Axis::Horizontal);
    let mv = not_mark_lines(st, Axis::Vertical);
    &&& grid_holds(v.view@, mv.len() as int, mh.len() as int, marks_before(st, mh, mv, false, st.key_paths@.len() as int, 0))
    &&& real_places(st, mh, Axis::Horizontal, v.real.h@)
    &&& real_places(st, mv, Axis::Vertical, v.real.v@)
}

/// `r` holds, for each axis, the texts of the spaces between consecutive real
/// lines of the view `v`.
pub open spec fn reads_spaces(v: StrucAttrView, r: DataHV<Vec<String>>) -> bool {
    &&& r.h@.len() == if v.real.h@.len() == 0 {
        0
    } else {
        v.real.h@.len() - 1
    }
    &&& r.v@.len() == if v.real.v@.len() == 0 {
        0
    } else {
        v.real.v@.len() - 1
    }
    &&& forall|i: int| 0 <= i < r.h@.len() ==> (#[trigger] r.h@[i])@ == v.column_space_text(i)
    &&& forall|i: int| 0 <= i < r.v@.len() ==> (#[trigger] r.v@[i])@ == v.row_space_text(i)
}

/// `r` holds the attribute texts of the spaces of `st`.
pub open spec fn space_attrs_of(st: Struc, r: DataHV<Vec<String>>) -> bool {
    exists|v: StrucAttrView| #[trigger] is_attr_view(st, v) && reads_spaces(v, r)
}

/// Where two distinct grid lines along the horizontal axis hold real points,
/// some grid line along the vertical axis holds one too: the condition under
/// which the spaces of a structure can be read.
pub open spec fn reals_readable(st: Struc) -> bool {
    (exists|a: usize, b: usize|
        a != b && st.has_coord(Axis::Horizontal, ValueMode::Real, a) && st.has_coord(
            Axis::Horizontal,
            ValueMode::Real,
            b,
        )) ==> exists|c: usize| st.has_coord(Axis::Vertical, ValueMode::Real, c)
}

impl Struc {
    /// The attribute texts of the spaces of the structure: its grid view read
    /// between consecutive real columns and between consecutive real rows.
    pub fn attributes(&self) -> (r: DataHV<Vec<String>>)
        requires
            coords_in_limit(*self),
            reals_readable(*self),
        ensures
            space_attrs_of(*self, r),
    {
        let made = StrucAttrView::new(self);
        let v = match made {
            Ok(v) => v,
            Err(_) => {
                proof {
                    assert(false);
                }
                StrucAttrView { view: Vec::new(), real: DataHV { h: Vec::new(), v: Vec::new() } }
            },
        };
        let ghost mh = not_mark_lines(*self, Axis::Horizontal);
        let ghost mv = not_mark_lines(*self, Axis::Vertical);
        proof {
            let st = *self;
            assert(st.lists_values(mh, Axis::Horizontal, ValueMode::NotMark));
            assert(st.lists_values(mv, Axis::Vertical, ValueMode::NotMark));
            assert(grid_holds(v.view@, mv.len() as int, mh.len() as int, marks_before(st, mh, mv, false, st.key_paths@.len() as int, 0)));
            if mv.len() > 0 {
                assert(v.view@[0]@.len() == mh.len());
            }
            assert forall|i: int| 0 <= i < v.real.h@.len() implies #[trigger] v.real.h@[i] < v.width() by {
                let k = v.real.h@[i];
                assert(v.real.h@.contains(k));
                if mv.len() == 0 {
                    let x = mh[k as int];
                    assert(st.has_coord(Axis::Horizontal, ValueMode::Real, x));
                    let (a, b) = choose|a: int, b: int|
                        #![trigger st.point_of(a, b)]
                        st.valid_index(a, b) && counts(ValueMode::Real, st.point_of(a, b).p_type, Axis::Horizontal)
                            && coord(st.point_of(a, b).point, Axis::Horizontal) == x;
                    let y = st.point_of(a, b).point.y;
                    assert(coord(st.point_of(a, b).point, Axis::Vertical) == y);
                    assert(st.has_coord(Axis::Vertical, ValueMode::NotMark, y));
                    assert(mv.contains(y));
                }
            }
            assert forall|i: int| 0 <= i < v.real.v@.len() implies #[trigger] v.real.v@[i] < v.height() by {
                let k = v.real.v@[i];
                assert(v.real.v@.contains(k));
            }
            if v.real.h@.len() >= 2 && v.height() > 0 {
                let k0 = v.real.h@[0];
                let k1 = v.real.h@[1];
                assert(v.real.h@.contains(k0));
                assert(v.real.h@.contains(k1));
                assert(k0 < k1);
                assert(mh[k0 as int] < mh[k1 as int]);
                assert(st.has_coord(Axis::Horizontal, ValueMode::Real, mh[k0 as int]));
                assert(st.has_coord(Axis::Horizontal, ValueMode::Real, mh[k1 as int]));
                let c = choose|c: usize| st.has_coord(Axis::Vertical, ValueMode::Real, c);
                let (a, b) = choose|a: int, b: int|
                    #![trigger st.point_of(a, b)]
                    st.valid_index(a, b) && counts(ValueMode::Real, st.point_of(a, b).p_type, Axis::Vertical)
                        && coord(st.point_of(a, b).point, Axis::Vertical) == c;
                assert(counts(ValueMode::NotMark, st.point_of(a, b).p_type, Axis::Vertical));
                assert(st.has_coord(Axis::Vertical, ValueMode::NotMark, c));
                assert(mv.contains(c));
                let kc = choose|kc: int| 0 <= kc < mv.len() && mv[kc] == c;
                assert(v.view.len() == v.view@.len());
                assert(v.real.v@.contains(kc as usize)) by {
                    assert((kc as usize) as int == kc);
                }
            }
            assert(v.well_formed());
        }
        v.get_space_attrs()
    }
}

/// The views of the attributes of `s`.
pub open spec fn views_of(s: Seq<PointAttribute>) -> Seq<Seq<char>> {
    Seq::new(s.len(), |t: int| s[t]@)
}

/// The first `k` points of path `i` of `st`, each as its column, its row and
/// its attribute.
pub open spec fn path_attr_events(st: Struc, i: int, k: int) -> Seq<(int, int, Seq<char>)>
    decreases k,
{
    if k <= 0 {
        Seq::empty()
    } else {
        let pts = st.key_paths@[i].points@;
        path_attr_events(st, i, k - 1).push(
            (pts[k - 1].point.x as int, pts[k - 1].point.y as int, point_attr(pts, k - 1)),
        )
    }
}

/// The points of the first `n` paths of `st`, each as its column, its row and
/// its attribute.
pub open spec fn attr_events(st: Struc, n: int) -> Seq<(int, int, Seq<char>)>
    decreases n,
{
    if n <= 0 {
        Seq::empty()
    } else {
        attr_events(st, n - 1) + path_attr_events(st, n - 1, st.key_paths@[n - 1].points@.len() as int)
    }
}

/// The attributes of `events` in column `c` (`by_column`) or row `c`, in order.
pub open spec fn attrs_at(events: Seq<(int, int, Seq<char>)>, by_column: bool, c: int) -> Seq<
    Seq<char>,
>
    decreases events.len(),
{
    if events.len() == 0 {
        Seq::empty()
    } else {
        let e = events.last();
        let here = if by_column {
            e.0 == c
        } else {
            e.1 == c
        };
        if here {
            attrs_at(events.drop_last(), by_column, c).push(e.2)
        } else {
            attrs_at(events.drop_last(), by_column, c)
        }
    }
}

/// `lists` has `n` lists, list `c` holding the attributes of `events` in
/// column (`by_column`) or row `c`.
pub open spec fn lists_hold(
    lists: Seq<Vec<PointAttribute>>,
    n: int,
    events: Seq<(int, int, Seq<char>)>,
    by_column: bool,
) -> bool {
    &&& lists.len() == n
    &&& forall|c: int| 0 <= c < n ==> views_of((#[trigger] lists[c])@) == attrs_at(events, by_column, c)
}

fn empty_lists(n: usize) -> (r: Vec<Vec<PointAttribute>>)
    ensures
        r@.len() == n,
        forall|c: int| 0 <= c < n ==> (#[trigger] r@[c])@.len() == 0,
{
    let mut r: Vec<Vec<PointAttribute>> = Vec::new();
    let mut k: usize = 0;
    while k < n
        invariant
            0 <= k <= n,
            r@.len() == k,
            forall|c: int| 0 <= c < k ==> (#[trigger] r@[c])@.len() == 0,
        decreases n - k,
    {
        r.push(Vec::new());
        k = k + 1;
    }
    r
}

/// Appends `pa` to list `c`.
fn list_push(
    lists: &mut Vec<Vec<PointAttribute>>,
    c: usize,
    pa: PointAttribute,
    Ghost(n): Ghost<int>,
    Ghost(events): Ghost<Seq<(int, int, Seq<char>)>>,
    Ghost(e): Ghost<(int, int, Seq<char>)>,
    by_column: bool,
)
    requires
        lists_hold(old(lists)@, n, events, by_column),
        c < n,
        e.2 == pa@,
        (if by_column {
            e.0
        } else {
            e.1
        }) == c,
    ensures
        lists_hold(final(lists)@, n, events.push(e), by_column),
{
    let ghost pre = lists@;
    let mut cell: Vec<PointAttribute> = Vec::new();
    lists.set_and_swap(c, &mut cell);
    cell.push(pa);
    lists.set_and_swap(c, &mut cell);
    assert(events.push(e).drop_last() =~= events);
    assert forall|c2: int| 0 <= c2 < n implies views_of((#[trigger] lists@[c2])@) == attrs_at(
        events.push(e),
        by_column,
        c2,
    ) by {
        if c2 != c {
            assert(lists@[c2] == pre[c2]);
        } else {
            assert(views_of(lists@[c2]@) =~= views_of(pre[c2]@).push(pa@));
        }
    }
}

impl Struc {
    /// The attributes of all points, gathered by column and by row, in path
    /// order; the smallest coordinates of the structure are zero.
    pub fn point_attributes(&self) -> (r: (Vec<Vec<PointAttribute>>, Vec<Vec<PointAttribute>>))
        requires
            coords_in_limit(*self),
            self.has_points() ==> self.is_min_coord(Axis::Horizontal, 0) && self.is_min_coord(
                Axis::Vertical,
                0,
            ),
        ensures
            self.has_points() ==> exists|mx: usize, my: usize|
                self.is_max_coord(Axis::Horizontal, mx) && self.is_max_coord(Axis::Vertical, my)
                    && lists_hold(r.0@, mx + 1, attr_events(*self, self.key_paths@.len() as int), true)
                    && lists_hold(r.1@, my + 1, attr_events(*self, self.key_paths@.len() as int), false),
            !self.has_points() ==> lists_hold(
                r.0@,
                1,
                attr_events(*self, self.key_paths@.len() as int),
                true,
            ) && lists_hold(r.1@, 1, attr_events(*self, self.key_paths@.len() as int), false),
    {
        let ghost st = *self;
        proof {
            assert forall|i: int, j: int| #[trigger] st.valid_index(i, j) implies st.point_of(i, j).point.x
                < usize::MAX && st.point_of(i, j).point.y < usize::MAX by {
                assert(st.point_of(i, j).point.x < COORD_LIMIT);
            }
            assert(st.coords_bounded());
        }
        let size = self.size();
        let w = size.width;
        let hgt = size.height;
        let ghost mut mx: usize = 0;
        let ghost mut my: usize = 0;
        proof {
            if st.has_points() {
                let (lo, hi) = choose|lo: usize, hi: usize|
                    st.is_min_coord(Axis::Horizontal, lo) && st.is_max_coord(Axis::Horizontal, hi)
                        && w == hi + 1 - lo;
                let (lo2, hi2) = choose|lo: usize, hi: usize|
                    st.is_min_coord(Axis::Vertical, lo) && st.is_max_coord(Axis::Vertical, hi)
                        && hgt == hi + 1 - lo;
                let (a, b) = choose|a: int, b: int|
                    #![trigger st.point_of(a, b)]
                    st.valid_index(a, b) && coord(st.point_of(a, b).point, Axis::Horizontal) == 0;
                assert(lo <= coord(st.point_of(a, b).point, Axis::Horizontal));
                let (c, d) = choose|c: int, d: int|
                    #![trigger st.point_of(c, d)]
                    st.valid_index(c, d) && coord(st.point_of(c, d).point, Axis::Vertical) == 0;
                assert(lo2 <= coord(st.point_of(c, d).point, Axis::Vertical));
                mx = hi;
                my = hi2;
            }
        }
        let mut h = empty_lists(w);
        let mut v = empty_lists(hgt);
        proof {
            assert(attr_events(st, 0) =~= Seq::<(int, int, Seq<char>)>::empty());
            assert forall|c: int| 0 <= c < w implies views_of((#[trigger] h@[c])@) == attrs_at(
                attr_events(st, 0),
                true,
                c,
            ) by {
                assert(views_of(h@[c]@) =~= Seq::<Seq<char>>::empty());
            }
            assert forall|c: int| 0 <= c < hgt implies views_of((#[trigger] v@[c])@) == attrs_at(
                attr_events(st, 0),
                false,
                c,
            ) by {
                assert(views_of(v@[c]@) =~= Seq::<Seq<char>>::empty());
            }
        }
        let n = self.key_paths.len();
        let mut i: usize = 0;
        while i < n
            invariant
                st == *self,
                coords_in_limit(st),
                n == st.key_paths@.len(),
                st.has_points() ==> st.is_max_coord(Axis::Horizontal, mx) && st.is_max_coord(
                    Axis::Vertical,
                    my,
                ) && w == mx + 1 && hgt == my + 1,
                !st.has_points() ==> w == 1 && hgt == 1,
                0 <= i <= n,
                lists_hold(h@, w as int, attr_events(st, i as int), true),
                lists_hold(v@, hgt as int, attr_events(st, i as int), false),
            decreases n - i,
        {
            let f = &self.key_paths[i].points;
            let m = f.len();
            let ghost base = attr_events(st, i as int);
            let mut k: usize = 0;
            proof {
                assert(base + path_attr_events(st, i as int, 0) =~= base);
            }
            while k < m
                invariant
                    st == *self,
                    coords_in_limit(st),
                    n == st.key_paths@.len(),
                    0 <= i < n,
                    f@ == st.key_paths@[i as int].points@,
                    m == f@.len(),
                    st.has_points() ==> st.is_max_coord(Axis::Horizontal, mx) && st.is_max_coord(
                        Axis::Vertical,
                        my,
                    ) && w == mx + 1 && hgt == my + 1,
                    !st.has_points() ==> w == 1 && hgt == 1,
                    0 <= k <= m,
                    lists_hold(h@, w as int, base + path_attr_events(st, i as int, k as int), true),
                    lists_hold(v@, hgt as int, base + path_attr_events(st, i as int, k as int), false),
                decreases m - k,
            {
                let kp = f[k];
                proof {
                    assert(st.valid_index(i as int, k as int));
                    assert(st.has_points());
                    lemma_point_in_box(st, i as int, k as int, mx, my);
                    if k > 0 {
                        assert(st.valid_index(i as int, k - 1));
                        lemma_point_in_box(st, i as int, k - 1, mx, my);
                    }
                    if k + 1 < m {
                        assert(st.valid_index(i as int, k + 1));
                        lemma_point_in_box(st, i as int, k + 1, mx, my);
                    }
                }
                let prev = if k > 0 {
                    Some(f[k - 1])
                } else {
                    None
                };
                let next = if k + 1 < m {
                    Some(f[k + 1])
                } else {
                    None
                };
                let pa = PointAttribute::from_key_point(prev, kp, next);
                assert(pa@ == point_attr(f@, k as int));
                let ghost cur = base + path_attr_events(st, i as int, k as int);
                let ghost e = (kp.point.x as int, kp.point.y as int, pa@);
                list_push(&mut v, kp.point.y, pa, Ghost(hgt as int), Ghost(cur), Ghost(e), false);
                list_push(&mut h, kp.point.x, pa, Ghost(w as int), Ghost(cur), Ghost(e), true);
                proof {
                    assert(cur.push(e) =~= base + path_attr_events(st, i as int, k + 1));
                }
                k = k + 1;
            }
            proof {
                assert(attr_events(st, i + 1) == base + path_attr_events(st, i as int, m as int));
            }
            i = i + 1;
        }
        (h, v)
    }
}

} // verus!
