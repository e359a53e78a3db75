use vstd::prelude::*;

use crate::axis::DataHV;
use crate::sorted::{insert_sorted, strictly_increasing};
use crate::struc::space::{IndexPoint, KeyPoint, KeyPointType};

verus! {

/// Appends `c` to `s` (`String::push`).
#[verifier::external_body]
pub(crate) fn string_push(s: &mut String, c: char)
    ensures
        final(s)@ == old(s)@.push(c),
{
    s.push(c);
}

/// The attribute of a key point: how it connects to the point before it, what
/// kind of point it is, and how it connects to the point after it.
#[derive(Clone, Copy, Hash, PartialEq, Eq, PartialOrd, Ord, Debug)]
pub struct PointAttribute {
    symbols: [char; 3],
}

impl View for PointAttribute {
    type V = Seq<char>;

    closed spec fn view(&self) -> Seq<char> {
        self.symbols@
    }
}

/// What is written into the cells that a segment crosses: one attribute along a
/// straight segment, or four (top, bottom, left, right) around a diagonal one.
#[derive(Debug)]
pub enum PaddingPointAttr {
    Line(PointAttribute),
    Box([PointAttribute; 4]),
}

/// The bound below which coordinates must lie for the direction of a segment
/// to be classified by the signs of its offsets. The direction of a segment
/// is an angle: below this bound, the smallest angle between a slanted
/// segment and an axis, `atan(1 / 65535)`, is more than fifty times the
/// spacing of single-precision values near a right angle or a straight one,
/// so the angle the offsets give can never be mistaken for an axis or for the
/// wrong side of one. Near 2^24, where coordinates still convert to
/// single precision exactly, that margin is gone.
pub const COORD_LIMIT: usize = 65536;

/// The direction symbol of the segment from `p1` to `p2`, in the layout of a
/// numeric keypad with the y axis pointing down: `6` right, `3` right-down,
/// `2` down, `1` left-down, `4` left, `7` left-up, `8` up, `9` right-up, and
/// `0` when the points coincide.
pub open spec fn connect_symbol(p1: IndexPoint, p2: IndexPoint) -> char {
    if p1 == p2 {
        '0'
    } else if p2.y == p1.y {
        if p2.x > p1.x {
            '6'
        } else {
            '4'
        }
    } else if p2.y > p1.y {
        if p2.x > p1.x {
            '3'
        } else if p2.x == p1.x {
            '2'
        } else {
            '1'
        }
    } else {
        if p2.x < p1.x {
            '7'
        } else if p2.x == p1.x {
            '8'
        } else {
            '9'
        }
    }
}

/// The symbol of the connection between two optional key points.
pub open spec fn spec_symbol_of_connect(p1: Option<KeyPoint>, p2: Option<KeyPoint>) -> char {
    match (p1, p2) {
        (Some(a), Some(b)) => connect_symbol(a.point, b.point),
        _ => '0',
    }
}

/// The symbol of the kind of a key point, `X` when there is none.
pub open spec fn spec_symbol_of_type(p_type: Option<KeyPointType>) -> char {
    match p_type {
        Some(KeyPointType::Hide) => 'N',
        Some(KeyPointType::Line) => 'L',
        Some(KeyPointType::Horizontal) => 'H',
        Some(KeyPointType::Vertical) => 'V',
        Some(KeyPointType::Mark) => 'M',
        None => 'X',
    }
}

/// The connection symbol seen from the other end of the segment.
pub open spec fn spec_negative(c: char) -> char {
    if c == '1' {
        '9'
    } else if c == '2' {
        '8'
    } else if c == '3' {
        '7'
    } else if c == '4' {
        '6'
    } else {
        c
    }
}

/// The point lies within the range where directions are classified.
pub open spec fn in_coord_limit(p: Option<KeyPoint>) -> bool {
    match p {
        Some(kp) => kp.point.x < COORD_LIMIT && kp.point.y < COORD_LIMIT,
        None => true,
    }
}

/// A connection symbol after which a segment can be padded.
pub open spec fn is_padding_symbol(c: char) -> bool {
    c == '1' || c == '3' || c == '9' || c == '7' || c == '2' || c == '8' || c == '6' || c == '4'
        || c == '0'
}

impl PointAttribute {
    pub fn new(symbols: [char; 3]) -> (r: Self)
        ensures
            r@ == symbols@,
    {
        Self { symbols }
    }

    /// Every attribute has three symbols.
    pub proof fn lemma_view_len(&self)
        ensures
            self@.len() == 3,
    {
    }

    pub fn negative(connect: char) -> (r: char)
        ensures
            r == spec_negative(connect),
    {
        match connect {
            '1' => '9',
            '2' => '8',
            '3' => '7',
            '4' => '6',
            other => other,
        }
    }

    pub fn front_connect(&self) -> (r: char)
        ensures
            r == self@[0],
    {
        self.symbols[0]
    }

    pub fn this_point(&self) -> (r: char)
        ensures
            r == self@[1],
    {
        self.symbols[1]
    }

    pub fn next_connect(&self) -> (r: char)
        ensures
            r == self@[2],
    {
        self.symbols[2]
    }

    /// The attributes written into the cells that the segment after this point
    /// crosses.
    pub fn padding_next(&self) -> (r: PaddingPointAttr)
        requires
            is_padding_symbol(self@[2]),
        ensures
            (self@[2] == '1' || self@[2] == '3' || self@[2] == '9' || self@[2] == '7') ==> (r
                matches PaddingPointAttr::Box(b) && b[0]@ == seq!['t', self@[1], 't'] && b[1]@
                == seq!['b', self@[1], 'b'] && b[2]@ == seq!['l', self@[1], 'l'] && b[3]@
                == seq!['r', self@[1], 'r']),
            (self@[2] == '2' || self@[2] == '8') ==> (r matches PaddingPointAttr::Line(a) && a@
                == seq!['v', self@[1], 'v']),
            (self@[2] == '6' || self@[2] == '4') ==> (r matches PaddingPointAttr::Line(a) && a@
                == seq!['h', self@[1], 'h']),
            self@[2] == '0' ==> (r matches PaddingPointAttr::Line(a) && a@ == seq!['0', self@[1], '0']),
    {
        let t = self.this_point();
        match self.next_connect() {
            '1' | '3' | '9' | '7' => {
                let b = [
                    PointAttribute::new(['t', t, 't']),
                    PointAttribute::new(['b', t, 'b']),
                    PointAttribute::new(['l', t, 'l']),
                    PointAttribute::new(['r', t, 'r']),
                ];
                PaddingPointAttr::Box(b)
            },
            '2' | '8' => PaddingPointAttr::Line(PointAttribute::new(['v', t, 'v'])),
            '6' | '4' => PaddingPointAttr::Line(PointAttribute::new(['h', t, 'h'])),
            _ => PaddingPointAttr::Line(PointAttribute::new(['0', t, '0'])),
        }
    }

    pub fn symbol_of_type(p_type: Option<KeyPointType>) -> (r: char)
        ensures
            r == spec_symbol_of_type(p_type),
    {
        match p_type {
            Some(p_type) => match p_type {
                KeyPointType::Hide => 'N',
                KeyPointType::Line => 'L',
                KeyPointType::Horizontal => 'H',
                KeyPointType::Vertical => 'V',
                KeyPointType::Mark => 'M',
            },
            None => 'X',
        }
    }

    /// The direction symbol of the segment from `p1` to `p2`; the points'
    /// coordinates are below `COORD_LIMIT`.
    pub fn symbol_of_connect(p1: Option<KeyPoint>, p2: Option<KeyPoint>) -> (r: char)
        requires
            in_coord_limit(p1),
            in_coord_limit(p2),
        ensures
            r == spec_symbol_of_connect(p1, p2),
    {
        match p1 {
            Some(a) => match p2 {
                Some(b) => {
                    let (p1, p2) = (a.point, b.point);
                    if p1.x == p2.x && p1.y == p2.y {
                        '0'
                    } else if p2.y == p1.y {
                        if p2.x > p1.x {
                            '6'
                        } else {
                            '4'
                        }
                    } else if p2.y > p1.y {
                        if p2.x > p1.x {
                            '3'
                        } else if p2.x == p1.x {
                            '2'
                        } else {
                            '1'
                        }
                    } else {
                        if p2.x < p1.x {
                            '7'
                        } else if p2.x == p1.x {
                            '8'
                        } else {
                            '9'
                        }
                    }
                },
                None => '0',
            },
            None => '0',
        }
    }

    pub fn from_key_point(
        previous: Option<KeyPoint>,
        current: KeyPoint,
        next: Option<KeyPoint>,
    ) -> (r: Self)
        requires
            in_coord_limit(previous),
            in_coord_limit(Some(current)),
            in_coord_limit(next),
        ensures
            r@ == seq![
                spec_symbol_of_connect(Some(current), previous),
                spec_symbol_of_type(Some(current.p_type)),
                spec_symbol_of_connect(Some(current), next),
            ],
    {
        let s0 = Self::symbol_of_connect(Some(current), previous);
        let s1 = Self::symbol_of_type(Some(current.p_type));
        let s2 = Self::symbol_of_connect(Some(current), next);
        let r = Self { symbols: [s0, s1, s2] };
        assert(r@ =~= seq![s0, s1, s2]);
        r
    }

    /// The three symbols as a string.
    pub fn to_string(&self) -> (r: String)
        ensures
            r@ == self@,
    {
        let mut s = String::new();
        string_push(&mut s, self.symbols[0]);
        string_push(&mut s, self.symbols[1]);
        string_push(&mut s, self.symbols[2]);
        assert(s@ =~= self@);
        s
    }
}

/// Seen from the other end, a segment points the opposite way.
pub proof fn lemma_connect_symbol_reversed(p1: IndexPoint, p2: IndexPoint)
    ensures
        connect_symbol(p2, p1) == spec_negative(connect_symbol(p1, p2)) || connect_symbol(p1, p2)
            == spec_negative(connect_symbol(p2, p1)),
{
}

/// The attributes of the spaces of a structure, along each axis.
pub type StrucAttributes = DataHV<Vec<String>>;

/// The space allocated to each gap of a structure, along each axis.
pub type StrucAllocates = DataHV<Vec<usize>>;

/// The value that the smallest allocation is compacted to: the allocation
/// itself, but at most 2.
pub open spec fn compact_floor(v: usize) -> int {
    if v > 2 {
        2
    } else {
        v as int
    }
}

impl DataHV<Vec<String>> {
    /// Evens out a list of allocations: equal allocations stay equal, the order
    /// is kept, the values become consecutive, and the smallest becomes at most 2.
    pub fn compact(allocs: Vec<usize>) -> (r: Vec<usize>)
        requires
            allocs@.len() < usize::MAX,
        ensures
            r@.len() == allocs@.len(),
            forall|i: int, j: int|
                0 <= i < allocs@.len() && 0 <= j < allocs@.len() ==> (allocs@[i] < allocs@[j]
                    <==> r@[i] < r@[j]),
            forall|i: int|
                0 <= i < allocs@.len() && (forall|j: int|
                    0 <= j < allocs@.len() ==> allocs@[i] <= #[trigger] allocs@[j]) ==> r@[i]
                    == compact_floor(allocs@[i]),
            forall|i: int|
                #![trigger r@[i]]
                0 <= i < allocs@.len() && (exists|j: int|
                    0 <= j < allocs@.len() && #[trigger] allocs@[j] < allocs@[i]) ==> exists|j: int|
                    0 <= j < allocs@.len() && #[trigger] r@[j] + 1 == r@[i],
    {
        let n = allocs.len();
        let mut distinct: Vec<usize> = Vec::new();
        let mut i: usize = 0;
        while i < n
            invariant
                n == allocs@.len(),
                0 <= i <= n,
                strictly_increasing(distinct@),
                distinct@.len() <= i,
                forall|y: usize|
                    distinct@.contains(y) <==> exists|k: int| 0 <= k < i && allocs@[k] == y,
            decreases n - i,
        {
            let ghost pre = distinct@;
            insert_sorted(&mut distinct, allocs[i]);
            assert forall|y: usize|
                distinct@.contains(y) <==> exists|k: int| 0 <= k < i + 1 && allocs@[k] == y by {
                if distinct@.contains(y) && y != allocs@[i as int] {
                    assert(pre.contains(y));
                }
                if exists|k: int| 0 <= k < i + 1 && allocs@[k] == y {
                    let k = choose|k: int| 0 <= k < i + 1 && allocs@[k] == y;
                    if k < i {
                        assert(pre.contains(y));
                    }
                }
            }
            i = i + 1;
        }
        if n == 0 {
            return Vec::new();
        }
        assert(distinct@.contains(allocs@[0]));
        let base: usize = if distinct[0] > 2 {
            2
        } else {
            distinct[0]
        };
        let mut r: Vec<usize> = Vec::new();
        let mut i: usize = 0;
        while i < n
            invariant
                n == allocs@.len(),
                n < usize::MAX,
                0 <= i <= n,
                distinct@.len() > 0,
                distinct@.len() <= n,
                base as int == compact_floor(distinct@[0]),
                strictly_increasing(distinct@),
                forall|y: usize|
                    distinct@.contains(y) <==> exists|k: int| 0 <= k < n && allocs@[k] == y,
                r@.len() == i,
                forall|k: int|
                    0 <= k < i ==> base <= #[trigger] r@[k] && r@[k] - base < distinct@.len()
                        && distinct@[r@[k] - base] == allocs@[k],
            decreases n - i,
        {
            let a = allocs[i];
            assert(distinct@.contains(a));
            let mut p: usize = 0;
            while distinct[p] != a
                invariant
                    0 <= p < distinct@.len(),
                    distinct@.contains(a),
                    forall|q: int| 0 <= q < p ==> distinct@[q] != a,
                decreases distinct@.len() - p,
            {
                if p == distinct.len() - 1 {
                    proof {
                        let q = choose|q: int| 0 <= q < distinct@.len() && distinct@[q] == a;
                        assert(q >= p + 1);
                    }
                    assert(false);
                }
                p = p + 1;
            }
            r.push(base + p);
            i = i + 1;
        }
        proof {
            // every allocation is at least the smallest distinct value
            assert forall|j: int| 0 <= j < n implies distinct@[0] <= #[trigger] allocs@[j] by {
                let pj = r@[j] - base;
                if pj > 0 {
                    assert(distinct@[0] < distinct@[pj]);
                }
            }
            assert forall|i: int, j: int|
                0 <= i < n && 0 <= j < n implies (allocs@[i] < allocs@[j] <==> r@[i] < r@[j]) by {
                let pi = r@[i] - base;
                let pj = r@[j] - base;
                if pi < pj {
                    assert(distinct@[pi] < distinct@[pj]);
                }
                if pj < pi {
                    assert(distinct@[pj] < distinct@[pi]);
                }
            }
            assert forall|i: int|
                0 <= i < n && (forall|j: int| 0 <= j < n ==> allocs@[i] <= #[trigger] allocs@[j])
                implies r@[i] == compact_floor(allocs@[i]) by {
                let pi = r@[i] - base;
                assert(distinct@.contains(distinct@[0]));
                let k = choose|k: int| 0 <= k < n && allocs@[k] == distinct@[0];
                assert(allocs@[i] <= allocs@[k]);
                if pi > 0 {
                    assert(distinct@[0] < distinct@[pi]);
                }
            }
            assert forall|i: int|
                #![trigger r@[i]]
                0 <= i < n && (exists|j: int| 0 <= j < n && #[trigger] allocs@[j] < allocs@[i])
                implies exists|j: int| 0 <= j < n && #[trigger] r@[j] + 1 == r@[i] by {
                let pi = r@[i] - base;
                let j0 = choose|j: int| 0 <= j < n && #[trigger] allocs@[j] < allocs@[i];
                assert(distinct@[0] <= allocs@[j0]);
                assert(pi > 0);
                let y = distinct@[pi - 1];
                assert(distinct@.contains(y));
                let k = choose|k: int| 0 <= k < n && allocs@[k] == y;
                let pk = r@[k] - base;
                if pk < pi - 1 {
                    assert(distinct@[pk] < distinct@[pi - 1]);
                } else if pk > pi - 1 {
                    assert(distinct@[pi - 1] < distinct@[pk]);
                }
                assert(r@[k] + 1 == r@[i]);
            }
        }
        r
    }
}

#[verifier::external_type_specification]
#[verifier::external_body]
pub struct ExRegex(regex::Regex);

/// The pattern `pattern` compiles to a regular expression (`regex::Regex::new`
/// returns `Ok`).
pub uninterp spec fn regex_compiles(pattern: Seq<char>) -> bool;

/// The regular expression compiled from `pattern` finds a match somewhere in
/// `text` (`regex::Regex::is_match`).
pub uninterp spec fn regex_is_match(pattern: Seq<char>, text: Seq<char>) -> bool;

/// A compiled regular expression together with the pattern it was compiled from.
pub struct AttrMatcher {
    pattern: String,
    regex: regex::Regex,
}

impl AttrMatcher {
    /// The pattern this matcher was compiled from.
    pub closed spec fn pattern(&self) -> Seq<char> {
        self.pattern@
    }

    /// A matcher for `pattern`, or `None` where the pattern does not compile.
    pub fn new(pattern: &str) -> (r: Option<Self>)
        ensures
            r is Some <==> regex_compiles(pattern@),
            r matches Some(m) ==> m.pattern() == pattern@,
    {
        compile_matcher(pattern)
    }
}

/// Compiles `pattern` with `regex::Regex::new`: `None` exactly where the crate
/// refuses the pattern (a syntax error, or a program over its size limit);
/// otherwise a matcher that keeps the pattern beside the compiled expression.
#[verifier::external_body]
fn compile_matcher(pattern: &str) -> (r: Option<AttrMatcher>)
    ensures
        r is Some <==> regex_compiles(pattern@),
        r matches Some(m) ==> m.pattern() == pattern@,
{
    match regex::Regex::new(pattern) {
        Ok(regex) => Some(AttrMatcher { pattern: pattern.to_string(), regex }),
        Err(_) => None,
    }
}

/// Whether the compiled expression of `matcher` finds a match anywhere in
/// `text` (`regex::Regex::is_match`); the answer depends on the pattern and
/// the text alone.
#[verifier::external_body]
pub(crate) fn matcher_finds(matcher: &AttrMatcher, text: &str) -> (r: bool)
    ensures
        r == regex_is_match(matcher.pattern(), text@),
{
    matcher.regex.is_match(text)
}

/// The positions of `flags` that are set, in increasing order.
pub open spec fn set_positions(flags: Seq<bool>) -> Seq<usize>
    decreases flags.len(),
{
    if flags.len() == 0 {
        Seq::empty()
    } else if flags.last() {
        set_positions(flags.drop_last()).push((flags.len() - 1) as usize)
    } else {
        set_positions(flags.drop_last())
    }
}

/// Whether each of `texts` matches the regular expression of `pattern`.
pub open spec fn match_flags(pattern: Seq<char>, texts: Seq<String>) -> Seq<bool> {
    Seq::new(texts.len(), |i: int| regex_is_match(pattern, texts[i]@))
}

/// The positions of `flags` that are set, in increasing order.
pub fn true_positions(flags: &Vec<bool>) -> (r: Vec<usize>)
    ensures
        r@ == set_positions(flags@),
{
    let mut r: Vec<usize> = Vec::new();
    let mut i: usize = 0;
    while i < flags.len()
        invariant
            0 <= i <= flags@.len(),
            r@ == set_positions(flags@.take(i as int)),
        decreases flags@.len() - i,
    {
        proof {
            assert(flags@.take(i + 1).drop_last() =~= flags@.take(i as int));
        }
        if flags[i] {
            r.push(i);
        }
        i = i + 1;
    }
    proof {
        assert(flags@.take(i as int) =~= flags@);
    }
    r
}

fn match_each(matcher: &AttrMatcher, texts: &Vec<String>) -> (r: Vec<bool>)
    ensures
        r@ == match_flags(matcher.pattern(), texts@),
{
    let mut r: Vec<bool> = Vec::new();
    let mut i: usize = 0;
    while i < texts.len()
        invariant
            0 <= i <= texts@.len(),
            r@.len() == i,
            forall|k: int| 0 <= k < i ==> r@[k] == regex_is_match(matcher.pattern(), texts@[k]@),
        decreases texts@.len() - i,
    {
        let m = matcher_finds(matcher, texts[i].as_str());
        r.push(m);
        i = i + 1;
    }
    assert(r@ =~= match_flags(matcher.pattern(), texts@));
    r
}

impl DataHV<Vec<String>> {
    /// For each axis, the positions of the attributes that the expression of
    /// `matcher` matches, in increasing order.
    pub fn all_match_indexes(&self, matcher: &AttrMatcher) -> (r: DataHV<Vec<usize>>)
        ensures
            r.h@ == set_positions(match_flags(matcher.pattern(), self.h@)),
            r.v@ == set_positions(match_flags(matcher.pattern(), self.v@)),
    {
        let fh = match_each(matcher, &self.h);
        let fv = match_each(matcher, &self.v);
        DataHV { h: true_positions(&fh), v: true_positions(&fv) }
    }
}

} // verus!
