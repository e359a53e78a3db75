use vstd::prelude::*;
use crate::axis::DataHV;

pub mod process;
pub mod replace;
pub use replace::Config;

verus! {

/// A setting in two parts: what is done, and how strongly it is carried out.
#[derive(Clone, Copy, PartialEq, Eq, Default, Debug)]
pub struct Operation<O, E> {
    pub operation: O,
    pub execution: E,
}

impl<O, E> Operation<O, E> {
    pub fn new(operation: O, execution: E) -> (r: Self)
        ensures
            r.operation == operation,
            r.execution == execution,
    {
        Operation { operation, execution }
    }
}

/// A pair of settings: one for structures split along an axis, one for
/// surrounding structures.
#[derive(Clone, Copy, PartialEq, Eq, Default, Debug)]
pub struct TypeDate<A, S> {
    pub axis: A,
    pub surround: S,
}

/// The passes that redistribute the free space of a composition.
#[derive(Clone, Copy, PartialEq, Eq, Structural, Debug)]
pub enum SpaceProcess {
    Center,
    CompCenter,
    CenterArea,
}

/// The pieces of `s` between the occurrences of `sep`, the way `str::split`
/// cuts them: `n` separators give `n + 1` pieces, empty ones included.
pub open spec fn split_at_char(s: Seq<char>, sep: char) -> Seq<Seq<char>>
    decreases s.len(),
{
    if s.len() == 0 {
        seq![Seq::<char>::empty()]
    } else {
        let rest = split_at_char(s.drop_first(), sep);
        if s[0] == sep {
            seq![Seq::<char>::empty()] + rest
        } else {
            rest.update(0, seq![s[0]] + rest[0])
        }
    }
}

/// Whether one word of a rule accepts the state `exist` of a neighbour:
/// `o` asks for a neighbour, `x` for none, `*` takes either.
pub open spec fn word_matches(word: Seq<char>, exist: bool) -> bool {
    if word == seq!['x'] {
        !exist
    } else if word == seq!['o'] {
        exist
    } else {
        word == seq!['*']
    }
}

/// The four neighbour states in the order the rules name them: start and
/// end along the horizontal axis, then along the vertical one.
pub open spec fn place_flags(places: DataHV<[bool; 2]>) -> Seq<bool> {
    seq![places.h[0], places.h[1], places.v[0], places.v[1]]
}

/// Whether one `;`-separated alternative of a rule accepts `places`: one word
/// speaks for all four sides, two words for the horizontal and the vertical
/// sides, four words for each side in turn; any other count accepts nothing.
pub open spec fn rule_piece_matches(piece: Seq<char>, places: DataHV<[bool; 2]>) -> bool {
    let words = split_at_char(piece, ' ');
    let flags = place_flags(places);
    if words.len() == 1 {
        forall|k: int| 0 <= k < 4 ==> word_matches(words[0], #[trigger] flags[k])
    } else if words.len() == 2 {
        forall|k: int| 0 <= k < 4 ==> word_matches(words[k / 2], #[trigger] flags[k])
    } else if words.len() == 4 {
        forall|k: int| 0 <= k < 4 ==> word_matches(words[k], #[trigger] flags[k])
    } else {
        false
    }
}

/// Whether some alternative of `rule` accepts `places`.
pub open spec fn spec_place_match(rule: Seq<char>, places: DataHV<[bool; 2]>) -> bool {
    let pieces = split_at_char(rule, ';');
    exists|i: int| 0 <= i < pieces.len() && rule_piece_matches(#[trigger] pieces[i], places)
}

/// Appending a character to `s` either opens a new piece (a separator) or
/// extends the last one.
pub proof fn lemma_split_push(s: Seq<char>, c: char, sep: char)
    ensures
        split_at_char(s, sep).len() >= 1,
        split_at_char(s.push(c), sep) == if c == sep {
            split_at_char(s, sep).push(Seq::<char>::empty())
        } else {
            split_at_char(s, sep).update(
                split_at_char(s, sep).len() - 1,
                split_at_char(s, sep).last().push(c),
            )
        },
    decreases s.len(),
{
    if s.len() == 0 {
        let t = s.push(c);
        assert(t.drop_first() =~= Seq::<char>::empty());
        assert(split_at_char(t.drop_first(), sep) == seq![Seq::<char>::empty()]);
        assert(t[0] == c);
        if c == sep {
            assert(split_at_char(t, sep) =~= seq![Seq::<char>::empty(), Seq::<char>::empty()]);
        } else {
            assert(split_at_char(t, sep) =~= seq![seq![c]]);
            assert(seq![c] =~= Seq::<char>::empty().push(c));
        }
    } else {
        let t = s.push(c);
        let s1 = s.drop_first();
        assert(t.drop_first() =~= s1.push(c));
        lemma_split_push(s1, c, sep);
        let r1 = split_at_char(s1, sep);
        let r = split_at_char(s, sep);
        if s[0] == sep {
            assert(r =~= seq![Seq::<char>::empty()] + r1);
            if c == sep {
                assert(split_at_char(t, sep) =~= r.push(Seq::<char>::empty()));
            } else {
                assert(split_at_char(t, sep) =~= r.update(r.len() - 1, r.last().push(c)));
            }
        } else {
            assert(r =~= r1.update(0, seq![s[0]] + r1[0]));
            if c == sep {
                assert(split_at_char(t, sep) =~= r.push(Seq::<char>::empty()));
            } else {
                let r2 = split_at_char(s1.push(c), sep);
                assert(r2 =~= r1.update(r1.len() - 1, r1.last().push(c)));
                if r1.len() == 1 {
                    assert(seq![s[0]] + r1[0].push(c) =~= (seq![s[0]] + r1[0]).push(c));
                }
                assert(split_at_char(t, sep) =~= r.update(r.len() - 1, r.last().push(c)));
            }
        }
    }
}

/// A word without separators is one piece.
pub proof fn lemma_split_single(c: char, sep: char)
    requires
        c != sep,
    ensures
        split_at_char(seq![c], sep) == seq![seq![c]],
{
    assert(seq![c].drop_first() =~= Seq::<char>::empty());
    assert(split_at_char(Seq::<char>::empty(), sep) == seq![Seq::<char>::empty()]);
    assert(seq![c] + Seq::<char>::empty() =~= seq![c]);
    assert(split_at_char(seq![c], sep) =~= seq![seq![c]]);
}

/// A rule of a single word speaks for all four sides: `*` accepts every
/// neighbourhood, `x` exactly the one without neighbours, and `o` exactly
/// the one with neighbours on all four sides.
pub proof fn lemma_single_word_rules(places: DataHV<[bool; 2]>)
    ensures
        spec_place_match(seq!['*'], places),
        spec_place_match(seq!['x'], places) <==> (!places.h[0] && !places.h[1] && !places.v[0]
            && !places.v[1]),
        spec_place_match(seq!['o'], places) <==> (places.h[0] && places.h[1] && places.v[0]
            && places.v[1]),
{
    let flags = place_flags(places);
    lemma_split_single('*', ';');
    lemma_split_single('*', ' ');
    lemma_split_single('x', ';');
    lemma_split_single('x', ' ');
    lemma_split_single('o', ';');
    lemma_split_single('o', ' ');
    assert(rule_piece_matches(seq!['*'], places));
    assert(split_at_char(seq!['*'], ';')[0] == seq!['*']);
    if rule_piece_matches(seq!['x'], places) {
        assert(word_matches(seq!['x'], flags[0]));
        assert(word_matches(seq!['x'], flags[1]));
        assert(word_matches(seq!['x'], flags[2]));
        assert(word_matches(seq!['x'], flags[3]));
    }
    if !places.h[0] && !places.h[1] && !places.v[0] && !places.v[1] {
        assert(rule_piece_matches(seq!['x'], places));
        assert(split_at_char(seq!['x'], ';')[0] == seq!['x']);
    }
    if spec_place_match(seq!['x'], places) {
        let i = choose|i: int|
            0 <= i < split_at_char(seq!['x'], ';').len() && rule_piece_matches(
                #[trigger] split_at_char(seq!['x'], ';')[i],
                places,
            );
        assert(i == 0);
    }
    if rule_piece_matches(seq!['o'], places) {
        assert(word_matches(seq!['o'], flags[0]));
        assert(word_matches(seq!['o'], flags[1]));
        assert(word_matches(seq!['o'], flags[2]));
        assert(word_matches(seq!['o'], flags[3]));
    }
    if places.h[0] && places.h[1] && places.v[0] && places.v[1] {
        assert(rule_piece_matches(seq!['o'], places));
        assert(split_at_char(seq!['o'], ';')[0] == seq!['o']);
    }
    if spec_place_match(seq!['o'], places) {
        let i = choose|i: int|
            0 <= i < split_at_char(seq!['o'], ';').len() && rule_piece_matches(
                #[trigger] split_at_char(seq!['o'], ';')[i],
                places,
            );
        assert(i == 0);
    }
}

/// Cuts `s` at each `sep`.
fn split_chars(s: &Vec<char>, sep: char) -> (r: Vec<Vec<char>>)
    ensures
        r@.len() == split_at_char(s@, sep).len(),
        forall|i: int| 0 <= i < r@.len() ==> (#[trigger] r@[i])@ == split_at_char(s@, sep)[i],
{
    let mut r: Vec<Vec<char>> = Vec::new();
    let mut cur: Vec<char> = Vec::new();
    let n = s.len();
    let mut i: usize = 0;
    proof {
        assert(s@.subrange(0, 0) =~= Seq::<char>::empty());
    }
    while i < n
        invariant
            n == s@.len(),
            0 <= i <= n,
            r@.len() + 1 == split_at_char(s@.subrange(0, i as int), sep).len(),
            forall|k: int|
                0 <= k < r@.len() ==> (#[trigger] r@[k])@ == split_at_char(
                    s@.subrange(0, i as int),
                    sep,
                )[k],
            cur@ == split_at_char(s@.subrange(0, i as int), sep).last(),
        decreases n - i,
    {
        let c = s[i];
        proof {
            lemma_split_push(s@.subrange(0, i as int), c, sep);
            assert(s@.subrange(0, i + 1) =~= s@.subrange(0, i as int).push(c));
        }
        if c == sep {
            let done = cur;
            r.push(done);
            cur = Vec::new();
        } else {
            cur.push(c);
        }
        i = i + 1;
    }
    proof {
        assert(s@.subrange(0, n as int) =~= s@);
    }
    r.push(cur);
    r
}

/// The characters of `s`, in order.
fn chars_of(s: &str) -> (r: Vec<char>)
    ensures
        r@ == s@,
{
    let n = s.unicode_len();
    let mut r: Vec<char> = Vec::new();
    let mut i: usize = 0;
    while i < n
        invariant
            n == s@.len(),
            0 <= i <= n,
            r@ == s@.subrange(0, i as int),
        decreases n - i,
    {
        let c = s.get_char(i);
        r.push(c);
        i = i + 1;
        proof {
            assert(r@ =~= s@.subrange(0, i as int));
        }
    }
    proof {
        assert(s@.subrange(0, n as int) =~= s@);
    }
    r
}

fn word_matches_exec(word: &Vec<char>, exist: bool) -> (r: bool)
    ensures
        r == word_matches(word@, exist),
{
    if word.len() != 1 {
        proof {
            assert(word@ != seq!['x']);
            assert(word@ != seq!['o']);
            assert(word@ != seq!['*']);
        }
        return false;
    }
    let c = word[0];
    proof {
        if c == 'x' {
            assert(word@ =~= seq!['x']);
        } else {
            assert(word@ != seq!['x']);
        }
        if c == 'o' {
            assert(word@ =~= seq!['o']);
        } else {
            assert(word@ != seq!['o']);
        }
        if c == '*' {
            assert(word@ =~= seq!['*']);
        } else {
            assert(word@ != seq!['*']);
        }
    }
    if c == 'x' {
        !exist
    } else if c == 'o' {
        exist
    } else {
        c == '*'
    }
}

fn piece_matches(piece: &Vec<char>, places: DataHV<[bool; 2]>) -> (r: bool)
    ensures
        r == rule_piece_matches(piece@, places),
{
    let words = split_chars(piece, ' ');
    let flags = [places.h[0], places.h[1], places.v[0], places.v[1]];
    let ghost gw = split_at_char(piece@, ' ');
    let ghost gf = place_flags(places);
    assert(flags@ =~= gf);
    let count = words.len();
    if count != 1 && count != 2 && count != 4 {
        return false;
    }
    let mut k: usize = 0;
    while k < 4
        invariant
            0 <= k <= 4,
            count == words@.len(),
            count == gw.len(),
            count == 1 || count == 2 || count == 4,
            flags@ == gf,
            gf == place_flags(places),
            gw == split_at_char(piece@, ' '),
            forall|i: int| 0 <= i < words@.len() ==> (#[trigger] words@[i])@ == gw[i],
            forall|j: int|
                0 <= j < k ==> word_matches(
                    if count == 1 {
                        gw[0]
                    } else if count == 2 {
                        gw[j / 2]
                    } else {
                        gw[j]
                    },
                    #[trigger] gf[j],
                ),
        decreases 4 - k,
    {
        let w = if count == 1 {
            0
        } else if count == 2 {
            k / 2
        } else {
            k
        };
        if !word_matches_exec(&words[w], flags[k]) {
            proof {
                let kk = k as int;
                assert(!word_matches(gw[w as int], gf[kk]));
                if count == 2 {
                    assert(kk / 2 == w as int);
                }
                assert(!rule_piece_matches(piece@, places));
            }
            return false;
        }
        k = k + 1;
    }
    true
}

/// Whether the neighbour states `places` (for each axis: a neighbour before,
/// a neighbour after) meet `rule`, a list of `;`-separated alternatives of
/// `o`, `x` and `*` words.
pub fn place_match(rule: &str, places: DataHV<[bool; 2]>) -> (r: bool)
    ensures
        r == spec_place_match(rule@, places),
{
    let chars = chars_of(rule);
    let pieces = split_chars(&chars, ';');
    let ghost gp = split_at_char(rule@, ';');
    let n = pieces.len();
    let mut i: usize = 0;
    while i < n
        invariant
            n == pieces@.len(),
            n == gp.len(),
            gp == split_at_char(rule@, ';'),
            0 <= i <= n,
            forall|t: int| 0 <= t < pieces@.len() ==> (#[trigger] pieces@[t])@ == gp[t],
            forall|t: int| 0 <= t < i ==> !rule_piece_matches(#[trigger] gp[t], places),
        decreases n - i,
    {
        if piece_matches(&pieces[i], places) {
            assert(rule_piece_matches(gp[i as int], places));
            assert(spec_place_match(rule@, places));
            return true;
        }
        i = i + 1;
    }
    false
}

} // verus!
