use vstd::prelude::*;
use crate::config::replace::{find_name, first_with_name};
use crate::construct::types::{has_symbol, spec_symbol, Type};
use crate::struc::attribute::string_push;

verus! {

/// How a character is put together: its kind and its components in order.
#[derive(Debug)]
pub struct Attrs {
    pub tp: Type,
    pub components: Vec<Component>,
}

/// A component: a named character, or a combination described in place.
#[derive(Debug)]
pub enum Component {
    Char(String),
    Complex(Attrs),
}

/// What a component stands for: the name of a character, or a combination.
pub enum CompView {
    Char(Seq<char>),
    Complex(AttrsView),
}

/// What a combination stands for: its kind and what its components stand for.
pub struct AttrsView {
    pub tp: Type,
    pub components: Seq<CompView>,
}

/// What the component stands for.
pub open spec fn comp_view(c: Component) -> CompView
    decreases c,
{
    match c {
        Component::Char(s) => CompView::Char(s@),
        Component::Complex(a) => CompView::Complex(attrs_view(a)),
    }
}

/// What the combination stands for.
pub open spec fn attrs_view(a: Attrs) -> AttrsView
    decreases a,
{
    AttrsView { tp: a.tp, components: comps_view(a.components@) }
}

/// What each of the components stands for.
pub open spec fn comps_view(s: Seq<Component>) -> Seq<CompView>
    decreases s,
{
    if s.len() == 0 {
        Seq::empty()
    } else {
        comps_view(s.drop_last()).push(comp_view(s.last()))
    }
}

impl View for Component {
    type V = CompView;

    open spec fn view(&self) -> CompView {
        comp_view(*self)
    }
}

impl View for Attrs {
    type V = AttrsView;

    open spec fn view(&self) -> AttrsView {
        attrs_view(*self)
    }
}

/// Each component's view stands at its own place.
pub proof fn lemma_comps_view(s: Seq<Component>)
    ensures
        comps_view(s).len() == s.len(),
        forall|i: int| 0 <= i < s.len() ==> #[trigger] comps_view(s)[i] == comp_view(s[i]),
    decreases s.len(),
{
    if s.len() > 0 {
        lemma_comps_view(s.drop_last());
    }
}

/// Every kind that occurs in the component has a description character.
pub open spec fn comp_symbols_known(c: CompView) -> bool
    decreases c,
{
    match c {
        CompView::Char(_) => true,
        CompView::Complex(a) => attrs_symbols_known(a),
    }
}

/// Every kind that occurs in the combination has a description character.
pub open spec fn attrs_symbols_known(a: AttrsView) -> bool
    decreases a,
{
    has_symbol(a.tp) && comps_symbols_known(a.components)
}

/// Every kind that occurs in the components has a description character.
pub open spec fn comps_symbols_known(s: Seq<CompView>) -> bool
    decreases s,
{
    if s.len() == 0 {
        true
    } else {
        comps_symbols_known(s.drop_last()) && comp_symbols_known(s.last())
    }
}

/// The name of a component: the character's own name, or the name of the
/// combination.
pub open spec fn comp_name(c: CompView) -> Seq<char>
    decreases c,
{
    match c {
        CompView::Char(s) => s,
        CompView::Complex(a) => attrs_name(a),
    }
}

/// The name of a combination: the description character of its kind, then
/// the names of its components joined by `+` in round brackets.
pub open spec fn attrs_name(a: AttrsView) -> Seq<char>
    decreases a,
{
    seq![spec_symbol(a.tp), '('] + joined_names(a.components) + seq![')']
}

/// The names of the components joined by `+`.
pub open spec fn joined_names(s: Seq<CompView>) -> Seq<char>
    decreases s,
{
    if s.len() == 0 {
        Seq::empty()
    } else if s.len() == 1 {
        comp_name(s[0])
    } else {
        joined_names(s.drop_last()) + seq!['+'] + comp_name(s.last())
    }
}

/// Appends the characters of `t` to `s`.
pub(crate) fn push_text(s: &mut String, t: &str)
    ensures
        final(s)@ == old(s)@ + t@,
{
    let n = t.unicode_len();
    let mut i: usize = 0;
    while i < n
        invariant
            n == t@.len(),
            0 <= i <= n,
            s@ == old(s)@ + t@.subrange(0, i as int),
        decreases n - i,
    {
        let c = t.get_char(i);
        string_push(s, c);
        i = i + 1;
        proof {
            assert(s@ =~= old(s)@ + t@.subrange(0, i as int));
        }
    }
    proof {
        assert(t@.subrange(0, n as int) =~= t@);
    }
}

/// The names of the characters that a component is made of, however deeply
/// the combinations nest.
pub open spec fn comp_leaves(c: CompView) -> Set<Seq<char>>
    decreases c,
{
    match c {
        CompView::Char(s) => set![s],
        CompView::Complex(a) => comps_leaves(a.components),
    }
}

/// The names of the characters that the components are made of.
pub open spec fn comps_leaves(s: Seq<CompView>) -> Set<Seq<char>>
    decreases s,
{
    if s.len() == 0 {
        Set::empty()
    } else {
        comps_leaves(s.drop_last()).union(comp_leaves(s.last()))
    }
}

/// A name is among those of the components exactly when one component has it.
pub proof fn lemma_comps_leaves(s: Seq<CompView>, y: Seq<char>)
    ensures
        comps_leaves(s).contains(y) <==> exists|k: int| 0 <= k < s.len() && #[trigger] comp_leaves(s[k]).contains(y),
    decreases s.len(),
{
    if s.len() > 0 {
        lemma_comps_leaves(s.drop_last(), y);
        if comps_leaves(s).contains(y) {
            if comps_leaves(s.drop_last()).contains(y) {
                let k = choose|k: int| 0 <= k < s.drop_last().len() && #[trigger] comp_leaves(s.drop_last()[k]).contains(y);
                assert(s[k] == s.drop_last()[k]);
            } else {
                assert(comp_leaves(s[s.len() - 1]).contains(y));
            }
        }
        if exists|k: int| 0 <= k < s.len() && #[trigger] comp_leaves(s[k]).contains(y) {
            let k = choose|k: int| 0 <= k < s.len() && #[trigger] comp_leaves(s[k]).contains(y);
            if k < s.len() - 1 {
                assert(s.drop_last()[k] == s[k]);
            }
        }
    }
}

/// The table of how characters are put together: each character's name with
/// its combination; a name is looked up at its first entry.
pub struct Table {
    pub data: Vec<(String, Attrs)>,
}

/// Expanding the character `c` through the table reaches the name `x` within
/// `d` lookups: a character that the table lacks, or gives as a single
/// component, is reached itself; any other expands into the characters of its
/// combination.
pub open spec fn expands_to(t: Seq<(String, Attrs)>, c: Seq<char>, x: Seq<char>, d: nat) -> bool
    decreases d,
{
    match first_with_name(t, c) {
        None => x == c,
        Some(a) => if a.tp is Single {
            x == c
        } else {
            d > 0 && exists|y: Seq<char>|
                #![trigger comps_leaves(a@.components).contains(y)]
                comps_leaves(a@.components).contains(y) && expands_to(t, y, x, (d - 1) as nat)
        },
    }
}

/// The names that expanding the characters of `c` reaches.
pub open spec fn comp_needs(t: Seq<(String, Attrs)>, c: CompView) -> Set<Seq<char>> {
    Set::new(
        |x: Seq<char>|
            exists|y: Seq<char>, d: nat| #[trigger] comp_leaves(c).contains(y) && #[trigger] expands_to(t, y, x, d),
    )
}

/// The names that expanding the characters of the first `i` components reaches.
pub open spec fn comps_needs_upto(t: Seq<(String, Attrs)>, s: Seq<CompView>, i: int) -> Set<Seq<char>> {
    Set::new(
        |x: Seq<char>|
            exists|k: int, y: Seq<char>, d: nat|
                0 <= k < i && #[trigger] comp_leaves(s[k]).contains(y) && #[trigger] expands_to(t, y, x, d),
    )
}

/// The names that a table entry needs: the character itself when it is a
/// single component, otherwise what its components expand to.
pub open spec fn entry_needs(t: Seq<(String, Attrs)>, e: (String, Attrs), x: Seq<char>) -> bool {
    if e.1.tp is Single {
        x == e.0@
    } else {
        exists|y: Seq<char>, d: nat|
            #[trigger] comps_leaves(e.1@.components).contains(y) && #[trigger] expands_to(t, y, x, d)
    }
}

/// The names that the entries of the table need.
pub open spec fn table_needs(t: Seq<(String, Attrs)>) -> Set<Seq<char>> {
    Set::new(|x: Seq<char>| exists|i: int| 0 <= i < t.len() && #[trigger] entry_needs(t, t[i], x))
}

/// `rank` decreases from each combined entry to the characters it is made of,
/// so that expanding any character ends.
pub open spec fn ranked(t: Seq<(String, Attrs)>, rank: spec_fn(Seq<char>) -> nat) -> bool {
    forall|i: int, y: Seq<char>|
        #![trigger t[i], comps_leaves(t[i].1@.components).contains(y)]
        0 <= i < t.len() && !(t[i].1.tp is Single) && comps_leaves(t[i].1@.components).contains(y) ==> rank(y)
            < rank(t[i].0@)
}

/// No name has two entries.
pub open spec fn names_unique(t: Seq<(String, Attrs)>) -> bool {
    forall|a: int, b: int| 0 <= a < b < t.len() ==> t[a].0@ != t[b].0@
}

/// Looking up the name of an entry of a table without repeated names finds
/// that entry.
pub proof fn lemma_lookup_entry(t: Seq<(String, Attrs)>, i: int)
    requires
        names_unique(t),
        0 <= i < t.len(),
    ensures
        first_with_name(t, t[i].0@) == Some(t[i].1),
    decreases i,
{
    if i > 0 {
        let u = t.drop_first();
        assert(names_unique(u));
        assert(u[i - 1] == t[i]);
        assert(t[0].0@ != t[i].0@);
        lemma_lookup_entry(u, i - 1);
    }
}

/// Expanding ends at a name that the table lacks or gives as a single
/// component.
pub proof fn lemma_expands_to_leaf(t: Seq<(String, Attrs)>, y: Seq<char>, x: Seq<char>, d: nat)
    requires
        expands_to(t, y, x, d),
    ensures
        first_with_name(t, x) is None || first_with_name(t, x)->0.tp is Single,
    decreases d,
{
    match first_with_name(t, y) {
        None => {},
        Some(a) => {
            if !(a.tp is Single) {
                let y2 = choose|y2: Seq<char>|
                    #[trigger] comps_leaves(a@.components).contains(y2) && expands_to(t, y2, x, (d - 1) as nat);
                lemma_expands_to_leaf(t, y2, x, (d - 1) as nat);
            }
        },
    }
}

/// Every name that a table without repeated names needs is one that it lacks
/// or gives as a single component.
pub proof fn lemma_needed_are_leaves(t: Seq<(String, Attrs)>, x: Seq<char>)
    requires
        names_unique(t),
        table_needs(t).contains(x),
    ensures
        first_with_name(t, x) is None || first_with_name(t, x)->0.tp is Single,
{
    let i = choose|i: int| 0 <= i < t.len() && #[trigger] entry_needs(t, t[i], x);
    if t[i].1.tp is Single {
        lemma_lookup_entry(t, i);
    } else {
        let (y, d) = choose|y: Seq<char>, d: nat|
            #[trigger] comps_leaves(t[i].1@.components).contains(y) && #[trigger] expands_to(t, y, x, d);
        lemma_expands_to_leaf(t, y, x, d);
    }
}

/// The names in the list.
pub open spec fn names_set(v: Seq<String>) -> Set<Seq<char>> {
    Set::new(|x: Seq<char>| exists|j: int| 0 <= j < v.len() && #[trigger] v[j]@ == x)
}

/// No name occurs twice in the list.
pub open spec fn names_distinct(v: Seq<String>) -> bool {
    forall|a: int, b: int| 0 <= a < b < v.len() ==> v[a]@ != v[b]@
}

/// The entry that the first lookup of a name finds is one of the entries.
proof fn lemma_first_with_name_entry(t: Seq<(String, Attrs)>, n: Seq<char>)
    ensures
        first_with_name(t, n) matches Some(a) ==> exists|i: int|
            0 <= i < t.len() && #[trigger] t[i] == (t[i].0, a) && t[i].0@ == n,
    decreases t.len(),
{
    if t.len() > 0 && t[0].0@ != n {
        lemma_first_with_name_entry(t.drop_first(), n);
        if first_with_name(t, n) is Some {
            let a = first_with_name(t, n)->0;
            let i = choose|i: int|
                0 <= i < t.drop_first().len() && #[trigger] t.drop_first()[i] == (t.drop_first()[i].0, a)
                    && t.drop_first()[i].0@ == n;
            assert(t[i + 1] == t.drop_first()[i]);
        }
    }
}

/// Adds `name` to the list unless it is there.
fn insert_name(requis: &mut Vec<String>, name: &String)
    requires
        names_distinct(old(requis)@),
    ensures
        names_distinct(final(requis)@),
        names_set(final(requis)@) == names_set(old(requis)@).insert(name@),
{
    let n = requis.len();
    let mut j: usize = 0;
    while j < n
        invariant
            n == requis@.len(),
            0 <= j <= n,
            names_distinct(requis@),
            forall|q: int| 0 <= q < j ==> requis@[q]@ != name@,
        decreases n - j,
    {
        if requis[j] == *name {
            proof {
                assert(names_set(requis@) =~= names_set(requis@).insert(name@));
            }
            return ;
        }
        j = j + 1;
    }
    let ghost pre = requis@;
    requis.push(name.clone());
    proof {
        assert forall|x: Seq<char>| names_set(requis@).contains(x) <==> names_set(pre).insert(name@).contains(x) by {
            if names_set(pre).contains(x) {
                let q = choose|q: int| 0 <= q < pre.len() && #[trigger] pre[q]@ == x;
                assert(requis@[q] == pre[q]);
            }
            if x == name@ {
                assert(requis@[n as int]@ == x);
            }
            if names_set(requis@).contains(x) {
                let q = choose|q: int| 0 <= q < requis@.len() && #[trigger] requis@[q]@ == x;
                if q < n {
                    assert(pre[q] == requis@[q]);
                }
            }
        }
        assert(names_set(requis@) =~= names_set(pre).insert(name@));
    }
}

/// The names that expanding the characters of all the components reaches.
pub open spec fn comps_needs_all(t: Seq<(String, Attrs)>, s: Seq<CompView>) -> Set<Seq<char>> {
    Set::new(
        |x: Seq<char>|
            exists|y: Seq<char>, d: nat| #[trigger] comps_leaves(s).contains(y) && #[trigger] expands_to(t, y, x, d),
    )
}

/// Gathering the components one by one gathers them all.
proof fn lemma_upto_all(t: Seq<(String, Attrs)>, s: Seq<CompView>)
    ensures
        comps_needs_upto(t, s, s.len() as int) == comps_needs_all(t, s),
{
    assert forall|x: Seq<char>| comps_needs_upto(t, s, s.len() as int).contains(x) <==> comps_needs_all(
        t,
        s,
    ).contains(x) by {
        if comps_needs_upto(t, s, s.len() as int).contains(x) {
            let (k, y, d) = choose|k: int, y: Seq<char>, d: nat|
                0 <= k < s.len() && #[trigger] comp_leaves(s[k]).contains(y) && #[trigger] expands_to(t, y, x, d);
            lemma_comps_leaves(s, y);
            assert(comps_leaves(s).contains(y) && expands_to(t, y, x, d));
        }
        if comps_needs_all(t, s).contains(x) {
            let (y, d) = choose|y: Seq<char>, d: nat|
                #[trigger] comps_leaves(s).contains(y) && #[trigger] expands_to(t, y, x, d);
            lemma_comps_leaves(s, y);
            let k = choose|k: int| 0 <= k < s.len() && #[trigger] comp_leaves(s[k]).contains(y);
            assert(0 <= k < s.len() && comp_leaves(s[k]).contains(y) && expands_to(t, y, x, d));
        }
    }
    assert(comps_needs_upto(t, s, s.len() as int) =~= comps_needs_all(t, s));
}

/// What a character needs, by what the table says of it.
proof fn lemma_char_needs(t: Seq<(String, Attrs)>, s: Seq<char>)
    ensures
        (first_with_name(t, s) is None || first_with_name(t, s)->0.tp is Single) ==> comp_needs(
            t,
            CompView::Char(s),
        ) == set![s],
        first_with_name(t, s) matches Some(a) ==> (!(a.tp is Single) ==> comp_needs(t, CompView::Char(s))
            == comps_needs_all(t, a@.components)),
{
    let c = CompView::Char(s);
    assert(comp_leaves(c) == set![s]);
    if first_with_name(t, s) is None || first_with_name(t, s)->0.tp is Single {
        assert forall|x: Seq<char>| comp_needs(t, c).contains(x) <==> set![s].contains(x) by {
            if x == s {
                assert(comp_leaves(c).contains(s) && expands_to(t, s, x, 0));
            }
        }
        assert(comp_needs(t, c) =~= set![s]);
    } else {
        let a = first_with_name(t, s)->0;
        assert forall|x: Seq<char>| comp_needs(t, c).contains(x) <==> comps_needs_all(t, a@.components).contains(x) by {
            if comp_needs(t, c).contains(x) {
                let (y, d) = choose|y: Seq<char>, d: nat|
                    #[trigger] comp_leaves(c).contains(y) && #[trigger] expands_to(t, y, x, d);
                assert(y == s);
                let y2 = choose|y2: Seq<char>|
                    #[trigger] comps_leaves(a@.components).contains(y2) && expands_to(t, y2, x, (d - 1) as nat);
                assert(comps_leaves(a@.components).contains(y2) && expands_to(t, y2, x, (d - 1) as nat));
            }
            if comps_needs_all(t, a@.components).contains(x) {
                let (y, d) = choose|y: Seq<char>, d: nat|
                    #[trigger] comps_leaves(a@.components).contains(y) && #[trigger] expands_to(t, y, x, d);
                assert(expands_to(t, s, x, d + 1));
                assert(comp_leaves(c).contains(s) && expands_to(t, s, x, d + 1));
            }
        }
        assert(comp_needs(t, c) =~= comps_needs_all(t, a@.components));
    }
}

/// Adds to `requis` the names that expanding the characters of `comp` through
/// `table` reaches.
fn find_until(
    comp: &Component,
    table: &Vec<(String, Attrs)>,
    requis: &mut Vec<String>,
    Ghost(rank): Ghost<spec_fn(Seq<char>) -> nat>,
    Ghost(bound): Ghost<nat>,
)
    requires
        ranked(table@, rank),
        names_distinct(old(requis)@),
        forall|y: Seq<char>| #[trigger] comp_leaves(comp@).contains(y) ==> rank(y) < bound,
    ensures
        names_distinct(final(requis)@),
        names_set(final(requis)@) == names_set(old(requis)@).union(comp_needs(table@, comp@)),
    decreases bound, *comp,
{
    match comp {
        Component::Char(s) => {
            proof {
                lemma_char_needs(table@, s@);
                assert(comp_leaves(comp@).contains(s@));
            }
            match find_name(table, s) {
                None => {
                    insert_name(requis, s);
                },
                Some(i) => {
                    let a = &table[i].1;
                    match a.tp {
                        Type::Single => {
                            insert_name(requis, s);
                        },
                        _ => {
                            proof {
                                lemma_comps_view(a.components@);
                                assert forall|k: int, y: Seq<char>|
                                    0 <= k < a.components@.len() && #[trigger] comp_leaves(
                                        a.components@[k]@,
                                    ).contains(y) implies rank(y) < rank(s@) by {
                                    lemma_comps_leaves(a@.components, y);
                                    assert(a@.components[k] == a.components@[k]@);
                                    assert(comps_leaves(table@[i as int].1@.components).contains(y));
                                }
                            }
                            find_in_components(&a.components, table, requis, Ghost(rank), Ghost(rank(s@)));
                            proof {
                                lemma_upto_all(table@, a@.components);
                            }
                        },
                    }
                },
            }
        },
        Component::Complex(a) => {
            proof {
                lemma_comps_view(a.components@);
                assert forall|k: int, y: Seq<char>|
                    0 <= k < a.components@.len() && #[trigger] comp_leaves(a.components@[k]@).contains(
                        y,
                    ) implies rank(y) < bound by {
                    lemma_comps_leaves(a@.components, y);
                    assert(a@.components[k] == a.components@[k]@);
                    assert(comp_leaves(comp@) == comps_leaves(a@.components));
                    assert(comp_leaves(comp@).contains(y));
                }
                assert(decreases_to!(*comp => a.components));
            }
            find_in_components(&a.components, table, requis, Ghost(rank), Ghost(bound));
            proof {
                lemma_upto_all(table@, a@.components);
            }
        },
    }
}

/// Adds to `requis` the names that expanding the characters of each of
/// `comps` through `table` reaches.
fn find_in_components(
    comps: &Vec<Component>,
    table: &Vec<(String, Attrs)>,
    requis: &mut Vec<String>,
    Ghost(rank): Ghost<spec_fn(Seq<char>) -> nat>,
    Ghost(bound): Ghost<nat>,
)
    requires
        ranked(table@, rank),
        names_distinct(old(requis)@),
        forall|k: int, y: Seq<char>|
            0 <= k < comps@.len() && #[trigger] comp_leaves(comps@[k]@).contains(y) ==> rank(y) < bound,
    ensures
        names_distinct(final(requis)@),
        names_set(final(requis)@) == names_set(old(requis)@).union(
            comps_needs_upto(table@, comps_view(comps@), comps@.len() as int),
        ),
    decreases bound, *comps,
{
    let ghost s = comps_view(comps@);
    proof {
        lemma_comps_view(comps@);
    }
    let n = comps.len();
    let mut k: usize = 0;
    while k < n
        invariant
            n == comps@.len(),
            0 <= k <= n,
            s == comps_view(comps@),
            s.len() == n,
            forall|q: int| 0 <= q < n ==> #[trigger] s[q] == comps@[q]@,
            ranked(table@, rank),
            forall|q: int, y: Seq<char>|
                0 <= q < comps@.len() && #[trigger] comp_leaves(comps@[q]@).contains(y) ==> rank(y) < bound,
            names_distinct(requis@),
            names_set(requis@) == names_set(old(requis)@).union(comps_needs_upto(table@, s, k as int)),
        decreases n - k,
    {
        proof {
            assert(decreases_to!(*comps => comps@));
            assert(decreases_to!(comps@ => comps@[k as int]));
        }
        find_until(&comps[k], table, requis, Ghost(rank), Ghost(bound));
        proof {
            let t = table@;
            let next = comps_needs_upto(t, s, k + 1);
            let cur = comps_needs_upto(t, s, k as int);
            let one = comp_needs(t, comps@[k as int]@);
            assert forall|x: Seq<char>| next.contains(x) <==> (cur.contains(x) || one.contains(x)) by {
                if next.contains(x) {
                    let (q, y, d) = choose|q: int, y: Seq<char>, d: nat|
                        0 <= q < k + 1 && #[trigger] comp_leaves(s[q]).contains(y) && #[trigger] expands_to(
                            t,
                            y,
                            x,
                            d,
                        );
                    if q == k {
                        assert(comp_leaves(comps@[k as int]@).contains(y) && expands_to(t, y, x, d));
                    } else {
                        assert(0 <= q < k && comp_leaves(s[q]).contains(y) && expands_to(t, y, x, d));
                    }
                }
                if one.contains(x) {
                    let (y, d) = choose|y: Seq<char>, d: nat|
                        #[trigger] comp_leaves(comps@[k as int]@).contains(y) && #[trigger] expands_to(t, y, x, d);
                    assert(0 <= k < k + 1 && comp_leaves(s[k as int]).contains(y) && expands_to(t, y, x, d));
                }
                if cur.contains(x) {
                    let (q, y, d) = choose|q: int, y: Seq<char>, d: nat|
                        0 <= q < k && #[trigger] comp_leaves(s[q]).contains(y) && #[trigger] expands_to(t, y, x, d);
                    assert(0 <= q < k + 1 && comp_leaves(s[q]).contains(y) && expands_to(t, y, x, d));
                }
            }
            assert(next =~= cur.union(one));
            assert(names_set(requis@) =~= names_set(old(requis)@).union(next));
        }
        k = k + 1;
    }
}

impl Table {
    /// The table without entries.
    pub fn empty() -> (r: Self)
        ensures
            r.data@.len() == 0,
            names_unique(r.data@),
    {
        Table { data: Vec::new() }
    }

    /// The names of the characters that the table's characters are finally
    /// made of: each single-component character, and every character reached
    /// by expanding the combinations through the table that the table lacks
    /// or gives as a single component. Each name occurs once.
    pub fn all_necessary_components(&self) -> (r: Vec<String>)
        requires
            exists|rank: spec_fn(Seq<char>) -> nat| ranked(self.data@, rank),
        ensures
            names_distinct(r@),
            names_set(r@) == table_needs(self.data@),
    {
        let ghost rank = choose|rank: spec_fn(Seq<char>) -> nat| ranked(self.data@, rank);
        let ghost t = self.data@;
        let mut requis: Vec<String> = Vec::new();
        let n = self.data.len();
        let mut i: usize = 0;
        while i < n
            invariant
                n == t.len(),
                t == self.data@,
                0 <= i <= n,
                ranked(t, rank),
                names_distinct(requis@),
                names_set(requis@) == Set::new(
                    |x: Seq<char>| exists|q: int| 0 <= q < i && #[trigger] entry_needs(t, t[q], x),
                ),
            decreases n - i,
        {
            let entry = &self.data[i];
            let ghost e = t[i as int];
            match entry.1.tp {
                Type::Single => {
                    insert_name(&mut requis, &entry.0);
                },
                _ => {
                    proof {
                        lemma_comps_view(entry.1.components@);
                        assert forall|k: int, y: Seq<char>|
                            0 <= k < entry.1.components@.len() && #[trigger] comp_leaves(
                                entry.1.components@[k]@,
                            ).contains(y) implies rank(y) < rank(e.0@) by {
                            lemma_comps_leaves(e.1@.components, y);
                            assert(e.1@.components[k] == entry.1.components@[k]@);
                            assert(comps_leaves(t[i as int].1@.components).contains(y));
                        }
                    }
                    find_in_components(&entry.1.components, &self.data, &mut requis, Ghost(rank), Ghost(rank(e.0@)));
                    proof {
                        lemma_upto_all(t, e.1@.components);
                    }
                },
            }
            proof {
                let next = Set::new(|x: Seq<char>| exists|q: int| 0 <= q < i + 1 && #[trigger] entry_needs(t, t[q], x));
                let cur = Set::new(|x: Seq<char>| exists|q: int| 0 <= q < i && #[trigger] entry_needs(t, t[q], x));
                assert forall|x: Seq<char>| next.contains(x) <==> (cur.contains(x) || entry_needs(t, e, x)) by {
                    if next.contains(x) {
                        let q = choose|q: int| 0 <= q < i + 1 && #[trigger] entry_needs(t, t[q], x);
                        if q < i {
                            assert(cur.contains(x));
                        }
                    }
                    if entry_needs(t, e, x) {
                        assert(entry_needs(t, t[i as int], x));
                    }
                    if cur.contains(x) {
                        let q = choose|q: int| 0 <= q < i && #[trigger] entry_needs(t, t[q], x);
                        assert(0 <= q < i + 1 && entry_needs(t, t[q], x));
                    }
                }
                if e.1.tp is Single {
                    assert(names_set(requis@) =~= next);
                } else {
                    assert forall|x: Seq<char>| entry_needs(t, e, x) <==> comps_needs_all(t, e.1@.components).contains(x) by {}
                    assert(names_set(requis@) =~= next);
                }
            }
            i = i + 1;
        }
        proof {
            assert(names_set(requis@) =~= table_needs(t));
        }
        requis
    }
}

impl Attrs {
    /// The combination of a single component with nothing in it.
    pub fn single() -> (r: Self)
        ensures
            r@ == (AttrsView { tp: Type::Single, components: Seq::empty() }),
    {
        Attrs { tp: Type::Single, components: Vec::new() }
    }

    /// The name of the combination: `⿰(a+b)` for `a` beside `b`.
    pub fn comps_name(&self) -> (r: String)
        requires
            attrs_symbols_known(self@),
        ensures
            r@ == attrs_name(self@),
        decreases *self,
    {
        let ghost cs = self@.components;
        proof {
            lemma_comps_view(self.components@);
        }
        let mut r = String::new();
        string_push(&mut r, self.tp.symbol());
        string_push(&mut r, '(');
        let n = self.components.len();
        let mut i: usize = 0;
        while i < n
            invariant
                n == self.components@.len(),
                cs == comps_view(self.components@),
                cs.len() == n,
                forall|k: int| 0 <= k < n ==> #[trigger] cs[k] == comp_view(self.components@[k]),
                0 <= i <= n,
                comps_symbols_known(cs),
                r@ == seq![spec_symbol(self.tp), '('] + joined_names(cs.subrange(0, i as int)),
            decreases n - i,
        {
            proof {
                lemma_comps_known_at(cs, i as int);
                assert(decreases_to!(*self => self.components));
                assert(decreases_to!(self.components => self.components@));
                assert(decreases_to!(self.components@ => self.components@[i as int]));
            }
            if i > 0 {
                string_push(&mut r, '+');
            }
            let name = self.components[i].name();
            push_text(&mut r, name.as_str());
            proof {
                let t = cs.subrange(0, i + 1);
                assert(t.drop_last() =~= cs.subrange(0, i as int));
                assert(t.last() == cs[i as int]);
                if i == 0 {
                    assert(t.len() == 1);
                }
            }
            i = i + 1;
        }
        string_push(&mut r, ')');
        proof {
            assert(cs.subrange(0, n as int) =~= cs);
        }
        r
    }
}

/// A component inside a list whose kinds all have description characters has
/// them too.
proof fn lemma_comps_known_at(s: Seq<CompView>, i: int)
    requires
        comps_symbols_known(s),
        0 <= i < s.len(),
    ensures
        comp_symbols_known(s[i]),
    decreases s.len(),
{
    if i < s.len() - 1 {
        lemma_comps_known_at(s.drop_last(), i);
    }
}

impl Component {
    /// The component that is the character named `value`.
    pub fn from_name(value: &str) -> (r: Self)
        ensures
            r@ == CompView::Char(value@),
    {
        Component::Char(value.to_owned())
    }

    /// The name of the component.
    pub fn name(&self) -> (r: String)
        requires
            comp_symbols_known(self@),
        ensures
            r@ == comp_name(self@),
        decreases *self,
    {
        match self {
            Component::Char(name) => name.clone(),
            Component::Complex(attrs) => attrs.comps_name(),
        }
    }

    /// A copy of the component.
    pub fn clone(&self) -> (r: Self)
        ensures
            r@ == self@,
        decreases *self,
    {
        match self {
            Component::Char(name) => Component::Char(name.clone()),
            Component::Complex(attrs) => Component::Complex(attrs.clone()),
        }
    }
}

impl Attrs {
    /// A copy of the combination.
    pub fn clone(&self) -> (r: Self)
        ensures
            r@ == self@,
        decreases *self,
    {
        proof {
            lemma_comps_view(self.components@);
        }
        let n = self.components.len();
        let mut v: Vec<Component> = Vec::new();
        let mut i: usize = 0;
        while i < n
            invariant
                n == self.components@.len(),
                0 <= i <= n,
                v@.len() == i,
                forall|k: int| 0 <= k < i ==> #[trigger] v@[k]@ == self.components@[k]@,
            decreases n - i,
        {
            proof {
                assert(decreases_to!(*self => self.components));
                assert(decreases_to!(self.components => self.components@));
                assert(decreases_to!(self.components@ => self.components@[i as int]));
            }
            let c = self.components[i].clone();
            v.push(c);
            i = i + 1;
        }
        proof {
            lemma_comps_view(v@);
            assert forall|k: int| 0 <= k < n implies comps_view(v@)[k] == comps_view(self.components@)[k] by {
                assert(v@[k]@ == self.components@[k]@);
            }
            assert(comps_view(v@) =~= comps_view(self.components@));
        }
        Attrs { tp: self.tp, components: v }
    }
}

/// The components all have description characters exactly when each does.
pub proof fn lemma_comps_known_all(s: Seq<CompView>)
    ensures
        comps_symbols_known(s) <==> forall|k: int| 0 <= k < s.len() ==> #[trigger] comp_symbols_known(s[k]),
    decreases s.len(),
{
    if s.len() > 0 {
        let d = s.drop_last();
        lemma_comps_known_all(d);
        assert forall|k: int| 0 <= k < s.len() - 1 implies d[k] == s[k] by {}
        if comps_symbols_known(s) {
            assert forall|k: int| 0 <= k < s.len() implies #[trigger] comp_symbols_known(s[k]) by {
                if k < s.len() - 1 {
                    assert(comp_symbols_known(d[k]));
                }
            }
        }
        if forall|k: int| 0 <= k < s.len() ==> #[trigger] comp_symbols_known(s[k]) {
            assert forall|k: int| 0 <= k < d.len() implies #[trigger] comp_symbols_known(d[k]) by {
                assert(comp_symbols_known(s[k]));
            }
            assert(comp_symbols_known(s[s.len() - 1]));
        }
    }
}

impl Component {
    /// Whether every kind in the component has a description character.
    pub fn symbols_known(&self) -> (r: bool)
        ensures
            r == comp_symbols_known(self@),
        decreases *self,
    {
        match self {
            Component::Char(_) => true,
            Component::Complex(a) => a.symbols_known(),
        }
    }
}

impl Attrs {
    /// Whether every kind in the combination has a description character.
    pub fn symbols_known(&self) -> (r: bool)
        ensures
            r == attrs_symbols_known(self@),
        decreases *self,
    {
        proof {
            lemma_comps_view(self.components@);
            lemma_comps_known_all(self@.components);
        }
        if !self.tp.has_symbol() {
            return false;
        }
        let n = self.components.len();
        let mut i: usize = 0;
        while i < n
            invariant
                n == self.components@.len(),
                0 <= i <= n,
                comps_view(self.components@).len() == n,
                forall|k: int| 0 <= k < n ==> #[trigger] comps_view(self.components@)[k] == comp_view(self.components@[k]),
                forall|k: int| 0 <= k < i ==> #[trigger] comp_symbols_known(comps_view(self.components@)[k]),
                self@.components == comps_view(self.components@),
                has_symbol(self.tp),
                comps_symbols_known(self@.components) <==> forall|k: int|
                    0 <= k < self@.components.len() ==> #[trigger] comp_symbols_known(self@.components[k]),
            decreases n - i,
        {
            proof {
                assert(decreases_to!(*self => self.components));
                assert(decreases_to!(self.components => self.components@));
                assert(decreases_to!(self.components@ => self.components@[i as int]));
            }
            if !self.components[i].symbols_known() {
                assert(!comp_symbols_known(self@.components[i as int]));
                return false;
            }
            i = i + 1;
        }
        true
    }
}

} // verus!
