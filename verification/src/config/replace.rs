use vstd::prelude::*;
use crate::axis::{DataHV, Place};
use crate::config::{place_match, spec_place_match};
use crate::construct::data::{comp_name, comp_symbols_known, Attrs, CompView, Component};
use crate::construct::types::{has_symbol, spec_symbol, Type};

verus! {

/// How characters are put together beyond the construction table, and the
/// components a character is replaced by, in a position and by the neighbours
/// around it.
pub struct Config {
    /// Combinations that take the place of the table's entries.
    pub supplement: Vec<(String, Attrs)>,
    /// For each kind symbol, for each position, the replacement of each name.
    pub type_replace: Vec<(char, Vec<(Place, Vec<(String, Component)>)>)>,
    /// For each name, the replacements tried in order, each under a rule on
    /// the neighbours (see `place_match`).
    pub place_replace: Vec<(String, Vec<(String, Component)>)>,
}

impl Default for Config {
    fn default() -> (r: Self)
        ensures
            r.supplement@.len() == 0,
            r.type_replace@.len() == 0,
            r.place_replace@.len() == 0,
            r.tables_well_keyed(),
    {
        Config { supplement: Vec::new(), type_replace: Vec::new(), place_replace: Vec::new() }
    }
}

/// The value of the first entry whose key is `key`.
pub open spec fn first_with_key<K, T>(entries: Seq<(K, T)>, key: K) -> Option<T>
    decreases entries.len(),
{
    if entries.len() == 0 {
        None
    } else if entries[0].0 == key {
        Some(entries[0].1)
    } else {
        first_with_key(entries.drop_first(), key)
    }
}

/// The value of the first entry named `name`.
pub open spec fn first_with_name<T>(entries: Seq<(String, T)>, name: Seq<char>) -> Option<T>
    decreases entries.len(),
{
    if entries.len() == 0 {
        None
    } else if entries[0].0@ == name {
        Some(entries[0].1)
    } else {
        first_with_name(entries.drop_first(), name)
    }
}

/// No two entries share a key.
pub open spec fn keys_distinct<K, T>(entries: Seq<(K, T)>) -> bool {
    forall|a: int, b: int| 0 <= a < b < entries.len() ==> entries[a].0 != entries[b].0
}

/// No two entries share a name.
pub open spec fn names_distinct_in<T>(entries: Seq<(String, T)>) -> bool {
    forall|a: int, b: int| 0 <= a < b < entries.len() ==> entries[a].0@ != entries[b].0@
}

impl Config {
    /// Each table holds at most one entry per key, as a map does: one
    /// supplement per name, one table per kind symbol, one list per position
    /// and one replacement per name in it, one rule list per name.
    pub open spec fn tables_well_keyed(&self) -> bool {
        &&& names_distinct_in(self.supplement@)
        &&& keys_distinct(self.type_replace@)
        &&& forall|i: int| 0 <= i < self.type_replace@.len() ==> keys_distinct(#[trigger] self.type_replace@[i].1@)
        &&& forall|i: int, j: int|
            0 <= i < self.type_replace@.len() && 0 <= j < self.type_replace@[i].1@.len() ==> names_distinct_in(
                #[trigger] self.type_replace@[i].1@[j].1@,
            )
        &&& names_distinct_in(self.place_replace@)
    }
}

/// Where keys are distinct, looking up an entry's key finds that entry, as a
/// map lookup does; a key that no entry has finds nothing.
pub proof fn lemma_first_with_key_unique<K, T>(entries: Seq<(K, T)>, key: K)
    ensures
        (forall|i: int| 0 <= i < entries.len() ==> entries[i].0 != key) ==> first_with_key(entries, key) is None,
        keys_distinct(entries) ==> forall|i: int|
            0 <= i < entries.len() && #[trigger] entries[i].0 == key ==> first_with_key(entries, key) == Some(
                entries[i].1,
            ),
    decreases entries.len(),
{
    if entries.len() > 0 {
        let rest = entries.drop_first();
        lemma_first_with_key_unique(rest, key);
        assert forall|i: int| 1 <= i < entries.len() implies entries[i] == rest[i - 1] by {}
        if keys_distinct(entries) {
            assert(keys_distinct(rest));
        }
    }
}

/// Where names are distinct, looking up an entry's name finds that entry, as
/// a map lookup does; a name that no entry has finds nothing.
pub proof fn lemma_first_with_name_unique<T>(entries: Seq<(String, T)>, name: Seq<char>)
    ensures
        (forall|i: int| 0 <= i < entries.len() ==> entries[i].0@ != name) ==> first_with_name(entries, name) is None,
        names_distinct_in(entries) ==> forall|i: int|
            0 <= i < entries.len() && #[trigger] entries[i].0@ == name ==> first_with_name(entries, name)
                == Some(entries[i].1),
    decreases entries.len(),
{
    if entries.len() > 0 {
        let rest = entries.drop_first();
        lemma_first_with_name_unique(rest, name);
        assert forall|i: int| 1 <= i < entries.len() implies entries[i] == rest[i - 1] by {}
        if names_distinct_in(entries) {
            assert(names_distinct_in(rest));
        }
    }
}

/// The component of the first rule that the neighbours `places` meet.
pub open spec fn first_matching_rule(rules: Seq<(String, Component)>, places: DataHV<[bool; 2]>) -> Option<
    CompView,
>
    decreases rules.len(),
{
    if rules.len() == 0 {
        None
    } else if spec_place_match(rules[0].0@, places) {
        Some(rules[0].1@)
    } else {
        first_matching_rule(rules.drop_first(), places)
    }
}

/// The replacement that the table of `sym` gives the name `name` at `place`,
/// one step.
pub open spec fn type_lookup(cfg: Config, sym: char, place: Place, name: Seq<char>) -> Option<CompView> {
    match first_with_key(cfg.type_replace@, sym) {
        None => None,
        Some(pm) => match first_with_key(pm@, place) {
            None => None,
            Some(map) => match first_with_name(map@, name) {
                None => None,
                Some(c) => Some(c@),
            },
        },
    }
}

/// Following replacements from `name` stops within `k` steps, and every
/// component on the way has a name.
pub open spec fn replace_chain_ends(cfg: Config, sym: char, place: Place, name: Seq<char>, k: nat) -> bool
    decreases k,
{
    match type_lookup(cfg, sym, place, name) {
        None => true,
        Some(c) => comp_symbols_known(c) && k > 0 && replace_chain_ends(
            cfg,
            sym,
            place,
            comp_name(c),
            (k - 1) as nat,
        ),
    }
}

/// The last component reached by following replacements from `name`, at most
/// `k` steps after the first; none when `name` has no replacement.
pub open spec fn replace_chain_end(cfg: Config, sym: char, place: Place, name: Seq<char>, k: nat) -> Option<
    CompView,
>
    decreases k,
{
    match type_lookup(cfg, sym, place, name) {
        None => None,
        Some(c) => if k == 0 {
            Some(c)
        } else {
            match replace_chain_end(cfg, sym, place, comp_name(c), (k - 1) as nat) {
                None => Some(c),
                Some(d) => Some(d),
            }
        },
    }
}

/// The replacement of `name` by the neighbour rules.
pub open spec fn place_lookup(cfg: Config, name: Seq<char>, places: DataHV<[bool; 2]>) -> Option<CompView> {
    match first_with_name(cfg.place_replace@, name) {
        None => None,
        Some(rules) => first_matching_rule(rules@, places),
    }
}

/// Where the chain ends is the same for every bound within which it ends.
pub proof fn lemma_chain_end_stable(cfg: Config, sym: char, place: Place, name: Seq<char>, k1: nat, k2: nat)
    requires
        replace_chain_ends(cfg, sym, place, name, k1),
        replace_chain_ends(cfg, sym, place, name, k2),
    ensures
        replace_chain_end(cfg, sym, place, name, k1) == replace_chain_end(cfg, sym, place, name, k2),
    decreases k1,
{
    match type_lookup(cfg, sym, place, name) {
        None => {},
        Some(c) => {
            lemma_chain_end_stable(cfg, sym, place, comp_name(c), (k1 - 1) as nat, (k2 - 1) as nat);
        },
    }
}

/// A chain that ends within a bound ends within any larger one.
pub proof fn lemma_chain_ends_grows(cfg: Config, sym: char, place: Place, name: Seq<char>, k: nat)
    requires
        replace_chain_ends(cfg, sym, place, name, k),
    ensures
        replace_chain_ends(cfg, sym, place, name, k + 1),
        replace_chain_end(cfg, sym, place, name, k + 1) == replace_chain_end(cfg, sym, place, name, k),
    decreases k,
{
    match type_lookup(cfg, sym, place, name) {
        None => {},
        Some(c) => {
            lemma_chain_ends_grows(cfg, sym, place, comp_name(c), (k - 1) as nat);
        },
    }
}

/// Where the chain ends within the bound, its last component has a name.
pub proof fn lemma_chain_end_known(cfg: Config, sym: char, place: Place, name: Seq<char>, k: nat)
    requires
        replace_chain_ends(cfg, sym, place, name, k),
    ensures
        replace_chain_end(cfg, sym, place, name, k) matches Some(d) ==> comp_symbols_known(d),
    decreases k,
{
    match type_lookup(cfg, sym, place, name) {
        None => {},
        Some(c) => {
            lemma_chain_end_known(cfg, sym, place, comp_name(c), (k - 1) as nat);
        },
    }
}

/// The chain ends where no further replacement applies.
pub proof fn lemma_chain_end_is_final(cfg: Config, sym: char, place: Place, name: Seq<char>, k: nat)
    requires
        replace_chain_ends(cfg, sym, place, name, k),
    ensures
        replace_chain_end(cfg, sym, place, name, k) matches Some(d) ==> type_lookup(
            cfg,
            sym,
            place,
            comp_name(d),
        ) is None,
    decreases k,
{
    match type_lookup(cfg, sym, place, name) {
        None => {},
        Some(c) => {
            lemma_chain_end_is_final(cfg, sym, place, comp_name(c), (k - 1) as nat);
        },
    }
}

/// The index of the first entry keyed `key`.
fn find_symbol(entries: &Vec<(char, Vec<(Place, Vec<(String, Component)>)>)>, key: char) -> (r: Option<
    usize,
>)
    ensures
        match r {
            None => first_with_key(entries@, key) is None,
            Some(i) => i < entries@.len() && first_with_key(entries@, key) == Some(entries@[i as int].1),
        },
{
    let n = entries.len();
    let mut i: usize = 0;
    assert(entries@.subrange(0, n as int) =~= entries@);
    while i < n
        invariant
            n == entries@.len(),
            0 <= i <= n,
            first_with_key(entries@, key) == first_with_key(entries@.subrange(i as int, n as int), key),
        decreases n - i,
    {
        let ghost rest = entries@.subrange(i as int, n as int);
        assert(rest.drop_first() =~= entries@.subrange(i + 1, n as int));
        if entries[i].0 == key {
            return Some(i);
        }
        i = i + 1;
    }
    None
}

/// The index of the first entry keyed `key`.
fn find_place(entries: &Vec<(Place, Vec<(String, Component)>)>, key: Place) -> (r: Option<usize>)
    ensures
        match r {
            None => first_with_key(entries@, key) is None,
            Some(i) => i < entries@.len() && first_with_key(entries@, key) == Some(entries@[i as int].1),
        },
{
    let n = entries.len();
    let mut i: usize = 0;
    assert(entries@.subrange(0, n as int) =~= entries@);
    while i < n
        invariant
            n == entries@.len(),
            0 <= i <= n,
            first_with_key(entries@, key) == first_with_key(entries@.subrange(i as int, n as int), key),
        decreases n - i,
    {
        let ghost rest = entries@.subrange(i as int, n as int);
        assert(rest.drop_first() =~= entries@.subrange(i + 1, n as int));
        if entries[i].0 == key {
            return Some(i);
        }
        i = i + 1;
    }
    None
}

/// The index of the first entry named `name`.
pub(crate) fn find_name<T>(entries: &Vec<(String, T)>, name: &String) -> (r: Option<usize>)
    ensures
        match r {
            None => first_with_name(entries@, name@) is None,
            Some(i) => i < entries@.len() && first_with_name(entries@, name@) == Some(entries@[i as int].1)
                && entries@[i as int].0@ == name@,
        },
{
    let n = entries.len();
    let mut i: usize = 0;
    assert(entries@.subrange(0, n as int) =~= entries@);
    while i < n
        invariant
            n == entries@.len(),
            0 <= i <= n,
            first_with_name(entries@, name@) == first_with_name(entries@.subrange(i as int, n as int), name@),
        decreases n - i,
    {
        let ghost rest = entries@.subrange(i as int, n as int);
        assert(rest.drop_first() =~= entries@.subrange(i + 1, n as int));
        if entries[i].0 == *name {
            return Some(i);
        }
        i = i + 1;
    }
    None
}

impl Config {
    /// The replacement the table of `sym` gives `name` at `place`, one step.
    pub(crate) fn type_step(&self, sym: char, place: Place, name: &String) -> (r: Option<&Component>)
        ensures
            match r {
                None => type_lookup(*self, sym, place, name@) is None,
                Some(c) => type_lookup(*self, sym, place, name@) == Some(c@),
            },
    {
        match find_symbol(&self.type_replace, sym) {
            None => None,
            Some(i) => {
                let pm = &self.type_replace[i].1;
                match find_place(pm, place) {
                    None => None,
                    Some(j) => {
                        let map = &pm[j].1;
                        match find_name(map, name) {
                            None => None,
                            Some(k) => Some(&map[k].1),
                        }
                    },
                }
            },
        }
    }

    /// The component that `name` is replaced by in a structure of kind `tp` at
    /// position `in_tp`: replacements are followed until none applies; none
    /// when `name` has no replacement.
    pub fn type_replace_name(&self, name: &str, tp: Type, in_tp: Place) -> (r: Option<Component>)
        requires
            has_symbol(tp),
            exists|k: nat| replace_chain_ends(*self, spec_symbol(tp), in_tp, name@, k),
        ensures
            r is None <==> type_lookup(*self, spec_symbol(tp), in_tp, name@) is None,
            r matches Some(c) ==> type_lookup(*self, spec_symbol(tp), in_tp, comp_name(c@)) is None,
            forall|k: nat|
                #![trigger replace_chain_end(*self, spec_symbol(tp), in_tp, name@, k)]
                replace_chain_ends(*self, spec_symbol(tp), in_tp, name@, k) ==> match r {
                    None => replace_chain_end(*self, spec_symbol(tp), in_tp, name@, k) is None,
                    Some(c) => replace_chain_end(*self, spec_symbol(tp), in_tp, name@, k) == Some(c@),
                },
    {
        let sym = tp.symbol();
        let ghost k0: nat = choose|k: nat| replace_chain_ends(*self, sym, in_tp, name@, k);
        let key = name.to_owned();
        let first = self.type_step(sym, in_tp, &key);
        match first {
            None => {
                proof {
                    assert forall|k: nat| replace_chain_ends(*self, sym, in_tp, name@, k) implies replace_chain_end(
                        *self,
                        sym,
                        in_tp,
                        name@,
                        k,
                    ) is None by {}
                }
                None
            },
            Some(c0) => {
                let mut map_comp: &Component = c0;
                let ghost mut j: nat = (k0 - 1) as nat;
                let ghost target = replace_chain_end(*self, sym, in_tp, name@, k0);
                proof {
                    assert(replace_chain_ends(*self, sym, in_tp, comp_name(c0@), j));
                }
                loop
                    invariant
                        replace_chain_ends(*self, sym, in_tp, comp_name(map_comp@), j),
                        comp_symbols_known(map_comp@),
                        target == (match replace_chain_end(*self, sym, in_tp, comp_name(map_comp@), j) {
                            None => Some(map_comp@),
                            Some(d) => Some(d),
                        }),
                    ensures
                        target == Some(map_comp@),
                    decreases j,
                {
                    let next_name = map_comp.name();
                    match self.type_step(sym, in_tp, &next_name) {
                        None => {
                            break ;
                        },
                        Some(mc) => {
                            proof {
                                j = (j - 1) as nat;
                            }
                            map_comp = mc;
                        },
                    }
                }
                let r = map_comp.clone();
                proof {
                    assert forall|k: nat| replace_chain_ends(*self, sym, in_tp, name@, k) implies replace_chain_end(
                        *self,
                        sym,
                        in_tp,
                        name@,
                        k,
                    ) == Some(r@) by {
                        lemma_chain_end_stable(*self, sym, in_tp, name@, k, k0);
                    }
                    lemma_chain_end_is_final(*self, sym, in_tp, name@, k0);
                }
                Some(r)
            },
        }
    }

    /// The component that `name` is replaced by among neighbours `places`:
    /// that of the first rule for `name` that the neighbours meet.
    pub fn place_replace_name(&self, name: &str, places: DataHV<[bool; 2]>) -> (r: Option<Component>)
        ensures
            match r {
                None => place_lookup(*self, name@, places) is None,
                Some(c) => place_lookup(*self, name@, places) == Some(c@),
            },
    {
        let key = name.to_owned();
        match find_name(&self.place_replace, &key) {
            None => None,
            Some(i) => {
                let rules = &self.place_replace[i].1;
                let n = rules.len();
                let mut k: usize = 0;
                assert(rules@.subrange(0, n as int) =~= rules@);
                while k < n
                    invariant
                        n == rules@.len(),
                        0 <= k <= n,
                        place_lookup(*self, name@, places) == first_matching_rule(rules@, places),
                        first_matching_rule(rules@, places) == first_matching_rule(
                            rules@.subrange(k as int, n as int),
                            places,
                        ),
                    decreases n - k,
                {
                    let ghost rest = rules@.subrange(k as int, n as int);
                    assert(rest.drop_first() =~= rules@.subrange(k + 1, n as int));
                    if place_match(rules[k].0.as_str(), places) {
                        let c = rules[k].1.clone();
                        assert(rest[0] == rules@[k as int]);
                        return Some(c);
                    }
                    k = k + 1;
                }
                None
            },
        }
    }
}

} // verus!
