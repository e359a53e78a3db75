use vstd::prelude::*;
use crate::axis::{Axis, DataHV, Place};
use crate::config::replace::{
    find_name, first_with_name, lemma_chain_end_known, lemma_chain_ends_grows, place_lookup, replace_chain_end,
    replace_chain_ends, Config,
};
use crate::construct::data::{
    attrs_name, attrs_symbols_known, comp_name, comps_view, lemma_comps_view, Attrs, AttrsView, CompView, Component,
    Table,
};
use crate::construct::tree::{lemma_trees_view, CharTree, CharTreeView};
use crate::construct::types::{has_symbol, spec_symbol, Type};

verus! {

/// `adj` with the neighbour before (`side` 0) or after (`side` 1) along
/// `axis` marked present.
pub open spec fn mark_side(adj: DataHV<[bool; 2]>, axis: Axis, side: int) -> DataHV<[bool; 2]> {
    let p = adj.spec_get(axis);
    adj.spec_set(
        axis,
        if side == 0 {
            [true, p[1]]
        } else {
            [p[0], true]
        },
    )
}

/// The neighbours of component `i` of `end` side by side along `axis`: those
/// of the whole, and the components before and after it.
pub open spec fn scale_adjacency(adj: DataHV<[bool; 2]>, axis: Axis, i: int, end: int) -> DataHV<[bool; 2]> {
    let a = if i != 0 {
        mark_side(adj, axis, 0)
    } else {
        adj
    };
    if i + 1 != end {
        mark_side(a, axis, 1)
    } else {
        a
    }
}

/// The position of component `i` of `end` side by side.
pub open spec fn scale_place(i: int, end: int) -> Place {
    if i == 0 {
        Place::Start
    } else if i + 1 == end {
        Place::End
    } else {
        Place::Mind
    }
}

/// The neighbours of the surrounded component: those of the whole, and the
/// surrounding component on each side it covers.
pub open spec fn surround_inner_adjacency(adj: DataHV<[bool; 2]>, sp: DataHV<Place>) -> DataHV<[bool; 2]> {
    let a1 = if sp.h != Place::End {
        mark_side(adj, Axis::Horizontal, 0)
    } else {
        adj
    };
    let a2 = if sp.h != Place::Start {
        mark_side(a1, Axis::Horizontal, 1)
    } else {
        a1
    };
    let a3 = if sp.v != Place::End {
        mark_side(a2, Axis::Vertical, 0)
    } else {
        a2
    };
    if sp.v != Place::Start {
        mark_side(a3, Axis::Vertical, 1)
    } else {
        a3
    }
}

/// The surrounded component has a neighbour before it along an axis exactly
/// where the whole has one or the surrounding component does not stop at the
/// end of that axis, and a neighbour after it exactly where the whole has one
/// or the surrounding component does not stop at its start: `⿺`, which covers
/// the start horizontally and the end vertically, gives a component standing
/// alone a neighbour before it horizontally and after it vertically.
pub proof fn lemma_surround_inner_sides(adj: DataHV<[bool; 2]>, sp: DataHV<Place>)
    ensures
        surround_inner_adjacency(adj, sp).h[0] == (adj.h[0] || sp.h != Place::End),
        surround_inner_adjacency(adj, sp).h[1] == (adj.h[1] || sp.h != Place::Start),
        surround_inner_adjacency(adj, sp).v[0] == (adj.v[0] || sp.v != Place::End),
        surround_inner_adjacency(adj, sp).v[1] == (adj.v[1] || sp.v != Place::Start),
{
}

/// Component `i` of `end` side by side along `axis` has a neighbour before it
/// along the axis exactly where the whole has one or it is not the first, and
/// one after it exactly where the whole has one or it is not the last; along
/// the other axis it has the neighbours of the whole.
pub proof fn lemma_scale_sides(adj: DataHV<[bool; 2]>, axis: Axis, i: int, end: int)
    ensures
        scale_adjacency(adj, axis, i, end).spec_get(axis)[0] == (adj.spec_get(axis)[0] || i != 0),
        scale_adjacency(adj, axis, i, end).spec_get(axis)[1] == (adj.spec_get(axis)[1] || i + 1 != end),
        scale_adjacency(adj, axis, i, end).spec_get(crate::axis::spec_axis_inverse(axis)) == adj.spec_get(
            crate::axis::spec_axis_inverse(axis),
        ),
{
}

/// What `name` is replaced by in a structure of kind `tp` at `in_tp` among
/// neighbours `adj`: the end of its kind replacements, then replaced by the
/// neighbour rules where one applies (inner `None`: no replacement). Outer
/// `None` where the kind has no symbol or the replacements do not end within
/// `n` steps.
pub open spec fn check_name_spec(
    cfg: Config,
    name: Seq<char>,
    tp: Type,
    in_tp: Place,
    adj: DataHV<[bool; 2]>,
    n: nat,
) -> Option<Option<CompView>> {
    if !has_symbol(tp) || !replace_chain_ends(cfg, spec_symbol(tp), in_tp, name, n) {
        None
    } else {
        Some(
            match replace_chain_end(cfg, spec_symbol(tp), in_tp, name, n) {
                Some(c) => match place_lookup(cfg, comp_name(c), adj) {
                    Some(d) => Some(d),
                    None => Some(c),
                },
                None => place_lookup(cfg, name, adj),
            },
        )
    }
}

/// The combination of the character named `name`: the supplement's, else
/// the table's, else a single component.
pub open spec fn lookup_attrs(cfg: Config, table: Seq<(String, crate::construct::data::Attrs)>, name: Seq<char>) -> AttrsView {
    match first_with_name(cfg.supplement@, name) {
        Some(a) => a@,
        None => match first_with_name(table, name) {
            Some(a) => a@,
            None => AttrsView { tp: Type::Single, components: Seq::empty() },
        },
    }
}

/// The name and combination that `name` stands for after replacement.
pub open spec fn current_attr_spec(
    cfg: Config,
    table: Seq<(String, crate::construct::data::Attrs)>,
    name: Seq<char>,
    tp: Type,
    in_tp: Place,
    adj: DataHV<[bool; 2]>,
    n: nat,
) -> Option<(Seq<char>, AttrsView)> {
    match check_name_spec(cfg, name, tp, in_tp, adj, n) {
        None => None,
        Some(checked) => match (match checked {
            Some(c) => c,
            None => CompView::Char(name),
        }) {
            CompView::Char(c_name) => Some((c_name, lookup_attrs(cfg, table, c_name))),
            CompView::Complex(a) => if attrs_symbols_known(a) {
                Some((attrs_name(a), a))
            } else {
                None
            },
        },
    }
}

/// The name and combination that a component of a surround stands for after
/// replacement.
pub open spec fn remap_spec(
    cfg: Config,
    table: Seq<(String, crate::construct::data::Attrs)>,
    comp: CompView,
    tp: Type,
    in_tp: Place,
    adj: DataHV<[bool; 2]>,
    n: nat,
) -> Option<(Seq<char>, AttrsView)> {
    match comp {
        CompView::Char(c_name) => current_attr_spec(cfg, table, c_name, tp, in_tp, adj, n),
        CompView::Complex(c_attrs) => if !attrs_symbols_known(c_attrs) {
            None
        } else {
            match check_name_spec(cfg, attrs_name(c_attrs), tp, in_tp, adj, n) {
                None => None,
                Some(Some(CompView::Char(map_name))) => current_attr_spec(cfg, table, map_name, tp, in_tp, adj, n),
                Some(Some(CompView::Complex(map_attrs))) => if attrs_symbols_known(map_attrs) {
                    Some((attrs_name(map_attrs), map_attrs))
                } else {
                    None
                },
                Some(None) => Some((attrs_name(c_attrs), c_attrs)),
            }
        },
    }
}

/// The tree of the character `name` placed in a structure of kind `tp` at
/// `in_tp` among neighbours `adj`, within `n` levels; `None` where building it
/// fails or goes deeper.
pub open spec fn tree_in(
    cfg: Config,
    table: Seq<(String, crate::construct::data::Attrs)>,
    name: Seq<char>,
    tp: Type,
    in_tp: Place,
    adj: DataHV<[bool; 2]>,
    n: nat,
) -> Option<CharTreeView>
    decreases n, 3nat,
{
    match current_attr_spec(cfg, table, name, tp, in_tp, adj, n) {
        None => None,
        Some(p) => tree_from_attr(cfg, table, p.0, p.1, adj, n),
    }
}

/// The tree of the combination `attrs` named `name` among neighbours `adj`,
/// within `n` levels.
pub open spec fn tree_from_attr(
    cfg: Config,
    table: Seq<(String, crate::construct::data::Attrs)>,
    name: Seq<char>,
    attrs: AttrsView,
    adj: DataHV<[bool; 2]>,
    n: nat,
) -> Option<CharTreeView>
    decreases n, 2nat,
{
    match attrs.tp {
        Type::Single => Some(CharTreeView { name, tp: Type::Single, children: Seq::empty() }),
        Type::Scale(axis) => if n == 0 {
            None
        } else {
            match scale_children(cfg, table, attrs, axis, adj, attrs.components.len(), (n - 1) as nat) {
                None => None,
                Some(children) => Some(CharTreeView { name, tp: attrs.tp, children }),
            }
        },
        Type::Surround(sp) => surround_tree(cfg, table, name, attrs, sp, adj, n),
    }
}

/// The tree of component `i` of a combination side by side along `axis`.
pub open spec fn scale_child(
    cfg: Config,
    table: Seq<(String, crate::construct::data::Attrs)>,
    attrs: AttrsView,
    axis: Axis,
    adj: DataHV<[bool; 2]>,
    i: int,
    n: nat,
) -> Option<CharTreeView>
    decreases n, 4nat,
{
    let end = attrs.components.len() as int;
    let c_in_place = scale_adjacency(adj, axis, i, end);
    let in_tp = scale_place(i, end);
    if !(0 <= i < end) {
        None
    } else {
        match attrs.components[i] {
            CompView::Char(c_name) => tree_in(cfg, table, c_name, attrs.tp, in_tp, c_in_place, n),
            CompView::Complex(c_attrs) => if !attrs_symbols_known(c_attrs) {
                None
            } else {
                match check_name_spec(cfg, attrs_name(c_attrs), attrs.tp, in_tp, adj, n) {
                    None => None,
                    Some(Some(CompView::Char(map_name))) => tree_in(
                        cfg,
                        table,
                        map_name,
                        attrs.tp,
                        in_tp,
                        c_in_place,
                        n,
                    ),
                    Some(Some(CompView::Complex(map_attrs))) => if !attrs_symbols_known(map_attrs) {
                        None
                    } else {
                        tree_from_attr(cfg, table, attrs_name(map_attrs), c_attrs, c_in_place, n)
                    },
                    Some(None) => tree_from_attr(cfg, table, attrs_name(c_attrs), c_attrs, c_in_place, n),
                }
            },
        }
    }
}

/// The trees of the first `k` components of a combination side by side along
/// `axis`.
pub open spec fn scale_children(
    cfg: Config,
    table: Seq<(String, crate::construct::data::Attrs)>,
    attrs: AttrsView,
    axis: Axis,
    adj: DataHV<[bool; 2]>,
    k: nat,
    n: nat,
) -> Option<Seq<CharTreeView>>
    decreases n, k + 5,
{
    if k == 0 {
        Some(Seq::empty())
    } else {
        match scale_children(cfg, table, attrs, axis, adj, (k - 1) as nat, n) {
            None => None,
            Some(s) => match scale_child(cfg, table, attrs, axis, adj, k - 1, n) {
                None => None,
                Some(t) => Some(s.push(t)),
            },
        }
    }
}

/// The tree of the surround `attrs` named `name`, whose surrounding component
/// covers the sides `sp`: a surrounding component that is itself side by side
/// takes the surround into its last (or first) part; one that is itself the
/// same surround takes the two surrounded components one above the other;
/// otherwise both components are built.
pub open spec fn surround_tree(
    cfg: Config,
    table: Seq<(String, crate::construct::data::Attrs)>,
    name: Seq<char>,
    attrs: AttrsView,
    sp: DataHV<Place>,
    adj: DataHV<[bool; 2]>,
    n: nat,
) -> Option<CharTreeView>
    decreases n, 1nat,
{
    if n == 0 || attrs.components.len() < 2 {
        None
    } else {
        match remap_spec(cfg, table, attrs.components[0], attrs.tp, Place::Start, adj, n) {
            None => None,
            Some(primary) => {
                let p_name = primary.0;
                let p_attrs = primary.1;
                let plen = p_attrs.components.len() as int;
                match p_attrs.tp {
                    Type::Scale(c_axis) => {
                        let place = sp.spec_get(c_axis);
                        if plen == 0 || place == Place::Mind {
                            None
                        } else {
                            let index = if place == Place::Start {
                                plen - 1
                            } else {
                                0
                            };
                            let nested = CompView::Complex(
                                AttrsView {
                                    tp: Type::Surround(sp),
                                    components: seq![p_attrs.components[index], attrs.components[1]],
                                },
                            );
                            let new_p = AttrsView {
                                tp: p_attrs.tp,
                                components: p_attrs.components.update(index, nested),
                            };
                            tree_from_attr(cfg, table, name, new_p, adj, (n - 1) as nat)
                        }
                    },
                    Type::Surround(cs) => if cs != sp || plen < 2 {
                        None
                    } else {
                        let sc1 = p_attrs.components[plen - 1];
                        let pc = p_attrs.components[plen - 2];
                        let sc = if cs.v == Place::End {
                            seq![attrs.components[1], sc1]
                        } else {
                            seq![sc1, attrs.components[1]]
                        };
                        let new_attrs = AttrsView {
                            tp: attrs.tp,
                            components: seq![
                                pc,
                                CompView::Complex(AttrsView { tp: Type::Scale(Axis::Vertical), components: sc }),
                            ],
                        };
                        tree_from_attr(cfg, table, name, new_attrs, adj, (n - 1) as nat)
                    },
                    Type::Single => {
                        let inner = surround_inner_adjacency(adj, sp);
                        match remap_spec(cfg, table, attrs.components[1], attrs.tp, Place::End, inner, n) {
                            None => None,
                            Some(secondary) => match tree_from_attr(
                                cfg,
                                table,
                                p_name,
                                p_attrs,
                                adj,
                                (n - 1) as nat,
                            ) {
                                None => None,
                                Some(a) => match tree_from_attr(
                                    cfg,
                                    table,
                                    secondary.0,
                                    secondary.1,
                                    inner,
                                    (n - 1) as nat,
                                ) {
                                    None => None,
                                    Some(b) => Some(CharTreeView { name, tp: attrs.tp, children: seq![a, b] }),
                                },
                            },
                        }
                    },
                }
            },
        }
    }
}

/// The neighbours of a character standing alone: none on any side.
pub open spec fn no_neighbours() -> DataHV<[bool; 2]> {
    DataHV { h: [false, false], v: [false, false] }
}

/// The tree of the character `name` with the table and settings, where
/// building it ends.
pub open spec fn char_tree_spec(cfg: Config, table: Table, name: Seq<char>) -> Option<CharTreeView> {
    if exists|n: nat| #[trigger] tree_in(cfg, table.data@, name, Type::Single, Place::Start, no_neighbours(), n) is Some {
        tree_in(
            cfg,
            table.data@,
            name,
            Type::Single,
            Place::Start,
            no_neighbours(),
            choose|n: nat| #[trigger] tree_in(cfg, table.data@, name, Type::Single, Place::Start, no_neighbours(), n) is Some,
        )
    } else {
        None
    }
}

/// Replacing a name gives the same within any larger bound.
proof fn lemma_check_name_grows(cfg: Config, name: Seq<char>, tp: Type, in_tp: Place, adj: DataHV<[bool; 2]>, n: nat)
    requires
        check_name_spec(cfg, name, tp, in_tp, adj, n) is Some,
    ensures
        check_name_spec(cfg, name, tp, in_tp, adj, n + 1) == check_name_spec(cfg, name, tp, in_tp, adj, n),
{
    lemma_chain_ends_grows(cfg, spec_symbol(tp), in_tp, name, n);
}

/// What a name stands for after replacement is the same within any larger
/// bound.
proof fn lemma_current_attr_grows(
    cfg: Config,
    table: Seq<(String, Attrs)>,
    name: Seq<char>,
    tp: Type,
    in_tp: Place,
    adj: DataHV<[bool; 2]>,
    n: nat,
)
    requires
        current_attr_spec(cfg, table, name, tp, in_tp, adj, n) is Some,
    ensures
        current_attr_spec(cfg, table, name, tp, in_tp, adj, n + 1) == current_attr_spec(
            cfg,
            table,
            name,
            tp,
            in_tp,
            adj,
            n,
        ),
{
    lemma_check_name_grows(cfg, name, tp, in_tp, adj, n);
}

/// What a surround's component stands for is the same within any larger
/// bound.
proof fn lemma_remap_grows(
    cfg: Config,
    table: Seq<(String, Attrs)>,
    comp: CompView,
    tp: Type,
    in_tp: Place,
    adj: DataHV<[bool; 2]>,
    n: nat,
)
    requires
        remap_spec(cfg, table, comp, tp, in_tp, adj, n) is Some,
    ensures
        remap_spec(cfg, table, comp, tp, in_tp, adj, n + 1) == remap_spec(cfg, table, comp, tp, in_tp, adj, n),
{
    match comp {
        CompView::Char(c_name) => {
            lemma_current_attr_grows(cfg, table, c_name, tp, in_tp, adj, n);
        },
        CompView::Complex(c_attrs) => {
            lemma_check_name_grows(cfg, attrs_name(c_attrs), tp, in_tp, adj, n);
            match check_name_spec(cfg, attrs_name(c_attrs), tp, in_tp, adj, n) {
                Some(Some(CompView::Char(map_name))) => {
                    lemma_current_attr_grows(cfg, table, map_name, tp, in_tp, adj, n);
                },
                _ => {},
            }
        },
    }
}

/// A character tree built within a bound is the same within the next one.
proof fn lemma_tree_in_grows(
    cfg: Config,
    table: Seq<(String, Attrs)>,
    name: Seq<char>,
    tp: Type,
    in_tp: Place,
    adj: DataHV<[bool; 2]>,
    n: nat,
)
    requires
        tree_in(cfg, table, name, tp, in_tp, adj, n) is Some,
    ensures
        tree_in(cfg, table, name, tp, in_tp, adj, n + 1) == tree_in(cfg, table, name, tp, in_tp, adj, n),
    decreases n, 3nat,
{
    lemma_current_attr_grows(cfg, table, name, tp, in_tp, adj, n);
    let p = current_attr_spec(cfg, table, name, tp, in_tp, adj, n)->0;
    lemma_from_attr_grows(cfg, table, p.0, p.1, adj, n);
}

/// A character tree does not depend on the bound it is built within: any
/// larger bound gives the same tree.
pub proof fn lemma_tree_in_stable(
    cfg: Config,
    table: Seq<(String, Attrs)>,
    name: Seq<char>,
    tp: Type,
    in_tp: Place,
    adj: DataHV<[bool; 2]>,
    n: nat,
    m: nat,
)
    requires
        tree_in(cfg, table, name, tp, in_tp, adj, n) is Some,
        n <= m,
    ensures
        tree_in(cfg, table, name, tp, in_tp, adj, m) == tree_in(cfg, table, name, tp, in_tp, adj, n),
    decreases m - n,
{
    if n < m {
        lemma_tree_in_grows(cfg, table, name, tp, in_tp, adj, n);
        lemma_tree_in_stable(cfg, table, name, tp, in_tp, adj, n + 1, m);
    }
}

/// A tree built from a combination within a bound is the same within any
/// larger one.
proof fn lemma_from_attr_grows(
    cfg: Config,
    table: Seq<(String, Attrs)>,
    name: Seq<char>,
    attrs: AttrsView,
    adj: DataHV<[bool; 2]>,
    n: nat,
)
    requires
        tree_from_attr(cfg, table, name, attrs, adj, n) is Some,
    ensures
        tree_from_attr(cfg, table, name, attrs, adj, n + 1) == tree_from_attr(cfg, table, name, attrs, adj, n),
    decreases n, 2nat,
{
    match attrs.tp {
        Type::Single => {},
        Type::Scale(axis) => {
            lemma_scale_children_grows(cfg, table, attrs, axis, adj, attrs.components.len(), (n - 1) as nat);
        },
        Type::Surround(sp) => {
            lemma_surround_grows(cfg, table, name, attrs, sp, adj, n);
        },
    }
}

/// A component's tree side by side built within a bound is the same within
/// any larger one.
proof fn lemma_scale_child_grows(
    cfg: Config,
    table: Seq<(String, Attrs)>,
    attrs: AttrsView,
    axis: Axis,
    adj: DataHV<[bool; 2]>,
    i: int,
    n: nat,
)
    requires
        scale_child(cfg, table, attrs, axis, adj, i, n) is Some,
    ensures
        scale_child(cfg, table, attrs, axis, adj, i, n + 1) == scale_child(cfg, table, attrs, axis, adj, i, n),
    decreases n, 4nat,
{
    let end = attrs.components.len() as int;
    let c_in_place = scale_adjacency(adj, axis, i, end);
    let in_tp = scale_place(i, end);
    match attrs.components[i] {
        CompView::Char(c_name) => {
            lemma_tree_in_grows(cfg, table, c_name, attrs.tp, in_tp, c_in_place, n);
        },
        CompView::Complex(c_attrs) => {
            lemma_check_name_grows(cfg, attrs_name(c_attrs), attrs.tp, in_tp, adj, n);
            match check_name_spec(cfg, attrs_name(c_attrs), attrs.tp, in_tp, adj, n) {
                Some(Some(CompView::Char(map_name))) => {
                    lemma_tree_in_grows(cfg, table, map_name, attrs.tp, in_tp, c_in_place, n);
                },
                Some(Some(CompView::Complex(map_attrs))) => {
                    lemma_from_attr_grows(cfg, table, attrs_name(map_attrs), c_attrs, c_in_place, n);
                },
                Some(None) => {
                    lemma_from_attr_grows(cfg, table, attrs_name(c_attrs), c_attrs, c_in_place, n);
                },
                None => {},
            }
        },
    }
}

/// The trees of components side by side built within a bound are the same
/// within any larger one.
proof fn lemma_scale_children_grows(
    cfg: Config,
    table: Seq<(String, Attrs)>,
    attrs: AttrsView,
    axis: Axis,
    adj: DataHV<[bool; 2]>,
    k: nat,
    n: nat,
)
    requires
        scale_children(cfg, table, attrs, axis, adj, k, n) is Some,
    ensures
        scale_children(cfg, table, attrs, axis, adj, k, n + 1) == scale_children(cfg, table, attrs, axis, adj, k, n),
    decreases n, k + 5,
{
    if k > 0 {
        lemma_scale_children_grows(cfg, table, attrs, axis, adj, (k - 1) as nat, n);
        lemma_scale_child_grows(cfg, table, attrs, axis, adj, k - 1, n);
    }
}

/// A surround's tree built within a bound is the same within any larger one.
proof fn lemma_surround_grows(
    cfg: Config,
    table: Seq<(String, Attrs)>,
    name: Seq<char>,
    attrs: AttrsView,
    sp: DataHV<Place>,
    adj: DataHV<[bool; 2]>,
    n: nat,
)
    requires
        surround_tree(cfg, table, name, attrs, sp, adj, n) is Some,
    ensures
        surround_tree(cfg, table, name, attrs, sp, adj, n + 1) == surround_tree(cfg, table, name, attrs, sp, adj, n),
    decreases n, 1nat,
{
    lemma_remap_grows(cfg, table, attrs.components[0], attrs.tp, Place::Start, adj, n);
    let primary = remap_spec(cfg, table, attrs.components[0], attrs.tp, Place::Start, adj, n)->0;
    let p_attrs = primary.1;
    let plen = p_attrs.components.len() as int;
    match p_attrs.tp {
        Type::Scale(c_axis) => {
            let place = sp.spec_get(c_axis);
            let index = if place == Place::Start {
                plen - 1
            } else {
                0
            };
            let nested = CompView::Complex(
                AttrsView { tp: Type::Surround(sp), components: seq![p_attrs.components[index], attrs.components[1]] },
            );
            let new_p = AttrsView { tp: p_attrs.tp, components: p_attrs.components.update(index, nested) };
            lemma_from_attr_grows(cfg, table, name, new_p, adj, (n - 1) as nat);
        },
        Type::Surround(cs) => {
            let sc1 = p_attrs.components[plen - 1];
            let pc = p_attrs.components[plen - 2];
            let sc = if cs.v == Place::End {
                seq![attrs.components[1], sc1]
            } else {
                seq![sc1, attrs.components[1]]
            };
            let new_attrs = AttrsView {
                tp: attrs.tp,
                components: seq![pc, CompView::Complex(AttrsView { tp: Type::Scale(Axis::Vertical), components: sc })],
            };
            lemma_from_attr_grows(cfg, table, name, new_attrs, adj, (n - 1) as nat);
        },
        Type::Single => {
            let inner = surround_inner_adjacency(adj, sp);
            lemma_remap_grows(cfg, table, attrs.components[1], attrs.tp, Place::End, inner, n);
            let secondary = remap_spec(cfg, table, attrs.components[1], attrs.tp, Place::End, inner, n)->0;
            lemma_from_attr_grows(cfg, table, primary.0, p_attrs, adj, (n - 1) as nat);
            lemma_from_attr_grows(cfg, table, secondary.0, secondary.1, inner, (n - 1) as nat);
        },
    }
}

/// `adj` with the neighbour before (`side` 0) or after (`side` 1) along
/// `axis` marked present.
fn mark_side_exec(adj: DataHV<[bool; 2]>, axis: Axis, side: usize) -> (r: DataHV<[bool; 2]>)
    requires
        side < 2,
    ensures
        r == mark_side(adj, axis, side as int),
{
    let p = *adj.hv_get(axis);
    let q = if side == 0 {
        [true, p[1]]
    } else {
        [p[0], true]
    };
    let mut r = adj;
    r.hv_set(axis, q);
    r
}

/// What `name` is replaced by in a structure of kind `tp` at `in_tp` among
/// neighbours `adjacency`.
fn check_name(
    name: &str,
    tp: Type,
    in_tp: Place,
    adjacency: DataHV<[bool; 2]>,
    cfg: &Config,
    Ghost(n): Ghost<nat>,
) -> (r: Option<Component>)
    requires
        check_name_spec(*cfg, name@, tp, in_tp, adjacency, n) is Some,
    ensures
        match r {
            None => check_name_spec(*cfg, name@, tp, in_tp, adjacency, n)->0 is None,
            Some(c) => check_name_spec(*cfg, name@, tp, in_tp, adjacency, n)->0 == Some(c@),
        },
{
    proof {
        lemma_chain_end_known(*cfg, spec_symbol(tp), in_tp, name@, n);
    }
    let replaced = cfg.type_replace_name(name, tp, in_tp);
    assert(replace_chain_ends(*cfg, spec_symbol(tp), in_tp, name@, n));
    match replaced {
        Some(comp) => {
            let cn = comp.name();
            match cfg.place_replace_name(cn.as_str(), adjacency) {
                Some(d) => Some(d),
                None => Some(comp),
            }
        },
        None => cfg.place_replace_name(name, adjacency),
    }
}

/// The combination of the character named `name`: the supplement's, else
/// the table's, else a single component.
fn lookup_attrs_exec(cfg: &Config, table: &Table, name: &String) -> (r: Attrs)
    ensures
        r@ == lookup_attrs(*cfg, table.data@, name@),
{
    match find_name(&cfg.supplement, name) {
        Some(i) => cfg.supplement[i].1.clone(),
        None => match find_name(&table.data, name) {
            Some(i) => table.data[i].1.clone(),
            None => Attrs::single(),
        },
    }
}

/// The name and combination that `name` stands for after replacement.
fn get_current_attr(
    name: String,
    tp: Type,
    in_tp: Place,
    adjacency: DataHV<[bool; 2]>,
    table: &Table,
    cfg: &Config,
    Ghost(n): Ghost<nat>,
) -> (r: (String, Attrs))
    requires
        current_attr_spec(*cfg, table.data@, name@, tp, in_tp, adjacency, n) is Some,
    ensures
        current_attr_spec(*cfg, table.data@, name@, tp, in_tp, adjacency, n) == Some((r.0@, r.1@)),
{
    let checked = check_name(name.as_str(), tp, in_tp, adjacency, cfg, Ghost(n));
    let comp = match checked {
        Some(c) => c,
        None => Component::Char(name),
    };
    match comp {
        Component::Char(c_name) => {
            let attrs = lookup_attrs_exec(cfg, table, &c_name);
            (c_name, attrs)
        },
        Component::Complex(attrs) => (attrs.comps_name(), attrs),
    }
}

/// The name and combination that a component of a surround stands for after
/// replacement.
fn remap_comp(
    comp: &Component,
    tp: Type,
    in_tp: Place,
    in_place: DataHV<[bool; 2]>,
    table: &Table,
    cfg: &Config,
    Ghost(n): Ghost<nat>,
) -> (r: (String, Attrs))
    requires
        remap_spec(*cfg, table.data@, comp@, tp, in_tp, in_place, n) is Some,
    ensures
        remap_spec(*cfg, table.data@, comp@, tp, in_tp, in_place, n) == Some((r.0@, r.1@)),
{
    match comp {
        Component::Char(c_name) => get_current_attr(c_name.clone(), tp, in_tp, in_place, table, cfg, Ghost(n)),
        Component::Complex(c_attrs) => {
            let cn = c_attrs.comps_name();
            match check_name(cn.as_str(), tp, in_tp, in_place, cfg, Ghost(n)) {
                Some(Component::Char(map_name)) => get_current_attr(map_name, tp, in_tp, in_place, table, cfg, Ghost(n)),
                Some(Component::Complex(map_attrs)) => (map_attrs.comps_name(), map_attrs),
                None => (cn, c_attrs.clone()),
            }
        },
    }
}

/// The neighbours of component `i` of `end` side by side along `axis`.
fn scale_adjacency_exec(adj: DataHV<[bool; 2]>, axis: Axis, i: usize, end: usize) -> (r: DataHV<[bool; 2]>)
    requires
        i < end,
    ensures
        r == scale_adjacency(adj, axis, i as int, end as int),
{
    let a = if i != 0 {
        mark_side_exec(adj, axis, 0)
    } else {
        adj
    };
    if i + 1 != end {
        mark_side_exec(a, axis, 1)
    } else {
        a
    }
}

/// The neighbours of the surrounded component.
fn surround_inner_exec(adj: DataHV<[bool; 2]>, sp: DataHV<Place>) -> (r: DataHV<[bool; 2]>)
    ensures
        r == surround_inner_adjacency(adj, sp),
{
    let a1 = if sp.h != Place::End {
        mark_side_exec(adj, Axis::Horizontal, 0)
    } else {
        adj
    };
    let a2 = if sp.h != Place::Start {
        mark_side_exec(a1, Axis::Horizontal, 1)
    } else {
        a1
    };
    let a3 = if sp.v != Place::End {
        mark_side_exec(a2, Axis::Vertical, 0)
    } else {
        a2
    };
    if sp.v != Place::Start {
        mark_side_exec(a3, Axis::Vertical, 1)
    } else {
        a3
    }
}

/// Where the trees of the first `k` components are built, so are those of
/// fewer, and each of them.
proof fn lemma_scale_children_prefix(
    cfg: Config,
    table: Seq<(String, Attrs)>,
    attrs: AttrsView,
    axis: Axis,
    adj: DataHV<[bool; 2]>,
    k: nat,
    n: nat,
    j: nat,
)
    requires
        scale_children(cfg, table, attrs, axis, adj, k, n) is Some,
        j <= k,
    ensures
        scale_children(cfg, table, attrs, axis, adj, j, n) is Some,
        j < k ==> scale_child(cfg, table, attrs, axis, adj, j as int, n) is Some,
    decreases k - j,
{
    if j < k {
        lemma_scale_children_prefix(cfg, table, attrs, axis, adj, (k - 1) as nat, n, j);
        if j + 1 < k {
            lemma_scale_children_prefix(cfg, table, attrs, axis, adj, (k - 1) as nat, n, (j + 1) as nat);
            lemma_scale_children_prefix(cfg, table, attrs, axis, adj, k, n, (j + 1) as nat);
        }
    }
}

/// The tree of the character `name` placed in a structure of kind `tp` at
/// `in_tp` among neighbours `adjacency`.
fn get_component_in(
    name: String,
    tp: Type,
    in_tp: Place,
    adjacency: DataHV<[bool; 2]>,
    table: &Table,
    cfg: &Config,
    Ghost(n): Ghost<nat>,
) -> (r: CharTree)
    requires
        tree_in(*cfg, table.data@, name@, tp, in_tp, adjacency, n) is Some,
    ensures
        tree_in(*cfg, table.data@, name@, tp, in_tp, adjacency, n) == Some(r@),
    decreases n, 3nat,
{
    let (c_name, attrs) = get_current_attr(name, tp, in_tp, adjacency, table, cfg, Ghost(n));
    get_component_from_attr(c_name, attrs, adjacency, table, cfg, Ghost(n))
}

/// The tree of component `i` of the combination `attrs` side by side along
/// `axis`.
fn scale_child_exec(
    attrs: &Attrs,
    axis: Axis,
    adjacency: DataHV<[bool; 2]>,
    i: usize,
    table: &Table,
    cfg: &Config,
    Ghost(n): Ghost<nat>,
) -> (r: CharTree)
    requires
        scale_child(*cfg, table.data@, attrs@, axis, adjacency, i as int, n) is Some,
    ensures
        scale_child(*cfg, table.data@, attrs@, axis, adjacency, i as int, n) == Some(r@),
    decreases n, 4nat,
{
    proof {
        lemma_comps_view(attrs.components@);
    }
    let end = attrs.components.len();
    let c_in_place = scale_adjacency_exec(adjacency, axis, i, end);
    let in_tp = if i == 0 {
        Place::Start
    } else if i + 1 == end {
        Place::End
    } else {
        Place::Mind
    };
    assert(attrs@.components[i as int] == attrs.components@[i as int]@);
    match &attrs.components[i] {
        Component::Char(c_name) => get_component_in(
            c_name.clone(),
            attrs.tp,
            in_tp,
            c_in_place,
            table,
            cfg,
            Ghost(n),
        ),
        Component::Complex(c_attrs) => {
            let cn = c_attrs.comps_name();
            match check_name(cn.as_str(), attrs.tp, in_tp, adjacency, cfg, Ghost(n)) {
                Some(Component::Char(map_name)) => get_component_in(
                    map_name,
                    attrs.tp,
                    in_tp,
                    c_in_place,
                    table,
                    cfg,
                    Ghost(n),
                ),
                Some(Component::Complex(map_attrs)) => get_component_from_attr(
                    map_attrs.comps_name(),
                    c_attrs.clone(),
                    c_in_place,
                    table,
                    cfg,
                    Ghost(n),
                ),
                None => get_component_from_attr(cn, c_attrs.clone(), c_in_place, table, cfg, Ghost(n)),
            }
        },
    }
}

/// The tree of the combination `attrs` named `name` among neighbours
/// `adjacency`.
fn get_component_from_attr(
    name: String,
    attrs: Attrs,
    adjacency: DataHV<[bool; 2]>,
    table: &Table,
    cfg: &Config,
    Ghost(n): Ghost<nat>,
) -> (r: CharTree)
    requires
        tree_from_attr(*cfg, table.data@, name@, attrs@, adjacency, n) is Some,
    ensures
        tree_from_attr(*cfg, table.data@, name@, attrs@, adjacency, n) == Some(r@),
    decreases n, 2nat,
{
    match attrs.tp {
        Type::Single => CharTree::new_single(name),
        Type::Scale(axis) => {
            let ghost m: nat = (n - 1) as nat;
            let ghost t = table.data@;
            let end = attrs.components.len();
            proof {
                lemma_comps_view(attrs.components@);
            }
            let mut children: Vec<CharTree> = Vec::new();
            let mut i: usize = 0;
            while i < end
                invariant
                    end == attrs.components@.len(),
                    end == attrs@.components.len(),
                    0 <= i <= end,
                    t == table.data@,
                    n > 0,
                    m == n - 1,
                    attrs.tp == Type::Scale(axis),
                    scale_children(*cfg, t, attrs@, axis, adjacency, end as nat, m) is Some,
                    scale_children(*cfg, t, attrs@, axis, adjacency, i as nat, m) == Some(
                        crate::construct::tree::trees_view(children@),
                    ),
                decreases end - i,
            {
                proof {
                    lemma_scale_children_prefix(*cfg, t, attrs@, axis, adjacency, end as nat, m, i as nat);
                }
                let child = scale_child_exec(&attrs, axis, adjacency, i, table, cfg, Ghost(m));
                let ghost pre = children@;
                children.push(child);
                proof {
                    lemma_trees_view(pre);
                    lemma_trees_view(children@);
                    assert(children@.drop_last() =~= pre);
                }
                i = i + 1;
            }
            let tp = attrs.tp;
            CharTree { name, tp, children }
        },
        Type::Surround(sp) => surround_tree_exec(name, attrs, sp, adjacency, table, cfg, Ghost(n)),
    }
}

/// The tree of the surround `attrs` named `name`, whose surrounding
/// component covers the sides `sp`.
fn surround_tree_exec(
    name: String,
    attrs: Attrs,
    sp: DataHV<Place>,
    adjacency: DataHV<[bool; 2]>,
    table: &Table,
    cfg: &Config,
    Ghost(n): Ghost<nat>,
) -> (r: CharTree)
    requires
        attrs.tp == Type::Surround(sp),
        surround_tree(*cfg, table.data@, name@, attrs@, sp, adjacency, n) is Some,
    ensures
        surround_tree(*cfg, table.data@, name@, attrs@, sp, adjacency, n) == Some(r@),
    decreases n, 1nat,
{
    proof {
        lemma_comps_view(attrs.components@);
    }
    let ghost m: nat = (n - 1) as nat;
    let (p_name, p_attrs) = remap_comp(&attrs.components[0], attrs.tp, Place::Start, adjacency, table, cfg, Ghost(n));
    let mut p_attrs = p_attrs;
    proof {
        lemma_comps_view(p_attrs.components@);
    }
    match p_attrs.tp {
        Type::Scale(c_axis) => {
            let place = *sp.hv_get(c_axis);
            let plen = p_attrs.components.len();
            let index = if place == Place::Start {
                plen - 1
            } else {
                0
            };
            let first = p_attrs.components[index].clone();
            let second = attrs.components[1].clone();
            let pair = vec![first, second];
            proof {
                lemma_comps_view(pair@);
                assert(comps_view(pair@) =~= seq![p_attrs@.components[index as int], attrs@.components[1]]);
            }
            let nested = Component::Complex(Attrs { tp: Type::Surround(sp), components: pair });
            let ghost old_comps = p_attrs.components@;
            p_attrs.components.set(index, nested);
            proof {
                lemma_comps_view(p_attrs.components@);
                lemma_comps_view(old_comps);
                assert(comps_view(p_attrs.components@) =~= comps_view(old_comps).update(index as int, nested@));
            }
            get_component_from_attr(name, p_attrs, adjacency, table, cfg, Ghost(m))
        },
        Type::Surround(cs) => {
            let ghost old_comps = p_attrs.components@;
            let ghost pv = p_attrs@.components;
            let sc1 = p_attrs.components.pop().unwrap();
            let pc = p_attrs.components.pop().unwrap();
            proof {
                assert(sc1 == old_comps[old_comps.len() - 1]);
                assert(pc == old_comps[old_comps.len() - 2]);
                assert(sc1@ == pv[pv.len() - 1]);
                assert(pc@ == pv[pv.len() - 2]);
            }
            let second = attrs.components[1].clone();
            let sc = if cs.v == Place::End {
                vec![second, sc1]
            } else {
                vec![sc1, second]
            };
            proof {
                lemma_comps_view(sc@);
                if cs.v == Place::End {
                    assert(comps_view(sc@) =~= seq![attrs@.components[1], pv[pv.len() - 1]]);
                } else {
                    assert(comps_view(sc@) =~= seq![pv[pv.len() - 1], attrs@.components[1]]);
                }
            }
            let inner = Component::Complex(Attrs { tp: Type::Scale(Axis::Vertical), components: sc });
            let both = vec![pc, inner];
            proof {
                lemma_comps_view(both@);
                assert(comps_view(both@) =~= seq![pv[pv.len() - 2], inner@]);
            }
            let new_attrs = Attrs { tp: attrs.tp, components: both };
            get_component_from_attr(name, new_attrs, adjacency, table, cfg, Ghost(m))
        },
        Type::Single => {
            let inner = surround_inner_exec(adjacency, sp);
            let (s_name, s_attrs) = remap_comp(&attrs.components[1], attrs.tp, Place::End, inner, table, cfg, Ghost(n));
            let a = get_component_from_attr(p_name, p_attrs, adjacency, table, cfg, Ghost(m));
            let b = get_component_from_attr(s_name, s_attrs, inner, table, cfg, Ghost(m));
            let children = vec![a, b];
            proof {
                lemma_trees_view(children@);
                assert(crate::construct::tree::trees_view(children@) =~= seq![a@, b@]);
            }
            CharTree { name, tp: attrs.tp, children }
        },
    }
}

/// The tree of the character `name`: looked up, replaced and broken down
/// through the table and the settings.
pub fn get_char_tree(name: String, table: &Table, cfg: &Config) -> (r: CharTree)
    requires
        exists|n: nat| #[trigger] tree_in(*cfg, table.data@, name@, Type::Single, Place::Start, no_neighbours(), n) is Some,
    ensures
        char_tree_spec(*cfg, *table, name@) == Some(r@),
        forall|n: nat|
            #[trigger] tree_in(*cfg, table.data@, name@, Type::Single, Place::Start, no_neighbours(), n) is Some
                ==> tree_in(*cfg, table.data@, name@, Type::Single, Place::Start, no_neighbours(), n) == Some(r@),
{
    let ghost n0 = choose|n: nat| #[trigger] tree_in(*cfg, table.data@, name@, Type::Single, Place::Start, no_neighbours(), n) is Some;
    let adjacency = DataHV { h: [false, false], v: [false, false] };
    let ghost name0 = name@;
    let r = get_component_in(name, Type::Single, Place::Start, adjacency, table, cfg, Ghost(n0));
    proof {
        assert forall|n: nat|
            #[trigger] tree_in(*cfg, table.data@, name0, Type::Single, Place::Start, no_neighbours(), n) is Some
            implies tree_in(*cfg, table.data@, name0, Type::Single, Place::Start, no_neighbours(), n) == Some(r@) by {
            if n <= n0 {
                lemma_tree_in_stable(*cfg, table.data@, name0, Type::Single, Place::Start, no_neighbours(), n, n0);
            } else {
                lemma_tree_in_stable(*cfg, table.data@, name0, Type::Single, Place::Start, no_neighbours(), n0, n);
            }
        }
    }
    r
}

/// Whether following replacements from `name` ends within `n` steps, with a
/// name at each step.
fn chain_ends_exec(cfg: &Config, sym: char, place: Place, name: &String, n: usize) -> (r: bool)
    ensures
        r == replace_chain_ends(*cfg, sym, place, name@, n as nat),
{
    let mut cur: String = name.clone();
    let mut k: usize = n;
    loop
        invariant
            replace_chain_ends(*cfg, sym, place, name@, n as nat) == replace_chain_ends(
                *cfg,
                sym,
                place,
                cur@,
                k as nat,
            ),
        decreases k,
    {
        match cfg.type_step(sym, place, &cur) {
            None => {
                return true;
            },
            Some(c) => {
                if !c.symbols_known() || k == 0 {
                    return false;
                }
                cur = c.name();
                k = k - 1;
            },
        }
    }
}

/// Whether replacing `name` in a structure of kind `tp` at `in_tp` ends
/// within `n` steps.
fn check_name_ok(
    name: &str,
    tp: Type,
    in_tp: Place,
    adjacency: DataHV<[bool; 2]>,
    cfg: &Config,
    n: usize,
) -> (r: bool)
    ensures
        r == (check_name_spec(*cfg, name@, tp, in_tp, adjacency, n as nat) is Some),
{
    if !tp.has_symbol() {
        return false;
    }
    let key = name.to_owned();
    chain_ends_exec(cfg, tp.symbol(), in_tp, &key, n)
}

/// The name and combination that `name` stands for after replacement within
/// `n` steps; `None` where that fails.
fn current_attr_checked(
    name: String,
    tp: Type,
    in_tp: Place,
    adjacency: DataHV<[bool; 2]>,
    table: &Table,
    cfg: &Config,
    n: usize,
) -> (r: Option<(String, Attrs)>)
    ensures
        match r {
            None => current_attr_spec(*cfg, table.data@, name@, tp, in_tp, adjacency, n as nat) is None,
            Some(p) => current_attr_spec(*cfg, table.data@, name@, tp, in_tp, adjacency, n as nat) == Some(
                (p.0@, p.1@),
            ),
        },
{
    if !check_name_ok(name.as_str(), tp, in_tp, adjacency, cfg, n) {
        return None;
    }
    let checked = check_name(name.as_str(), tp, in_tp, adjacency, cfg, Ghost(n as nat));
    match checked {
        Some(Component::Complex(a)) => {
            if a.symbols_known() {
                Some((a.comps_name(), a))
            } else {
                None
            }
        },
        _ => Some(get_current_attr(name, tp, in_tp, adjacency, table, cfg, Ghost(n as nat))),
    }
}

/// The name and combination that a component of a surround stands for after
/// replacement within `n` steps; `None` where that fails.
fn remap_checked(
    comp: &Component,
    tp: Type,
    in_tp: Place,
    in_place: DataHV<[bool; 2]>,
    table: &Table,
    cfg: &Config,
    n: usize,
) -> (r: Option<(String, Attrs)>)
    ensures
        match r {
            None => remap_spec(*cfg, table.data@, comp@, tp, in_tp, in_place, n as nat) is None,
            Some(p) => remap_spec(*cfg, table.data@, comp@, tp, in_tp, in_place, n as nat) == Some((p.0@, p.1@)),
        },
{
    match comp {
        Component::Char(c_name) => current_attr_checked(c_name.clone(), tp, in_tp, in_place, table, cfg, n),
        Component::Complex(c_attrs) => {
            if !c_attrs.symbols_known() {
                return None;
            }
            let cn = c_attrs.comps_name();
            if !check_name_ok(cn.as_str(), tp, in_tp, in_place, cfg, n) {
                return None;
            }
            match check_name(cn.as_str(), tp, in_tp, in_place, cfg, Ghost(n as nat)) {
                Some(Component::Char(map_name)) => current_attr_checked(map_name, tp, in_tp, in_place, table, cfg, n),
                Some(Component::Complex(map_attrs)) => {
                    if map_attrs.symbols_known() {
                        Some((map_attrs.comps_name(), map_attrs))
                    } else {
                        None
                    }
                },
                None => Some((cn, c_attrs.clone())),
            }
        },
    }
}

/// The tree of the character `name` placed in a structure of kind `tp` at
/// `in_tp` among neighbours `adjacency`, built within `n` levels; `None`
/// where that fails.
fn tree_in_checked(
    name: String,
    tp: Type,
    in_tp: Place,
    adjacency: DataHV<[bool; 2]>,
    table: &Table,
    cfg: &Config,
    n: usize,
) -> (r: Option<CharTree>)
    ensures
        match r {
            None => tree_in(*cfg, table.data@, name@, tp, in_tp, adjacency, n as nat) is None,
            Some(t) => tree_in(*cfg, table.data@, name@, tp, in_tp, adjacency, n as nat) == Some(t@),
        },
    decreases n, 3nat,
{
    match current_attr_checked(name, tp, in_tp, adjacency, table, cfg, n) {
        None => None,
        Some((c_name, attrs)) => from_attr_checked(c_name, attrs, adjacency, table, cfg, n),
    }
}

/// The tree of component `i` of the combination `attrs` side by side along
/// `axis`, built within `n` levels; `None` where that fails.
fn scale_child_checked(
    attrs: &Attrs,
    axis: Axis,
    adjacency: DataHV<[bool; 2]>,
    i: usize,
    table: &Table,
    cfg: &Config,
    n: usize,
) -> (r: Option<CharTree>)
    requires
        i < attrs.components@.len(),
    ensures
        match r {
            None => scale_child(*cfg, table.data@, attrs@, axis, adjacency, i as int, n as nat) is None,
            Some(t) => scale_child(*cfg, table.data@, attrs@, axis, adjacency, i as int, n as nat) == Some(t@),
        },
    decreases n, 4nat,
{
    proof {
        lemma_comps_view(attrs.components@);
    }
    let end = attrs.components.len();
    let c_in_place = scale_adjacency_exec(adjacency, axis, i, end);
    let in_tp = if i == 0 {
        Place::Start
    } else if i + 1 == end {
        Place::End
    } else {
        Place::Mind
    };
    assert(attrs@.components[i as int] == attrs.components@[i as int]@);
    match &attrs.components[i] {
        Component::Char(c_name) => tree_in_checked(c_name.clone(), attrs.tp, in_tp, c_in_place, table, cfg, n),
        Component::Complex(c_attrs) => {
            if !c_attrs.symbols_known() {
                return None;
            }
            let cn = c_attrs.comps_name();
            if !check_name_ok(cn.as_str(), attrs.tp, in_tp, adjacency, cfg, n) {
                return None;
            }
            match check_name(cn.as_str(), attrs.tp, in_tp, adjacency, cfg, Ghost(n as nat)) {
                Some(Component::Char(map_name)) => tree_in_checked(
                    map_name,
                    attrs.tp,
                    in_tp,
                    c_in_place,
                    table,
                    cfg,
                    n,
                ),
                Some(Component::Complex(map_attrs)) => {
                    if !map_attrs.symbols_known() {
                        return None;
                    }
                    from_attr_checked(map_attrs.comps_name(), c_attrs.clone(), c_in_place, table, cfg, n)
                },
                None => from_attr_checked(cn, c_attrs.clone(), c_in_place, table, cfg, n),
            }
        },
    }
}

/// The tree of the combination `attrs` named `name` among neighbours
/// `adjacency`, built within `n` levels; `None` where that fails.
fn from_attr_checked(
    name: String,
    attrs: Attrs,
    adjacency: DataHV<[bool; 2]>,
    table: &Table,
    cfg: &Config,
    n: usize,
) -> (r: Option<CharTree>)
    ensures
        match r {
            None => tree_from_attr(*cfg, table.data@, name@, attrs@, adjacency, n as nat) is None,
            Some(t) => tree_from_attr(*cfg, table.data@, name@, attrs@, adjacency, n as nat) == Some(t@),
        },
    decreases n, 2nat,
{
    match attrs.tp {
        Type::Single => Some(CharTree::new_single(name)),
        Type::Scale(axis) => {
            if n == 0 {
                return None;
            }
            let m = n - 1;
            let ghost t = table.data@;
            let end = attrs.components.len();
            proof {
                lemma_comps_view(attrs.components@);
            }
            let mut children: Vec<CharTree> = Vec::new();
            let mut i: usize = 0;
            while i < end
                invariant
                    end == attrs.components@.len(),
                    end == attrs@.components.len(),
                    0 <= i <= end,
                    t == table.data@,
                    n > 0,
                    m == n - 1,
                    attrs.tp == Type::Scale(axis),
                    scale_children(*cfg, t, attrs@, axis, adjacency, i as nat, m as nat) == Some(
                        crate::construct::tree::trees_view(children@),
                    ),
                decreases end - i,
            {
                match scale_child_checked(&attrs, axis, adjacency, i, table, cfg, m) {
                    None => {
                        proof {
                            if scale_children(*cfg, t, attrs@, axis, adjacency, end as nat, m as nat) is Some {
                                lemma_scale_children_prefix(
                                    *cfg,
                                    t,
                                    attrs@,
                                    axis,
                                    adjacency,
                                    end as nat,
                                    m as nat,
                                    i as nat,
                                );
                            }
                        }
                        return None;
                    },
                    Some(child) => {
                        let ghost pre = children@;
                        children.push(child);
                        proof {
                            lemma_trees_view(pre);
                            lemma_trees_view(children@);
                            assert(children@.drop_last() =~= pre);
                        }
                    },
                }
                i = i + 1;
            }
            let tp = attrs.tp;
            Some(CharTree { name, tp, children })
        },
        Type::Surround(sp) => surround_checked(name, attrs, sp, adjacency, table, cfg, n),
    }
}

/// The tree of the surround `attrs` named `name`, whose surrounding
/// component covers the sides `sp`, built within `n` levels; `None` where
/// that fails.
#[verifier::rlimit(60)]
#[verifier::spinoff_prover]
fn surround_checked(
    name: String,
    attrs: Attrs,
    sp: DataHV<Place>,
    adjacency: DataHV<[bool; 2]>,
    table: &Table,
    cfg: &Config,
    n: usize,
) -> (r: Option<CharTree>)
    requires
        attrs.tp == Type::Surround(sp),
    ensures
        match r {
            None => surround_tree(*cfg, table.data@, name@, attrs@, sp, adjacency, n as nat) is None,
            Some(t) => surround_tree(*cfg, table.data@, name@, attrs@, sp, adjacency, n as nat) == Some(t@),
        },
    decreases n, 1nat,
{
    proof {
        lemma_comps_view(attrs.components@);
    }
    if n == 0 || attrs.components.len() < 2 {
        return None;
    }
    let m = n - 1;
    let primary = remap_checked(&attrs.components[0], attrs.tp, Place::Start, adjacency, table, cfg, n);
    let (p_name, p_attrs) = match primary {
        None => {
            return None;
        },
        Some(p) => p,
    };
    let mut p_attrs = p_attrs;
    proof {
        lemma_comps_view(p_attrs.components@);
    }
    match p_attrs.tp {
        Type::Scale(c_axis) => {
            let place = *sp.hv_get(c_axis);
            let plen = p_attrs.components.len();
            if plen == 0 || place == Place::Mind {
                return None;
            }
            let index = if place == Place::Start {
                plen - 1
            } else {
                0
            };
            let first = p_attrs.components[index].clone();
            let second = attrs.components[1].clone();
            let pair = vec![first, second];
            proof {
                lemma_comps_view(pair@);
                assert(comps_view(pair@) =~= seq![p_attrs@.components[index as int], attrs@.components[1]]);
            }
            let nested = Component::Complex(Attrs { tp: Type::Surround(sp), components: pair });
            let ghost old_comps = p_attrs.components@;
            p_attrs.components.set(index, nested);
            proof {
                lemma_comps_view(p_attrs.components@);
                lemma_comps_view(old_comps);
                assert(comps_view(p_attrs.components@) =~= comps_view(old_comps).update(index as int, nested@));
            }
            from_attr_checked(name, p_attrs, adjacency, table, cfg, m)
        },
        Type::Surround(cs) => {
            if !(cs.h == sp.h && cs.v == sp.v) || p_attrs.components.len() < 2 {
                return None;
            }
            let ghost old_comps = p_attrs.components@;
            let ghost pv = p_attrs@.components;
            let sc1 = p_attrs.components.pop().unwrap();
            let pc = p_attrs.components.pop().unwrap();
            proof {
                assert(sc1 == old_comps[old_comps.len() - 1]);
                assert(pc == old_comps[old_comps.len() - 2]);
                assert(sc1@ == pv[pv.len() - 1]);
                assert(pc@ == pv[pv.len() - 2]);
            }
            let second = attrs.components[1].clone();
            let sc = if cs.v == Place::End {
                vec![second, sc1]
            } else {
                vec![sc1, second]
            };
            proof {
                lemma_comps_view(sc@);
                if cs.v == Place::End {
                    assert(comps_view(sc@) =~= seq![attrs@.components[1], pv[pv.len() - 1]]);
                } else {
                    assert(comps_view(sc@) =~= seq![pv[pv.len() - 1], attrs@.components[1]]);
                }
            }
            let inner = Component::Complex(Attrs { tp: Type::Scale(Axis::Vertical), components: sc });
            let both = vec![pc, inner];
            proof {
                lemma_comps_view(both@);
                assert(comps_view(both@) =~= seq![pv[pv.len() - 2], inner@]);
            }
            let new_attrs = Attrs { tp: attrs.tp, components: both };
            from_attr_checked(name, new_attrs, adjacency, table, cfg, m)
        },
        Type::Single => {
            let inner = surround_inner_exec(adjacency, sp);
            let secondary = remap_checked(&attrs.components[1], attrs.tp, Place::End, inner, table, cfg, n);
            let (s_name, s_attrs) = match secondary {
                None => {
                    return None;
                },
                Some(p) => p,
            };
            let a = match from_attr_checked(p_name, p_attrs, adjacency, table, cfg, m) {
                None => {
                    return None;
                },
                Some(a) => a,
            };
            let b = match from_attr_checked(s_name, s_attrs, inner, table, cfg, m) {
                None => {
                    return None;
                },
                Some(b) => b,
            };
            let children = vec![a, b];
            proof {
                lemma_trees_view(children@);
                assert(crate::construct::tree::trees_view(children@) =~= seq![a@, b@]);
            }
            Some(CharTree { name, tp: attrs.tp, children })
        },
    }
}

/// The tree of the character `name`, built within `depth` levels of
/// breaking down and replacement steps: `None` exactly where it cannot be
/// built within them, because the table or the replacements lead deeper, or
/// because a kind has no description character or a surround cannot be
/// broken down. A tree built within some depth is the tree of the character.
pub fn get_char_tree_within(name: String, table: &Table, cfg: &Config, depth: usize) -> (r: Option<CharTree>)
    ensures
        match r {
            None => tree_in(*cfg, table.data@, name@, Type::Single, Place::Start, no_neighbours(), depth as nat) is None,
            Some(t) => tree_in(*cfg, table.data@, name@, Type::Single, Place::Start, no_neighbours(), depth as nat)
                == Some(t@) && char_tree_spec(*cfg, *table, name@) == Some(t@),
        },
{
    let ghost name0 = name@;
    let adjacency = DataHV { h: [false, false], v: [false, false] };
    let r = tree_in_checked(name, Type::Single, Place::Start, adjacency, table, cfg, depth);
    proof {
        if r is Some {
            let d = depth as nat;
            assert(tree_in(*cfg, table.data@, name0, Type::Single, Place::Start, no_neighbours(), d) is Some);
            let n0 = choose|n: nat| #[trigger] tree_in(*cfg, table.data@, name0, Type::Single, Place::Start, no_neighbours(), n) is Some;
            if n0 <= d {
                lemma_tree_in_stable(*cfg, table.data@, name0, Type::Single, Place::Start, no_neighbours(), n0, d);
            } else {
                lemma_tree_in_stable(*cfg, table.data@, name0, Type::Single, Place::Start, no_neighbours(), d, n0);
            }
        }
    }
    r
}

} // verus!
