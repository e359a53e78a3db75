use vstd::prelude::*;
use crate::construct::types::Type;

verus! {

/// How a character breaks down: its name, its kind, and the trees of its
/// components in order.
#[derive(Debug)]
pub struct CharTree {
    pub name: String,
    pub tp: Type,
    pub children: Vec<CharTree>,
}

/// What a character tree stands for.
pub struct CharTreeView {
    pub name: Seq<char>,
    pub tp: Type,
    pub children: Seq<CharTreeView>,
}

/// What the tree stands for.
pub open spec fn tree_view(t: CharTree) -> CharTreeView
    decreases t,
{
    CharTreeView { name: t.name@, tp: t.tp, children: trees_view(t.children@) }
}

/// What each of the trees stands for.
pub open spec fn trees_view(s: Seq<CharTree>) -> Seq<CharTreeView>
    decreases s,
{
    if s.len() == 0 {
        Seq::empty()
    } else {
        trees_view(s.drop_last()).push(tree_view(s.last()))
    }
}

impl View for CharTree {
    type V = CharTreeView;

    open spec fn view(&self) -> CharTreeView {
        tree_view(*self)
    }
}

/// Each tree's view stands at its own place.
pub proof fn lemma_trees_view(s: Seq<CharTree>)
    ensures
        trees_view(s).len() == s.len(),
        forall|i: int| 0 <= i < s.len() ==> #[trigger] trees_view(s)[i] == tree_view(s[i]),
    decreases s.len(),
{
    if s.len() > 0 {
        lemma_trees_view(s.drop_last());
    }
}

impl CharTree {
    /// The tree of a character that is a single component.
    pub fn new_single(name: String) -> (r: Self)
        ensures
            r@ == (CharTreeView { name: name@, tp: Type::Single, children: Seq::empty() }),
    {
        let r = CharTree { name, tp: Type::Single, children: Vec::new() };
        proof {
            assert(trees_view(r.children@) =~= Seq::<CharTreeView>::empty());
        }
        r
    }
}

} // verus!
