//! Laws of the searches: what is found by position covers the position,
//! and what is found by name has that name.

use vstd::prelude::*;
use crate::model::search::{
    head_len, leads_to_leaf, leaf_at, lemma_named_leaf, lemma_path_at_covers, named_path, path_at,
    path_head, path_tail, position_at,
};
use crate::model::{BranchView, NodeView};

verus! {

/// The names of the nodes on the way down `path`, below the node itself,
/// joined by dots.
pub open spec fn dotted_name(n: NodeView, path: Seq<int>) -> Seq<char>
    decreases path.len(),
{
    match n {
        NodeView::Leaf(_) => Seq::empty(),
        NodeView::Branch(b) => if path.len() > 0 && 0 <= path[0] < b.children.len() {
            if path.len() == 1 {
                b.children[path[0]].name()
            } else {
                b.children[path[0]].name() + seq!['.'] + dotted_name(
                    b.children[path[0]],
                    path.skip(1),
                )
            }
        } else {
            Seq::empty()
        },
    }
}

/// The first segment of a path ends at its first dot.
proof fn lemma_head_ends_at_dot(path: Seq<char>)
    ensures
        0 <= head_len(path) <= path.len(),
        head_len(path) < path.len() ==> path[head_len(path)] == '.',
    decreases path.len(),
{
    if path.len() > 0 && path[0] != '.' {
        lemma_head_ends_at_dot(path.skip(1));
    }
}

/// **Position agreement.** The leaf that is found at a cell of a container
/// covers that cell: the cell lies in the rectangle that starts where the
/// leaf starts and has the size of the leaf.
pub proof fn lemma_found_leaf_covers(b: BranchView, x: int, y: int)
    requires
        path_at(NodeView::Branch(b), x, y) is Some,
    ensures
        ({
            let n = NodeView::Branch(b);
            let p = path_at(n, x, y)->Some_0;
            &&& leads_to_leaf(n, p)
            &&& position_at(n, p).0 <= x < position_at(n, p).0 + leaf_at(n, p).width
            &&& position_at(n, p).1 <= y < position_at(n, p).1 + leaf_at(n, p).height
        }),
{
    lemma_path_at_covers(NodeView::Branch(b), x, y);
}

/// **Name agreement.** The names on the way to the leaf that a dotted path
/// finds, joined by dots, are that path.
pub proof fn lemma_found_leaf_is_named(b: BranchView, path: Seq<char>)
    requires
        named_path(b.children, path) is Some,
    ensures
        leads_to_leaf(NodeView::Branch(b), named_path(b.children, path)->Some_0),
        dotted_name(NodeView::Branch(b), named_path(b.children, path)->Some_0) == path,
    decreases b.children,
{
    let p = named_path(b.children, path)->Some_0;
    lemma_named_leaf(b, path, 0);
    lemma_head_ends_at_dot(path);
    let child = b.children[p[0]];
    let k = head_len(path);
    match child {
        NodeView::Leaf(_) => {
            assert(p.skip(1) =~= Seq::<int>::empty());
            assert(path_head(path) =~= path);
        },
        NodeView::Branch(inner) => {
            let rest = path_tail(path)->Some_0;
            lemma_found_leaf_is_named(inner, rest);
            lemma_named_leaf(inner, rest, 0);
            assert(path =~= path_head(path) + seq!['.'] + rest);
        },
    }
}

} // verus!
