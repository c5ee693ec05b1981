//! Laws of the focus: keys never leave more than one leaf with a focus.

use vstd::prelude::*;
use crate::event::{Key, MouseAction};
use crate::layout::Direction;
use crate::model::focus::{key_step, leaf_after_key, with_focus};
use crate::model::geometry::{child_offset, lemma_one_child_contains, within_reach};
use crate::model::pointer::{
    after_drag, after_mouse, along, depth, lemma_drag_keeps_depths, lemma_max_depth_bounds,
    lemma_mouse_branch,
};
use crate::model::search::{
    after_key, focus_in_reach, focused_path, highlighted_at, leads_to_leaf, leaf_at,
    lemma_focus_from, lemma_focus_path, lemma_path_at_covers, lemma_within_reach, next_pos,
    path_at, position_at, with_node,
};
use crate::model::{BranchView, LeafView, NodeView};
use crate::pos::ComponentPos;
use crate::Focus;

verus! {

/// The number of leaves of the tree that have any focus.
pub open spec fn focus_count(n: NodeView) -> nat
    decreases n, 0int,
{
    match n {
        NodeView::Leaf(l) => if l.focus != Focus::NoFocus {
            1
        } else {
            0
        },
        NodeView::Branch(b) => count_upto(b.children, b.children.len() as int),
    }
}

/// The number of leaves with any focus below the children before `upto`.
pub open spec fn count_upto(children: Seq<NodeView>, upto: int) -> nat
    decreases children, upto,
{
    if upto <= 0 || upto > children.len() {
        0
    } else {
        count_upto(children, upto - 1) + focus_count(children[upto - 1])
    }
}

/// Replacing one child changes the count by what that child's count
/// changes.
proof fn lemma_count_update(children: Seq<NodeView>, i: int, sub: NodeView, upto: int)
    requires
        0 <= i < children.len(),
        0 <= upto <= children.len(),
    ensures
        count_upto(children.update(i, sub), upto) == count_upto(children, upto) + (if i < upto {
            focus_count(sub) - focus_count(children[i])
        } else {
            0
        }),
    decreases upto,
{
    if upto > 0 {
        lemma_count_update(children, i, sub, upto - 1);
    }
}

/// Replacing a leaf changes the count by what the leaf's focus changes.
pub proof fn lemma_count_with_leaf(n: NodeView, path: Seq<int>, leaf: LeafView)
    requires
        leads_to_leaf(n, path),
    ensures
        focus_count(with_node(n, path, NodeView::Leaf(leaf))) == focus_count(n) - focus_count(
            NodeView::Leaf(leaf_at(n, path)),
        ) + focus_count(NodeView::Leaf(leaf)),
        leads_to_leaf(with_node(n, path, NodeView::Leaf(leaf)), path),
        with_node(n, path, NodeView::Leaf(leaf)) is Branch == n is Branch,
    decreases path.len(),
{
    if let NodeView::Branch(b) = n {
        let i = path[0];
        lemma_count_with_leaf(b.children[i], path.skip(1), leaf);
        lemma_count_update(
            b.children,
            i,
            with_node(b.children[i], path.skip(1), NodeView::Leaf(leaf)),
            b.children.len() as int,
        );
    }
}

/// No leaf before `upto` has a focus where none is found below any of
/// those children.
proof fn lemma_count_none(children: Seq<NodeView>, upto: int)
    requires
        0 <= upto <= children.len(),
        forall|j: int| 0 <= j < upto ==> focused_path(#[trigger] children[j]) is None,
    ensures
        count_upto(children, upto) == 0,
    decreases children, upto,
{
    if upto > 0 {
        lemma_count_none(children, upto - 1);
        lemma_found_none(children[upto - 1]);
    }
}

/// A tree in which no focused leaf is found has none.
pub proof fn lemma_found_none(n: NodeView)
    requires
        focused_path(n) is None,
    ensures
        focus_count(n) == 0,
    decreases n, 0int,
{
    if let NodeView::Branch(b) = n {
        lemma_focus_from(b, 0);
        lemma_count_none(b.children, b.children.len() as int);
    }
}

/// Highlighting the leaf at a cell adds at most one focused leaf.
proof fn lemma_highlighted_count(n: NodeView, x: int, y: int)
    requires
        n is Branch,
    ensures
        focus_count(highlighted_at(n, x, y)) <= focus_count(n) + 1,
{
    if let Some(q) = path_at(n, x, y) {
        lemma_path_at_covers(n, x, y);
        lemma_count_with_leaf(n, q, with_focus(leaf_at(n, q), Focus::PartialFocus));
    }
}

/// **Focus exclusivity.** A key leaves at most one leaf with a focus in a
/// tree that had at most one.
pub proof fn lemma_key_keeps_one_focus(n: NodeView, key: Key, redraw: bool)
    requires
        focus_count(n) <= 1,
    ensures
        focus_count(after_key(n, key, redraw)) <= 1,
{
    if let NodeView::Branch(b) = n {
        match focused_path(n) {
            Some(p) => {
                lemma_focus_path(n);
                let leaf = leaf_at(n, p);
                let pressed = leaf_after_key(leaf, key, redraw);
                let tree = with_node(n, p, NodeView::Leaf(pressed));
                lemma_count_with_leaf(n, p, pressed);
                if let Some(border) = key_step(leaf.focus, key).exit {
                    let at = ComponentPos {
                        x: position_at(n, p).0 as u16,
                        y: position_at(n, p).1 as u16,
                    };
                    match next_pos(at, border, leaf.width, leaf.height, b.width, b.height) {
                        Some(next) => {
                            lemma_highlighted_count(tree, next.x as int, next.y as int);
                        },
                        None => {
                            lemma_count_with_leaf(
                                n,
                                p,
                                with_focus(pressed, Focus::PartialFocus),
                            );
                        },
                    }
                }
            },
            None => {
                lemma_found_none(n);
                lemma_highlighted_count(n, 0, 0);
            },
        }
    }
}

/// A node that the pointer has left has no focused leaf.
pub proof fn lemma_unfocused_count(n: NodeView)
    ensures
        focus_count(n.unfocused()) == 0,
    decreases n,
{
    if let NodeView::Branch(b) = n {
        let after = n.unfocused()->Branch_0;
        assert forall|i: int| 0 <= i < after.children.len() implies focus_count(
            #[trigger] after.children[i],
        ) == 0 by {
            lemma_unfocused_count(b.children[i]);
        }
        lemma_count_single(after.children, after.children.len() as int, 0);
    }
}

/// Children of which all but one have no focused leaf have as many as
/// that one.
proof fn lemma_count_single(children: Seq<NodeView>, upto: int, at: int)
    requires
        0 <= upto <= children.len(),
        forall|i: int| 0 <= i < children.len() && i != at ==> focus_count(#[trigger] children[i]) == 0,
    ensures
        count_upto(children, upto) == (if 0 <= at < upto {
            focus_count(children[at])
        } else {
            0
        }),
    decreases upto,
{
    if upto > 0 {
        lemma_count_single(children, upto - 1, at);
    }
}

/// **Focus exclusivity, for the mouse.** A mouse event leaves at most one
/// leaf with a focus in a tree that had at most one.
pub proof fn lemma_mouse_keeps_one_focus(
    n: NodeView,
    x: int,
    y: int,
    action: Option<MouseAction>,
    redraw: bool,
)
    requires
        focus_count(n) <= 1,
    ensures
        focus_count(after_mouse(n, x, y, action, redraw)) <= 1,
{
    reveal(after_mouse);
    match action {
        None => {
            lemma_unfocused_count(n);
        },
        Some(MouseAction::Moved) => {},
        Some(a) => {
            lemma_mouse_any_focus(n, x, y, a, redraw);
        },
    }
}

/// A press, drag or other action of the mouse leaves at most one leaf with
/// a focus, whatever the tree was.
pub proof fn lemma_mouse_any_focus(n: NodeView, x: int, y: int, action: MouseAction, redraw: bool)
    requires
        action != MouseAction::Moved,
    ensures
        focus_count(after_mouse(n, x, y, Some(action), redraw)) <= 1,
    decreases depth(n),
{
    reveal(after_mouse);
    if let NodeView::Branch(b) = n {
        let offset = along(b.orientation, x, y) as u16;
        let dragged = after_drag(b, offset, action);
        let after = after_mouse(n, x, y, Some(action), redraw)->Branch_0;
        lemma_mouse_branch(b, x, y, action, redraw);
        lemma_drag_keeps_depths(b, offset, action);
        let hit = choose|i: int| dragged.child_contains(i, x, y);
        assert forall|i: int|
            0 <= i < after.children.len() && i != hit implies focus_count(
            #[trigger] after.children[i],
        ) == 0 by {
            if dragged.child_contains(i, x, y) {
                lemma_one_child_contains(dragged, i, hit, x, y);
            }
            lemma_unfocused_count(dragged.children[i]);
        }
        lemma_count_single(after.children, after.children.len() as int, hit);
        if dragged.child_contains(hit, x, y) {
            lemma_max_depth_bounds(b.children, b.children.len() as int, hit);
            lemma_mouse_any_focus(
                dragged.children[hit],
                x - dragged.child_x(hit),
                y - dragged.child_y(hit),
                action,
                redraw,
            );
        } else if 0 <= hit < after.children.len() {
            lemma_unfocused_count(dragged.children[hit]);
        }
    }
}

/// Children of the same extents start at the same places.
proof fn lemma_same_offsets(a: Seq<NodeView>, b: Seq<NodeView>, axis: Direction, upto: int)
    requires
        a.len() == b.len(),
        0 <= upto <= a.len(),
        forall|i: int| 0 <= i < a.len() ==> (#[trigger] a[i]).extent(axis) == b[i].extent(axis),
    ensures
        child_offset(a, axis, upto) == child_offset(b, axis, upto),
    decreases upto,
{
    if upto > 0 {
        lemma_same_offsets(a, b, axis, upto - 1);
    }
}

/// A tree stays within reach when a leaf of it is replaced by one of the
/// same size.
pub proof fn lemma_with_leaf_keeps_reach(
    n: NodeView,
    x: int,
    y: int,
    path: Seq<int>,
    leaf: LeafView,
)
    requires
        within_reach(n, x, y),
        leads_to_leaf(n, path),
        leaf.width == leaf_at(n, path).width,
        leaf.height == leaf_at(n, path).height,
    ensures
        within_reach(with_node(n, path, NodeView::Leaf(leaf)), x, y),
        with_node(n, path, NodeView::Leaf(leaf)).width() == n.width(),
        with_node(n, path, NodeView::Leaf(leaf)).height() == n.height(),
    decreases path.len(),
{
    if let NodeView::Branch(b) = n {
        let i = path[0];
        let sub = with_node(b.children[i], path.skip(1), NodeView::Leaf(leaf));
        let after = BranchView { children: b.children.update(i, sub), ..b };
        assert(within_reach(b.children[i], x + b.child_x(i), y + b.child_y(i)));
        lemma_with_leaf_keeps_reach(
            b.children[i],
            x + b.child_x(i),
            y + b.child_y(i),
            path.skip(1),
            leaf,
        );
        assert forall|j: int| 0 <= j < after.children.len() implies within_reach(
            #[trigger] after.children[j],
            x + after.child_x(j),
            y + after.child_y(j),
        ) by {
            lemma_same_offsets(b.children, after.children, b.orientation, j);
            assert(within_reach(b.children[j], x + b.child_x(j), y + b.child_y(j)));
        }
    }
}

/// **Keys keep a tree within reach.** A tree in which every node starts
/// at a column and row that fit `u16` is such a tree after a key, so that
/// it can take the next key.
pub proof fn lemma_key_keeps_reach(n: NodeView, key: Key, redraw: bool)
    requires
        within_reach(n, 0, 0),
    ensures
        within_reach(after_key(n, key, redraw), 0, 0),
        after_key(n, key, redraw) matches NodeView::Branch(b) ==> focus_in_reach(
            after_key(n, key, redraw),
        ),
{
    if let NodeView::Branch(b) = n {
        match focused_path(n) {
            Some(p) => {
                lemma_focus_path(n);
                let leaf = leaf_at(n, p);
                let pressed = leaf_after_key(leaf, key, redraw);
                let tree = with_node(n, p, NodeView::Leaf(pressed));
                lemma_with_leaf_keeps_reach(n, 0, 0, p, pressed);
                lemma_with_leaf_keeps_reach(n, 0, 0, p, with_focus(pressed, Focus::PartialFocus));
                lemma_count_with_leaf(n, p, pressed);
                lemma_highlighted_reach(tree);
            },
            None => {
                lemma_highlighted_reach(n);
            },
        }
    }
    if let NodeView::Branch(b) = after_key(n, key, redraw) {
        lemma_within_reach(b, Seq::empty());
    }
}

/// Highlighting the leaf at a cell keeps a tree within reach.
proof fn lemma_highlighted_reach(n: NodeView)
    requires
        n is Branch,
        within_reach(n, 0, 0),
    ensures
        forall|x: int, y: int| within_reach(#[trigger] highlighted_at(n, x, y), 0, 0),
{
    assert forall|x: int, y: int| within_reach(#[trigger] highlighted_at(n, x, y), 0, 0) by {
        if let Some(q) = path_at(n, x, y) {
            lemma_path_at_covers(n, x, y);
            lemma_with_leaf_keeps_reach(
                n,
                0,
                0,
                q,
                with_focus(leaf_at(n, q), Focus::PartialFocus),
            );
        }
    }
}

} // verus!
