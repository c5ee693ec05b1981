//! Finding nodes in a tree: by focus, by position and by name. A node is
//! addressed by its path, the indices of the children on the way down to
//! it.

use vstd::prelude::*;
use crate::event::Key;
use crate::model::focus::{key_step, leaf_after_key, with_focus};
use crate::model::geometry::{lemma_child_at, within_reach};
use crate::model::{first_focus, BranchView, LeafView, NodeView};
use crate::pos::ComponentPos;
use crate::{Border, Focus};

verus! {

/// The node at the end of `path`. A path that leads nowhere ends at the
/// last node that it reached.
pub open spec fn node_at(n: NodeView, path: Seq<int>) -> NodeView
    decreases path.len(),
{
    match n {
        NodeView::Leaf(_) => n,
        NodeView::Branch(b) => if path.len() > 0 && 0 <= path[0] < b.children.len() {
            node_at(b.children[path[0]], path.skip(1))
        } else {
            n
        },
    }
}

/// Whether `path` leads from the node down to a leaf.
pub open spec fn leads_to_leaf(n: NodeView, path: Seq<int>) -> bool
    decreases path.len(),
{
    match n {
        NodeView::Leaf(_) => path.len() == 0,
        NodeView::Branch(b) => path.len() > 0 && 0 <= path[0] < b.children.len() && leads_to_leaf(
            b.children[path[0]],
            path.skip(1),
        ),
    }
}

/// The leaf at the end of `path`.
pub open spec fn leaf_at(n: NodeView, path: Seq<int>) -> LeafView {
    node_at(n, path)->Leaf_0
}

/// The column and row at which the node at the end of `path` starts,
/// relative to the node at its beginning.
pub open spec fn position_at(n: NodeView, path: Seq<int>) -> (int, int)
    decreases path.len(),
{
    match n {
        NodeView::Leaf(_) => (0, 0),
        NodeView::Branch(b) => if path.len() > 0 && 0 <= path[0] < b.children.len() {
            let below = position_at(b.children[path[0]], path.skip(1));
            (b.child_x(path[0]) + below.0, b.child_y(path[0]) + below.1)
        } else {
            (0, 0)
        },
    }
}

/// The tree with the node at the end of `path` replaced by `sub`.
pub open spec fn with_node(n: NodeView, path: Seq<int>, sub: NodeView) -> NodeView
    decreases path.len(),
{
    if path.len() == 0 {
        sub
    } else {
        match n {
            NodeView::Leaf(_) => n,
            NodeView::Branch(b) => if 0 <= path[0] < b.children.len() {
                NodeView::Branch(
                    BranchView {
                        children: b.children.update(
                            path[0],
                            with_node(b.children[path[0]], path.skip(1), sub),
                        ),
                        ..b
                    },
                )
            } else {
                n
            },
        }
    }
}

/// The path to the first leaf, from left to right, that has any focus.
pub open spec fn focused_path(n: NodeView) -> Option<Seq<int>>
    decreases n, 0int,
{
    match n {
        NodeView::Leaf(l) => if l.focus != Focus::NoFocus {
            Some(Seq::empty())
        } else {
            None
        },
        NodeView::Branch(b) => focused_from(b.children, 0),
    }
}

/// The path to the first leaf with any focus below the children from
/// index `from` on.
pub open spec fn focused_from(children: Seq<NodeView>, from: int) -> Option<Seq<int>>
    decreases children, children.len() - from,
{
    if from < 0 || from >= children.len() {
        None
    } else {
        match focused_path(children[from]) {
            Some(p) => Some(seq![from] + p),
            None => focused_from(children, from + 1),
        }
    }
}

/// The path to the leaf that covers the cell `(x, y)`, relative to the
/// node: down through the child that contains the cell, at every level.
pub open spec fn path_at(n: NodeView, x: int, y: int) -> Option<Seq<int>>
    decreases n,
{
    match n {
        NodeView::Leaf(_) => Some(Seq::empty()),
        NodeView::Branch(b) => match b.child_at(x, y) {
            Some(i) => if 0 <= i < b.children.len() {
                match path_at(b.children[i], x - b.child_x(i), y - b.child_y(i)) {
                    Some(p) => Some(seq![i] + p),
                    None => None,
                }
            } else {
                None
            },
            None => None,
        },
    }
}

/// The index of the first dot in `path`, or its length where it has none.
pub open spec fn head_len(path: Seq<char>) -> int
    decreases path.len(),
{
    if path.len() == 0 || path[0] == '.' {
        0
    } else {
        1 + head_len(path.skip(1))
    }
}

/// The first segment of a dotted path.
pub open spec fn path_head(path: Seq<char>) -> Seq<char> {
    path.subrange(0, head_len(path))
}

/// What follows the first dot of a dotted path, if it has one.
pub open spec fn path_tail(path: Seq<char>) -> Option<Seq<char>> {
    if head_len(path) < path.len() {
        Some(path.subrange(head_len(path) + 1, path.len() as int))
    } else {
        None
    }
}

/// The way to the leaf that a dotted path names, below a container with
/// the given children: the first segment names a child; a leaf must end
/// the path, and a container must find the rest of the path below it. The
/// first child that does so counts.
pub open spec fn named_path(children: Seq<NodeView>, path: Seq<char>) -> Option<Seq<int>>
    decreases children, 1int, 0int,
{
    named_from(children, path, 0)
}

/// As `named_path`, among the children from index `from` on.
pub open spec fn named_from(children: Seq<NodeView>, path: Seq<char>, from: int) -> Option<
    Seq<int>,
>
    decreases children, 0int, children.len() - from,
{
    if from < 0 || from >= children.len() {
        None
    } else {
        match named_in(children[from], path) {
            Some(p) => Some(seq![from] + p),
            None => named_from(children, path, from + 1),
        }
    }
}

/// The way from a child on to the leaf that a dotted path names, if the
/// path starts with the child's name.
pub open spec fn named_in(child: NodeView, path: Seq<char>) -> Option<Seq<int>>
    decreases child, 2int, 0int,
{
    if child.name() != path_head(path) {
        None
    } else {
        match child {
            NodeView::Leaf(_) => if path_tail(path) is None {
                Some(Seq::empty())
            } else {
                None
            },
            NodeView::Branch(b) => match path_tail(path) {
                Some(rest) => named_path(b.children, rest),
                None => None,
            },
        }
    }
}

/// Whether the leaf that has the focus, if there is one, starts at a
/// column and row that fit `u16`.
pub open spec fn focus_in_reach(n: NodeView) -> bool {
    match focused_path(n) {
        Some(p) => position_at(n, p).0 <= u16::MAX && position_at(n, p).1 <= u16::MAX,
        None => true,
    }
}

/// Whether the leaf that a dotted path names below the children, if there
/// is one, starts at a column and row that fit `u16`.
pub open spec fn name_in_reach(b: BranchView, path: Seq<char>) -> bool {
    match named_path(b.children, path) {
        Some(p) => position_at(NodeView::Branch(b), p).0 <= u16::MAX && position_at(
            NodeView::Branch(b),
            p,
        ).1 <= u16::MAX,
        None => true,
    }
}

/// The tree with the leaf that covers the cell `(x, y)` highlighted.
pub open spec fn highlighted_at(n: NodeView, x: int, y: int) -> NodeView {
    match path_at(n, x, y) {
        Some(q) => with_node(
            n,
            q,
            NodeView::Leaf(with_focus(leaf_at(n, q), Focus::PartialFocus)),
        ),
        None => n,
    }
}

/// The position one step across `border` from a node at `pos`, if that
/// position lies inside the container.
pub open spec fn next_pos(
    pos: ComponentPos,
    border: Border,
    component_width: u16,
    component_height: u16,
    container_width: u16,
    container_height: u16,
) -> Option<ComponentPos> {
    match border {
        Border::Top => if pos.y > 0 {
            Some(ComponentPos { x: pos.x, y: (pos.y - 1) as u16 })
        } else {
            None
        },
        Border::Bottom => if pos.y + component_height < container_height {
            Some(ComponentPos { x: pos.x, y: (pos.y + component_height) as u16 })
        } else {
            None
        },
        Border::Left => if pos.x > 0 {
            Some(ComponentPos { x: (pos.x - 1) as u16, y: pos.y })
        } else {
            None
        },
        Border::Right => if pos.x + component_width < container_width {
            Some(ComponentPos { x: (pos.x + component_width) as u16, y: pos.y })
        } else {
            None
        },
    }
}

/// Whether a key gives the first focus to a tree that has none.
pub open spec fn starts_focus(key: Key) -> bool {
    key == Key::Enter || key == Key::Up || key == Key::Down || key == Key::Left || key
        == Key::Right
}

/// A node after a key, where `redraw` is what the widget answered that the
/// key reached, if it reached one. A container hands the key to the leaf
/// that has the focus. Where the leaf gives the focus up through a
/// border, the leaf one step across that border is highlighted; at the
/// edge of the container the leaf itself is highlighted again, and where
/// no leaf covers the place the focus is lost. In a container without
/// focus, Enter and the arrow keys highlight the leaf at the origin.
pub open spec fn after_key(n: NodeView, key: Key, redraw: bool) -> NodeView {
    match n {
        NodeView::Leaf(l) => NodeView::Leaf(leaf_after_key(l, key, redraw)),
        NodeView::Branch(b) => match focused_path(n) {
            Some(p) => {
                let leaf = leaf_at(n, p);
                let pressed = leaf_after_key(leaf, key, redraw);
                let tree = with_node(n, p, NodeView::Leaf(pressed));
                match key_step(leaf.focus, key).exit {
                    None => tree,
                    Some(border) => {
                        let at = ComponentPos {
                            x: position_at(n, p).0 as u16,
                            y: position_at(n, p).1 as u16,
                        };
                        match next_pos(at, border, leaf.width, leaf.height, b.width, b.height) {
                            Some(next) => highlighted_at(tree, next.x as int, next.y as int),
                            None => with_node(
                                n,
                                p,
                                NodeView::Leaf(with_focus(pressed, Focus::PartialFocus)),
                            ),
                        }
                    },
                }
            },
            None => if starts_focus(key) {
                highlighted_at(n, 0, 0)
            } else {
                n
            },
        },
    }
}

/// Whether a key is handed on to the widget of the leaf at the end of
/// `path`: that leaf is the one that has the focus, and its focus machine
/// hands the key on.
pub open spec fn key_reaches(n: NodeView, key: Key, path: Seq<int>) -> bool {
    match focused_path(n) {
        Some(p) => key_step(leaf_at(n, p).focus, key).forward && p.is_prefix_of(path),
        None => false,
    }
}

/// The border through which a key makes the focus leave the node. The
/// focus never leaves a container.
pub open spec fn key_exit(n: NodeView, key: Key) -> Option<Border> {
    match n {
        NodeView::Leaf(l) => key_step(l.focus, key).exit,
        NodeView::Branch(_) => None,
    }
}

/// A node reports a focus exactly where a leaf below it has one, and then
/// it reports the focus of the first such leaf.
pub proof fn lemma_focus_path(n: NodeView)
    ensures
        match focused_path(n) {
            Some(p) => leads_to_leaf(n, p) && leaf_at(n, p).focus == n.focus() && n.focus()
                != Focus::NoFocus,
            None => n.focus() == Focus::NoFocus,
        },
    decreases n, 1int,
{
    match n {
        NodeView::Leaf(_) => {},
        NodeView::Branch(b) => {
            lemma_focus_from(b, 0);
        },
    }
}

/// As `lemma_focus_path`, for the children from index `from` on.
pub proof fn lemma_focus_from(b: BranchView, from: int)
    requires
        0 <= from,
    ensures
        match focused_from(b.children, from) {
            Some(p) => leads_to_leaf(NodeView::Branch(b), p) && leaf_at(NodeView::Branch(b), p).focus
                == first_focus(b.children, from) && first_focus(b.children, from)
                != Focus::NoFocus && p.len() > 0 && from <= p[0] < b.children.len() && focused_path(
                b.children[p[0]],
            ) == Some(p.skip(1)) && focused_path(b.children[p[0]]) is Some && (forall|j: int|
                from <= j < p[0] ==> focused_path(#[trigger] b.children[j]) is None),
            None => first_focus(b.children, from) == Focus::NoFocus && (forall|j: int|
                from <= j < b.children.len() ==> focused_path(#[trigger] b.children[j]) is None),
        },
    decreases NodeView::Branch(b), 0int, b.children.len() - from,
{
    if from < b.children.len() {
        lemma_focus_path(b.children[from]);
        match focused_path(b.children[from]) {
            Some(q) => {
                lemma_path_step(b, from, q);
                assert((seq![from] + q).skip(1) =~= q);
            },
            None => {
                lemma_focus_from(b, from + 1);
            },
        }
    }
}

/// The first dot of a path is where `head_len` says: at the first index
/// that holds one.
pub proof fn lemma_head_len(path: Seq<char>, i: int)
    requires
        0 <= i <= path.len(),
        forall|j: int| 0 <= j < i ==> path[j] != '.',
        i < path.len() ==> path[i] == '.',
    ensures
        head_len(path) == i,
    decreases i,
{
    if i > 0 {
        let rest = path.skip(1);
        assert forall|j: int| 0 <= j < i - 1 implies rest[j] != '.' by {
            assert(rest[j] == path[j + 1]);
        }
        lemma_head_len(rest, i - 1);
    }
}

/// Putting back the node that a path leads to changes nothing.
pub proof fn lemma_with_same_node(n: NodeView, path: Seq<int>)
    requires
        leads_to_leaf(n, path),
    ensures
        with_node(n, path, node_at(n, path)) == n,
    decreases path.len(),
{
    if let NodeView::Branch(b) = n {
        lemma_with_same_node(b.children[path[0]], path.skip(1));
        assert(b.children.update(path[0], b.children[path[0]]) =~= b.children);
    }
}

/// What a dotted path finds below a container is a leaf.
pub proof fn lemma_named_leaf(b: BranchView, path: Seq<char>, from: int)
    requires
        0 <= from,
        named_from(b.children, path, from) is Some,
    ensures
        ({
            let p = named_from(b.children, path, from)->Some_0;
            &&& p.len() > 0
            &&& from <= p[0] < b.children.len()
            &&& named_in(b.children[p[0]], path) == Some(p.skip(1))
            &&& leads_to_leaf(NodeView::Branch(b), p)
        }),
    decreases b.children, b.children.len() - from,
{
    match named_in(b.children[from], path) {
        Some(q) => {
            assert((seq![from] + q).skip(1) =~= q);
            lemma_path_step(b, from, q);
            if let NodeView::Branch(inner) = b.children[from] {
                lemma_named_leaf(inner, path_tail(path)->Some_0, 0);
            }
        },
        None => {
            lemma_named_leaf(b, path, from + 1);
        },
    }
}

/// No node starts left of or above the node that holds it.
pub proof fn lemma_position_nonnegative(n: NodeView, path: Seq<int>)
    ensures
        position_at(n, path).0 >= 0,
        position_at(n, path).1 >= 0,
    decreases path.len(),
{
    if let NodeView::Branch(b) = n {
        if path.len() > 0 && 0 <= path[0] < b.children.len() {
            lemma_position_nonnegative(b.children[path[0]], path.skip(1));
            crate::model::geometry::lemma_offset_grows(b.children, b.orientation, 0, path[0]);
        }
    }
}

/// In a tree within reach every node starts at a column and row that fit
/// `u16`.
pub proof fn lemma_reach_position(n: NodeView, x: int, y: int, path: Seq<int>)
    requires
        within_reach(n, x, y),
    ensures
        x + position_at(n, path).0 <= u16::MAX,
        y + position_at(n, path).1 <= u16::MAX,
    decreases path.len(),
{
    if let NodeView::Branch(b) = n {
        if path.len() > 0 && 0 <= path[0] < b.children.len() {
            lemma_reach_position(
                b.children[path[0]],
                x + b.child_x(path[0]),
                y + b.child_y(path[0]),
                path.skip(1),
            );
        }
    }
}

/// In a tree within reach the searches by focus and by name find their
/// leaves at positions that fit `u16`, and every row of children fits.
pub proof fn lemma_within_reach(b: BranchView, path: Seq<char>)
    requires
        within_reach(NodeView::Branch(b), 0, 0),
    ensures
        focus_in_reach(NodeView::Branch(b)),
        name_in_reach(b, path),
        b.row_fits(),
{
    if let Some(p) = focused_path(NodeView::Branch(b)) {
        lemma_reach_position(NodeView::Branch(b), 0, 0, p);
    }
    if let Some(p) = named_path(b.children, path) {
        lemma_reach_position(NodeView::Branch(b), 0, 0, p);
    }
    assert forall|i: int| 0 <= i < b.children.len() implies #[trigger] crate::model::geometry::child_offset(
        b.children,
        b.orientation,
        i,
    ) <= u16::MAX by {
        assert(within_reach(b.children[i], 0 + b.child_x(i), 0 + b.child_y(i)));
    }
}

/// A path that starts with the child `i` leads on below that child.
pub proof fn lemma_path_step(b: BranchView, i: int, q: Seq<int>)
    requires
        0 <= i < b.children.len(),
    ensures
        node_at(NodeView::Branch(b), seq![i] + q) == node_at(b.children[i], q),
        leads_to_leaf(NodeView::Branch(b), seq![i] + q) == leads_to_leaf(b.children[i], q),
        position_at(NodeView::Branch(b), seq![i] + q) == (
            b.child_x(i) + position_at(b.children[i], q).0,
            b.child_y(i) + position_at(b.children[i], q).1,
        ),
        forall|sub: NodeView|
            #[trigger] with_node(NodeView::Branch(b), seq![i] + q, sub) == NodeView::Branch(
                BranchView { children: b.children.update(i, with_node(b.children[i], q, sub)), ..b },
            ),
{
    assert((seq![i] + q).skip(1) =~= q);
}

/// The leaf found at a cell of a container covers that cell.
pub proof fn lemma_path_at_covers(n: NodeView, x: int, y: int)
    requires
        n is Branch,
        path_at(n, x, y) is Some,
    ensures
        ({
            let p = path_at(n, x, y)->Some_0;
            let leaf = leaf_at(n, p);
            let at = position_at(n, p);
            &&& leads_to_leaf(n, p)
            &&& at.0 <= x < at.0 + leaf.width
            &&& at.1 <= y < at.1 + leaf.height
            &&& 0 <= at.0
            &&& 0 <= at.1
        }),
    decreases n,
{
    let b = n->Branch_0;
    lemma_child_at(b, x, y, 0);
    let i = b.child_at(x, y)->Some_0;
    let q = path_at(b.children[i], x - b.child_x(i), y - b.child_y(i))->Some_0;
    lemma_path_step(b, i, q);
    crate::model::geometry::lemma_offset_grows(b.children, b.orientation, 0, i);
    if b.children[i] is Branch {
        lemma_path_at_covers(b.children[i], x - b.child_x(i), y - b.child_y(i));
    }
}

} // verus!
