//! What the mouse does to a tree: dragging a border between two children,
//! and handing an event down to the node under the pointer.

use vstd::prelude::*;
use crate::container::list::Resize;
use crate::event::MouseAction;
use crate::layout::Direction;
use crate::model::focus::{in_interior, leaf_after_mouse, with_focus};
use crate::model::geometry::border_at;
use crate::model::sizing::{child_target, planned_sizes, relayout, resize_outcome};
use crate::model::{BranchView, LeafView, NodeView};
use crate::{Border, Focus};

verus! {

/// The number of containers on the longest way from the node down to a
/// leaf or an empty container.
pub open spec fn depth(n: NodeView) -> nat
    decreases n, 0int,
{
    match n {
        NodeView::Leaf(_) => 0,
        NodeView::Branch(b) => 1 + max_depth(b.children, b.children.len() as int),
    }
}

/// The greatest depth among the children before `upto`.
pub open spec fn max_depth(children: Seq<NodeView>, upto: int) -> nat
    decreases children, upto,
{
    if upto <= 0 || upto > children.len() {
        0
    } else if depth(children[upto - 1]) > max_depth(children, upto - 1) {
        depth(children[upto - 1])
    } else {
        max_depth(children, upto - 1)
    }
}

impl NodeView {
    /// The node after the pointer has left it: no leaf has focus and no
    /// border is being dragged.
    pub open spec fn unfocused(self) -> NodeView
        decreases self,
    {
        match self {
            NodeView::Leaf(l) => NodeView::Leaf(with_focus(l, Focus::NoFocus)),
            NodeView::Branch(b) => NodeView::Branch(
                BranchView {
                    resize: Resize::Idle,
                    children: Seq::new(
                        b.children.len(),
                        |i: int|
                            if 0 <= i < b.children.len() {
                                b.children[i].unfocused()
                            } else {
                                b.children[i]
                            },
                    ),
                    ..b
                },
            ),
        }
    }
}

/// The drag state that a press on `border` of child `child_index` starts:
/// the border before or after that child is taken, unless it is an outer
/// border of the container.
pub open spec fn grab(mouse_offset: u16, border: Border, child_index: int, child_len: int) -> Resize {
    match border {
        Border::Left | Border::Top => if child_index != 0 {
            Resize::LeftTop { mouse_offset, child_index: child_index as usize }
        } else {
            Resize::Idle
        },
        Border::Right | Border::Bottom => if child_index + 1 != child_len {
            Resize::RightBottom { mouse_offset, child_index: child_index as usize }
        } else {
            Resize::Idle
        },
    }
}

/// The drag state with the pointer's last offset replaced.
pub open spec fn moved_to(resize: Resize, mouse_offset: u16) -> Resize {
    match resize {
        Resize::LeftTop { child_index, .. } => Resize::LeftTop { mouse_offset, child_index },
        Resize::RightBottom { child_index, .. } => Resize::RightBottom { mouse_offset, child_index },
        Resize::Idle => Resize::Idle,
    }
}

/// The size of a child whose extent along `axis` becomes `extent` while
/// its other extent stays.
pub open spec fn stretched(child: NodeView, axis: Direction, extent: u16) -> (u16, u16) {
    match axis {
        Direction::Horizontal => (extent, child.height()),
        Direction::Vertical => (child.width(), extent),
    }
}

/// A container after the border between its children `first` and
/// `first + 1` was dragged by `delta` cells to the pointer offset
/// `mouse_offset`. The first child grows by `delta` and the second shrinks
/// by it. The drag ends, and nothing else changes, where the two are not
/// both children, where one of them is fixed along the axis, where one of
/// the new extents is not positive or does not fit `u16`, or where one of
/// them refuses its new size. A drag by nothing changes nothing.
pub open spec fn drag_between(b: BranchView, first: int, delta: int, mouse_offset: u16) -> BranchView {
    let second = first + 1;
    let ended = BranchView { resize: Resize::Idle, ..b };
    if !(0 <= first && second < b.children.len()) {
        ended
    } else if b.children[first].fixed(b.orientation) || b.children[second].fixed(b.orientation) {
        ended
    } else {
        let grown = b.children[first].extent(b.orientation) + delta;
        let shrunk = b.children[second].extent(b.orientation) - delta;
        if grown <= 0 || shrunk <= 0 || grown > u16::MAX || shrunk > u16::MAX {
            ended
        } else if delta == 0 {
            b
        } else {
            let to_first = stretched(b.children[first], b.orientation, grown as u16);
            let to_second = stretched(b.children[second], b.orientation, shrunk as u16);
            match (
                resize_outcome(b.children[first], to_first.0, to_first.1),
                resize_outcome(b.children[second], to_second.0, to_second.1),
            ) {
                (Ok(n0), Ok(n1)) => BranchView {
                    resize: moved_to(b.resize, mouse_offset),
                    children: b.children.update(first, n0).update(second, n1),
                    ..b
                },
                _ => ended,
            }
        }
    }
}

/// A container after a mouse action at the offset `mouse_offset` along its
/// axis, as far as a drag is concerned. Anything but a drag with the left
/// button ends a drag, and so does any action on a container that is not
/// resizable.
pub open spec fn after_drag(b: BranchView, mouse_offset: u16, action: MouseAction) -> BranchView {
    if !b.resizable || action != MouseAction::LeftDrag {
        BranchView { resize: Resize::Idle, ..b }
    } else {
        match b.resize {
            Resize::Idle => b,
            Resize::LeftTop { mouse_offset: last, child_index } => drag_between(
                b,
                child_index - 1,
                mouse_offset - last,
                mouse_offset,
            ),
            Resize::RightBottom { mouse_offset: last, child_index } => drag_between(
                b,
                child_index as int,
                mouse_offset - last,
                mouse_offset,
            ),
        }
    }
}

/// The drag state of a container after a mouse action at `(x, y)`: a press
/// of the left button on a border of the child under the pointer takes
/// that border.
pub open spec fn grabbed(b: BranchView, x: int, y: int, action: MouseAction, mouse_offset: u16) -> Resize {
    match b.child_at(x, y) {
        Some(i) => match border_at(b.children[i], x - b.child_x(i), y - b.child_y(i)) {
            Some(border) => if action == MouseAction::LeftDown {
                grab(mouse_offset, border, i, b.children.len() as int)
            } else {
                b.resize
            },
            None => b.resize,
        },
        None => b.resize,
    }
}

/// Whether a leaf hands a mouse event at `(x, y)`, relative to the leaf,
/// on to its widget: the pointer has not left, the event is no plain move,
/// the cell lies inside the border, and the leaf has the focus once the
/// event has had its effect on it.
pub open spec fn leaf_forwards(l: LeafView, x: int, y: int, action: Option<MouseAction>) -> bool {
    match action {
        None => false,
        Some(MouseAction::Moved) => false,
        Some(_) => in_interior(l, x, y) && leaf_after_mouse(l, x, y, action, false).focus
            == Focus::Focus,
    }
}

/// Whether a mouse action at the offset `mouse_offset` moves a dragged
/// border of the container and so resizes its child `i`: the drag goes on
/// at the new offset, and the child lies beside the border.
pub open spec fn drag_resizes(b: BranchView, mouse_offset: u16, action: MouseAction, i: int) -> bool {
    let dragged = after_drag(b, mouse_offset, action);
    &&& dragged.resize != Resize::Idle
    &&& dragged.resize != b.resize
    &&& match b.resize {
        Resize::LeftTop { child_index, .. } => i == child_index - 1 || i == child_index,
        Resize::RightBottom { child_index, .. } => i == child_index || i == child_index + 1,
        Resize::Idle => false,
    }
}

/// Whether a mouse event at `(x, y)`, relative to the node, can change the
/// widget of the leaf at the end of `path`. The pointer's leaving and a
/// plain move change no widget. Any other event changes the widget of a
/// leaf only where the leaf hands it on. Below a container it changes the
/// widgets below the two children that a dragged border resizes, and
/// below the child under the pointer what the event changes there.
pub open spec fn mouse_reaches(
    n: NodeView,
    x: int,
    y: int,
    action: Option<MouseAction>,
    path: Seq<int>,
) -> bool
    decreases n, 1int,
{
    match action {
        None => false,
        Some(MouseAction::Moved) => false,
        Some(a) => match n {
            NodeView::Leaf(l) => leaf_forwards(l, x, y, action),
            NodeView::Branch(b) => {
                &&& path.len() > 0
                &&& 0 <= path[0] < b.children.len()
                &&& child_reached(b, x, y, a, path[0], path.skip(1))
            },
        },
    }
}

/// Whether a mouse action at `(x, y)` can change the widget at the end of
/// `path` below child `i` of a container.
pub open spec fn child_reached(
    b: BranchView,
    x: int,
    y: int,
    action: MouseAction,
    i: int,
    path: Seq<int>,
) -> bool
    decreases b.children, 0int,
{
    let offset = along(b.orientation, x, y) as u16;
    let dragged = after_drag(b, offset, action);
    0 <= i < b.children.len() && (drag_resizes(b, offset, action, i) || (dragged.child_contains(
        i,
        x,
        y,
    ) && mouse_reaches(
        b.children[i],
        x - dragged.child_x(i),
        y - dragged.child_y(i),
        Some(action),
        path,
    )))
}

/// The pointer's offset along the axis of a container.
pub open spec fn along(axis: Direction, x: int, y: int) -> int {
    match axis {
        Direction::Horizontal => x,
        Direction::Vertical => y,
    }
}

/// A node after a mouse event at `(x, y)`, relative to the node. Without
/// an action the pointer has left the node; a plain move changes nothing.
/// Otherwise a container first moves a dragged border, then hands the
/// event to the child under the pointer, in that child's coordinates, and
/// tells all other children that the pointer has left them. `redraw` is
/// what the widget answered that the event reached, if it reached one.
#[verifier::opaque]
pub open spec fn after_mouse(
    n: NodeView,
    x: int,
    y: int,
    action: Option<MouseAction>,
    redraw: bool,
) -> NodeView
    decreases depth(n),
    via after_mouse_decreases
{
    match action {
        None => n.unfocused(),
        Some(MouseAction::Moved) => n,
        Some(a) => match n {
            NodeView::Leaf(l) => NodeView::Leaf(leaf_after_mouse(l, x, y, action, redraw)),
            NodeView::Branch(b) => {
                let offset = along(b.orientation, x, y) as u16;
                let dragged = after_drag(b, offset, a);
                NodeView::Branch(
                    BranchView {
                        resize: grabbed(dragged, x, y, a, offset),
                        children: Seq::new(
                            dragged.children.len(),
                            |i: int|
                                if dragged.child_contains(i, x, y) {
                                    after_mouse(
                                        dragged.children[i],
                                        x - dragged.child_x(i),
                                        y - dragged.child_y(i),
                                        action,
                                        redraw,
                                    )
                                } else {
                                    dragged.children[i].unfocused()
                                },
                        ),
                        ..dragged
                    },
                )
            },
        },
    }
}

#[via_fn]
proof fn after_mouse_decreases(
    n: NodeView,
    x: int,
    y: int,
    action: Option<MouseAction>,
    redraw: bool,
) {
    if let Some(a) = action {
        if let NodeView::Branch(b) = n {
            let offset = along(b.orientation, x, y) as u16;
            let dragged = after_drag(b, offset, a);
            lemma_drag_keeps_depths(b, offset, a);
            assert forall|i: int| dragged.child_contains(i, x, y) implies depth(
                #[trigger] dragged.children[i],
            ) < depth(n) by {
                lemma_max_depth_bounds(b.children, b.children.len() as int, i);
            }
        }
    }
}

/// A node that the pointer has left is the node without focus.
pub proof fn lemma_mouse_left(n: NodeView, x: int, y: int, redraw: bool)
    ensures
        after_mouse(n, x, y, None, redraw) == n.unfocused(),
{
    reveal(after_mouse);
}

/// A plain move of the pointer changes nothing.
pub proof fn lemma_mouse_moved(n: NodeView, x: int, y: int, redraw: bool)
    ensures
        after_mouse(n, x, y, Some(MouseAction::Moved), redraw) == n,
{
    reveal(after_mouse);
}

/// What any other mouse action does to a container.
pub proof fn lemma_mouse_branch(b: BranchView, x: int, y: int, action: MouseAction, redraw: bool)
    requires
        action != MouseAction::Moved,
    ensures
        ({
            let offset = along(b.orientation, x, y) as u16;
            let dragged = after_drag(b, offset, action);
            let after = after_mouse(NodeView::Branch(b), x, y, Some(action), redraw);
            &&& after == NodeView::Branch(
                BranchView {
                    resize: grabbed(dragged, x, y, action, offset),
                    children: after->Branch_0.children,
                    ..dragged
                },
            )
            &&& after->Branch_0.children.len() == dragged.children.len()
            &&& forall|i: int|
                0 <= i < dragged.children.len() ==> #[trigger] after->Branch_0.children[i] == (
                if dragged.child_contains(i, x, y) {
                    after_mouse(
                        dragged.children[i],
                        x - dragged.child_x(i),
                        y - dragged.child_y(i),
                        Some(action),
                        redraw,
                    )
                } else {
                    dragged.children[i].unfocused()
                })
        }),
{
    reveal(after_mouse);
}

/// No child before `upto` is deeper than `max_depth` says.
pub proof fn lemma_max_depth_bounds(children: Seq<NodeView>, upto: int, i: int)
    requires
        0 <= i < upto <= children.len(),
    ensures
        depth(children[i]) <= max_depth(children, upto),
    decreases upto,
{
    if i < upto - 1 {
        lemma_max_depth_bounds(children, upto - 1, i);
    }
}

/// Children of the same depths have the same greatest depth.
pub proof fn lemma_max_depth_same(a: Seq<NodeView>, b: Seq<NodeView>, upto: int)
    requires
        a.len() == b.len(),
        forall|i: int| 0 <= i < a.len() ==> depth(#[trigger] a[i]) == depth(b[i]),
    ensures
        max_depth(a, upto) == max_depth(b, upto),
    decreases upto,
{
    if 0 < upto <= a.len() {
        lemma_max_depth_same(a, b, upto - 1);
    }
}

/// Marking a tree for redrawing keeps its depth.
pub proof fn lemma_invalidated_depth(n: NodeView)
    ensures
        depth(n.invalidated()) == depth(n),
    decreases n,
{
    match n {
        NodeView::Leaf(_) => {},
        NodeView::Branch(b) => {
            let after = n.invalidated()->Branch_0;
            assert forall|i: int| 0 <= i < b.children.len() implies depth(
                #[trigger] b.children[i],
            ) == depth(after.children[i]) by {
                lemma_invalidated_depth(b.children[i]);
            }
            lemma_max_depth_same(b.children, after.children, b.children.len() as int);
        },
    }
}

/// A resize keeps the depth of a tree.
pub proof fn lemma_resize_depth(n: NodeView, width: u16, height: u16)
    requires
        resize_outcome(n, width, height) is Ok,
    ensures
        depth(resize_outcome(n, width, height)->Ok_0) == depth(n),
    decreases n,
{
    match n {
        NodeView::Leaf(_) => {},
        NodeView::Branch(b) => {
            if b.width != width || b.height != height {
                let after = relayout(b, width, height)->Ok_0->Branch_0;
                let size = match b.orientation {
                    Direction::Horizontal => width,
                    Direction::Vertical => height,
                };
                let sizes = planned_sizes(b.children, b.orientation, size)->Some_0;
                assert forall|i: int| 0 <= i < b.children.len() implies depth(
                    #[trigger] b.children[i],
                ) == depth(after.children[i]) by {
                    let target = child_target(b.orientation, sizes[i], width, height);
                    if resize_outcome(b.children[i], target.0, target.1) is Ok {
                        lemma_resize_depth(b.children[i], target.0, target.1);
                        lemma_invalidated_depth(
                            resize_outcome(b.children[i], target.0, target.1)->Ok_0,
                        );
                    }
                }
                lemma_max_depth_same(b.children, after.children, b.children.len() as int);
            }
        },
    }
}

/// A drag keeps the number of children and the depth of each.
pub proof fn lemma_drag_keeps_depths(b: BranchView, mouse_offset: u16, action: MouseAction)
    ensures
        after_drag(b, mouse_offset, action).children.len() == b.children.len(),
        forall|i: int|
            0 <= i < b.children.len() ==> depth(
                #[trigger] after_drag(b, mouse_offset, action).children[i],
            ) == depth(b.children[i]),
{
    let dragged = after_drag(b, mouse_offset, action);
    if dragged.children != b.children {
        let first = match b.resize {
            Resize::LeftTop { child_index, .. } => child_index - 1,
            Resize::RightBottom { child_index, .. } => child_index as int,
            Resize::Idle => 0,
        };
        let last = match b.resize {
            Resize::LeftTop { mouse_offset, .. } => mouse_offset,
            Resize::RightBottom { mouse_offset, .. } => mouse_offset,
            Resize::Idle => 0,
        };
        let delta = mouse_offset - last;
        let second = first + 1;
        let grown = b.children[first].extent(b.orientation) + delta;
        let shrunk = b.children[second].extent(b.orientation) - delta;
        let to_first = stretched(b.children[first], b.orientation, grown as u16);
        let to_second = stretched(b.children[second], b.orientation, shrunk as u16);
        lemma_resize_depth(b.children[first], to_first.0, to_first.1);
        lemma_resize_depth(b.children[second], to_second.0, to_second.1);
    }
}

} // verus!
