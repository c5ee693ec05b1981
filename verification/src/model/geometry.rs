//! Where the children of a container lie, and which border a cell is on.

use vstd::prelude::*;
use crate::layout::{Direction, Rect};
use crate::model::focus::leaf_border;
use crate::model::{BranchView, NodeView};
use crate::Border;

verus! {

/// The distance of child `i` from the container's origin along `axis`: the
/// sum of the extents of the children before it.
pub open spec fn child_offset(children: Seq<NodeView>, axis: Direction, i: int) -> int
    decreases i,
{
    if i <= 0 {
        0
    } else {
        child_offset(children, axis, i - 1) + children[i - 1].extent(axis)
    }
}

impl BranchView {
    /// The column at which child `i` starts, relative to the container.
    pub open spec fn child_x(self, i: int) -> int {
        match self.orientation {
            Direction::Horizontal => child_offset(self.children, self.orientation, i),
            Direction::Vertical => 0,
        }
    }

    /// The row at which child `i` starts, relative to the container.
    pub open spec fn child_y(self, i: int) -> int {
        match self.orientation {
            Direction::Horizontal => 0,
            Direction::Vertical => child_offset(self.children, self.orientation, i),
        }
    }

    /// Whether the cell `(x, y)`, relative to the container, lies in child
    /// `i`.
    pub open spec fn child_contains(self, i: int, x: int, y: int) -> bool {
        &&& 0 <= i < self.children.len()
        &&& self.child_x(i) <= x < self.child_x(i) + self.children[i].width()
        &&& self.child_y(i) <= y < self.child_y(i) + self.children[i].height()
    }

    /// The first child from index `from` on that contains the cell
    /// `(x, y)`.
    pub open spec fn child_from(self, x: int, y: int, from: int) -> Option<int>
        decreases self.children.len() - from,
    {
        if from < 0 || from >= self.children.len() {
            None
        } else if self.child_contains(from, x, y) {
            Some(from)
        } else {
            self.child_from(x, y, from + 1)
        }
    }

    /// The child that contains the cell `(x, y)`, relative to the
    /// container.
    pub open spec fn child_at(self, x: int, y: int) -> Option<int> {
        self.child_from(x, y, 0)
    }

    /// Whether every child starts at a column and row that fit `u16`.
    pub open spec fn row_fits(self) -> bool {
        forall|i: int|
            0 <= i < self.children.len() ==> #[trigger] child_offset(
                self.children,
                self.orientation,
                i,
            ) <= u16::MAX
    }

    /// The rectangle of child `i`, relative to the container.
    pub open spec fn child_rect(self, i: int) -> Rect {
        Rect {
            x: self.child_x(i) as u16,
            y: self.child_y(i) as u16,
            width: self.children[i].width(),
            height: self.children[i].height(),
        }
    }
}

/// What a border of a child is for its container: a border across the axis
/// is one of the container too, a border along the axis only at the first
/// or last child.
pub open spec fn outer_border(axis: Direction, border: Border, first: bool, last: bool) -> Option<
    Border,
> {
    match (axis, border) {
        (Direction::Horizontal, Border::Top) => Some(Border::Top),
        (Direction::Horizontal, Border::Bottom) => Some(Border::Bottom),
        (Direction::Horizontal, Border::Left) => if first {
            Some(Border::Left)
        } else {
            None
        },
        (Direction::Horizontal, Border::Right) => if last {
            Some(Border::Right)
        } else {
            None
        },
        (Direction::Vertical, Border::Top) => if first {
            Some(Border::Top)
        } else {
            None
        },
        (Direction::Vertical, Border::Bottom) => if last {
            Some(Border::Bottom)
        } else {
            None
        },
        (Direction::Vertical, Border::Left) => Some(Border::Left),
        (Direction::Vertical, Border::Right) => Some(Border::Right),
    }
}

/// The border of the node on which the cell `(x, y)`, relative to the
/// node, lies: for a container, the border of the child under the cell,
/// where that is an outer border of the container.
pub open spec fn border_at(n: NodeView, x: int, y: int) -> Option<Border>
    decreases n,
{
    match n {
        NodeView::Leaf(l) => leaf_border(l, x, y),
        NodeView::Branch(b) => match b.child_at(x, y) {
            None => None,
            Some(i) => if 0 <= i < b.children.len() {
                match border_at(b.children[i], x - b.child_x(i), y - b.child_y(i)) {
                    None => None,
                    Some(border) => outer_border(
                        b.orientation,
                        border,
                        i == 0,
                        i == b.children.len() - 1,
                    ),
                }
            } else {
                None
            },
        },
    }
}

/// Whether the node can be drawn into an area of `width` by `height`
/// cells: a leaf into any, a container into one of its own size, if its
/// children lie inside it and can each be drawn into an area of their
/// size.
pub open spec fn renderable(n: NodeView, width: int, height: int) -> bool
    decreases n,
{
    match n {
        NodeView::Leaf(_) => true,
        NodeView::Branch(b) => {
            &&& width == b.width
            &&& height == b.height
            &&& forall|i: int|
                0 <= i < b.children.len() ==> {
                    &&& b.child_x(i) + (#[trigger] b.children[i]).width() <= b.width
                    &&& b.child_y(i) + b.children[i].height() <= b.height
                    &&& renderable(
                        b.children[i],
                        b.children[i].width() as int,
                        b.children[i].height() as int,
                    )
                }
        },
    }
}

/// Whether every node of a tree that starts at the cell `(x, y)` starts at
/// a column and row that fit `u16`.
pub open spec fn within_reach(n: NodeView, x: int, y: int) -> bool
    decreases n,
{
    &&& x <= u16::MAX
    &&& y <= u16::MAX
    &&& match n {
        NodeView::Leaf(_) => true,
        NodeView::Branch(b) => forall|i: int|
            0 <= i < b.children.len() ==> within_reach(
                #[trigger] b.children[i],
                x + b.child_x(i),
                y + b.child_y(i),
            ),
    }
}

/// `child_offset` grows with the index.
pub proof fn lemma_offset_grows(children: Seq<NodeView>, axis: Direction, i: int, j: int)
    requires
        i <= j,
    ensures
        child_offset(children, axis, i) <= child_offset(children, axis, j),
        i >= 0 && i < j ==> child_offset(children, axis, i) + children[i].extent(axis)
            <= child_offset(children, axis, j),
    decreases j - i,
{
    if i < j {
        lemma_offset_grows(children, axis, i, j - 1);
    }
}

/// No cell lies in two children.
pub proof fn lemma_one_child_contains(b: BranchView, i: int, j: int, x: int, y: int)
    requires
        b.child_contains(i, x, y),
        b.child_contains(j, x, y),
    ensures
        i == j,
{
    if i < j {
        lemma_offset_grows(b.children, b.orientation, i, j);
    } else if j < i {
        lemma_offset_grows(b.children, b.orientation, j, i);
    }
}

/// `child_at` finds the child that contains the cell, and none where no
/// child does.
pub proof fn lemma_child_at(b: BranchView, x: int, y: int, from: int)
    requires
        0 <= from,
    ensures
        match b.child_from(x, y, from) {
            Some(i) => from <= i && b.child_contains(i, x, y),
            None => forall|i: int| from <= i ==> !b.child_contains(i, x, y),
        },
    decreases b.children.len() - from,
{
    if from < b.children.len() && !b.child_contains(from, x, y) {
        lemma_child_at(b, x, y, from + 1);
    }
}

} // verus!
