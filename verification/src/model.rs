//! The mathematical model of a layout tree.
//!
//! A tree of panes is described by a [`NodeView`]: a leaf with its size,
//! flags and focus, or a branch with its axis and the views of its children.
//! The contracts of the executable operations say how this view changes.

use vstd::prelude::*;
use crate::container::list::Resize;
use crate::layout::Direction;
use crate::{Focus, ResizeError};

pub mod drawing;
pub mod focus;
pub mod geometry;
pub mod pointer;
pub mod search;
pub mod sizing;

verus! {

/// What the layout and focus rules read of a leaf.
pub struct LeafView {
    pub name: Seq<char>,
    pub width: u16,
    pub height: u16,
    pub fixed_width: bool,
    pub fixed_height: bool,
    pub border_width: u16,
    pub invalidated: bool,
    pub focus: Focus,
}

/// What the layout and focus rules read of a container.
pub struct BranchView {
    pub name: Seq<char>,
    pub orientation: Direction,
    pub resizable: bool,
    pub resize: Resize,
    pub width: u16,
    pub height: u16,
    pub children: Seq<NodeView>,
}

/// A node of the layout tree.
pub enum NodeView {
    Leaf(LeafView),
    Branch(BranchView),
}

/// The contents of a [`ResizeError`].
pub struct ResizeErrorView {
    pub name: Seq<char>,
    pub width: u16,
    pub height: u16,
    pub border_width: u16,
}

impl View for ResizeError {
    type V = ResizeErrorView;

    open spec fn view(&self) -> ResizeErrorView {
        ResizeErrorView {
            name: self.name@,
            width: self.width,
            height: self.height,
            border_width: self.border_width,
        }
    }
}

impl NodeView {
    pub open spec fn name(self) -> Seq<char> {
        match self {
            NodeView::Leaf(l) => l.name,
            NodeView::Branch(b) => b.name,
        }
    }

    pub open spec fn width(self) -> u16 {
        match self {
            NodeView::Leaf(l) => l.width,
            NodeView::Branch(b) => b.width,
        }
    }

    pub open spec fn height(self) -> u16 {
        match self {
            NodeView::Leaf(l) => l.height,
            NodeView::Branch(b) => b.height,
        }
    }

    /// The node's size along `axis`.
    pub open spec fn extent(self, axis: Direction) -> u16 {
        match axis {
            Direction::Horizontal => self.width(),
            Direction::Vertical => self.height(),
        }
    }

    /// Whether proportional sizing leaves the node's width alone: a leaf
    /// says so itself, a container is fixed when all its children are.
    pub open spec fn fixed_width(self) -> bool
        decreases self,
    {
        match self {
            NodeView::Leaf(l) => l.fixed_width,
            NodeView::Branch(b) => forall|i: int|
                0 <= i < b.children.len() ==> (#[trigger] b.children[i]).fixed_width(),
        }
    }

    /// Whether proportional sizing leaves the node's height alone.
    pub open spec fn fixed_height(self) -> bool
        decreases self,
    {
        match self {
            NodeView::Leaf(l) => l.fixed_height,
            NodeView::Branch(b) => forall|i: int|
                0 <= i < b.children.len() ==> (#[trigger] b.children[i]).fixed_height(),
        }
    }

    /// Whether the node is fixed along `axis`.
    pub open spec fn fixed(self, axis: Direction) -> bool {
        match axis {
            Direction::Horizontal => self.fixed_width(),
            Direction::Vertical => self.fixed_height(),
        }
    }

    /// The focus that the node reports: a leaf its own, a container that of
    /// its first child that reports any.
    pub open spec fn focus(self) -> Focus
        decreases self, 0int,
    {
        match self {
            NodeView::Leaf(l) => l.focus,
            NodeView::Branch(b) => first_focus(b.children, 0),
        }
    }

    /// Whether `after` is this node with some more leaves marked for
    /// redrawing, and nothing else changed.
    pub open spec fn marked_in(self, after: NodeView) -> bool
        decreases self,
    {
        match self {
            NodeView::Leaf(l) => after == NodeView::Leaf(
                LeafView { invalidated: after->Leaf_0.invalidated, ..l },
            ) && (l.invalidated ==> after->Leaf_0.invalidated),
            NodeView::Branch(b) => after == NodeView::Branch(
                BranchView { children: after->Branch_0.children, ..b },
            ) && after->Branch_0.children.len() == b.children.len() && forall|i: int|
                0 <= i < b.children.len() ==> (#[trigger] b.children[i]).marked_in(
                    after->Branch_0.children[i],
                ),
        }
    }

    /// The node after it was drawn: no leaf is marked for redrawing.
    pub open spec fn rendered(self) -> NodeView
        decreases self,
    {
        match self {
            NodeView::Leaf(l) => NodeView::Leaf(LeafView { invalidated: false, ..l }),
            NodeView::Branch(b) => NodeView::Branch(
                BranchView {
                    children: Seq::new(
                        b.children.len(),
                        |i: int|
                            if 0 <= i < b.children.len() {
                                b.children[i].rendered()
                            } else {
                                b.children[i]
                            },
                    ),
                    ..b
                },
            ),
        }
    }

    /// The node with every leaf marked for redrawing.
    pub open spec fn invalidated(self) -> NodeView
        decreases self,
    {
        match self {
            NodeView::Leaf(l) => NodeView::Leaf(LeafView { invalidated: true, ..l }),
            NodeView::Branch(b) => NodeView::Branch(
                BranchView {
                    children: Seq::new(
                        b.children.len(),
                        |i: int|
                            if 0 <= i < b.children.len() {
                                b.children[i].invalidated()
                            } else {
                                b.children[i]
                            },
                    ),
                    ..b
                },
            ),
        }
    }
}

/// The focus of the first node from index `from` on that reports any.
pub open spec fn first_focus(children: Seq<NodeView>, from: int) -> Focus
    decreases children, children.len() - from,
{
    if from < 0 || from >= children.len() {
        Focus::NoFocus
    } else if children[from].focus() != Focus::NoFocus {
        children[from].focus()
    } else {
        first_focus(children, from + 1)
    }
}

} // verus!
