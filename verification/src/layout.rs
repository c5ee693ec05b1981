//! Rectangles and layout axes.

use vstd::prelude::*;

verus! {

/// The axis along which a container lays out its children.
#[derive(Debug, Clone, Copy, PartialEq, Eq, Structural)]
pub enum Direction {
    /// Children follow each other from left to right.
    Horizontal,
    /// Children follow each other from top to bottom.
    Vertical,
}

/// A rectangle of cells: its top-left corner and its size.
#[derive(Debug, Clone, Copy, PartialEq, Eq, Structural, Default)]
pub struct Rect {
    pub x: u16,
    pub y: u16,
    pub width: u16,
    pub height: u16,
}

impl Rect {
    /// Whether the cell `(x, y)` lies in the rectangle.
    pub open spec fn contains(self, x: int, y: int) -> bool {
        &&& self.x <= x < self.x + self.width
        &&& self.y <= y < self.y + self.height
    }

    /// Whether every cell of the rectangle is a cell of `outer`.
    pub open spec fn within(self, outer: Rect) -> bool {
        &&& outer.x <= self.x
        &&& outer.y <= self.y
        &&& self.x + self.width <= outer.x + outer.width
        &&& self.y + self.height <= outer.y + outer.height
    }

    /// The number of cells in the rectangle.
    pub open spec fn cells(self) -> int {
        self.width * self.height
    }
}

} // verus!
