//! Cell coordinates.

use vstd::prelude::*;
use crate::layout::Rect;

verus! {

/// A cell coordinate, either absolute or relative to an enclosing node.
#[derive(Debug, Clone, Copy, PartialEq, Eq, Structural, Default)]
pub struct ComponentPos {
    pub x: u16,
    pub y: u16,
}

impl ComponentPos {
    /// Whether the position lies in `rect`.
    pub fn intersects_rect(&self, rect: Rect) -> (hit: bool)
        ensures
            hit == rect.contains(self.x as int, self.y as int),
    {
        rect.x <= self.x && self.x - rect.x < rect.width && rect.y <= self.y && self.y - rect.y
            < rect.height
    }
}

impl ComponentPos {
    /// The position that lies at `at` relative to this one.
    pub fn offset(self, at: ComponentPos) -> (sum: ComponentPos)
        requires
            self.x + at.x <= u16::MAX,
            self.y + at.y <= u16::MAX,
        ensures
            sum.x == self.x + at.x,
            sum.y == self.y + at.y,
    {
        ComponentPos { x: self.x + at.x, y: self.y + at.y }
    }
}

impl core::ops::Add for ComponentPos {
    type Output = ComponentPos;

    /// Moves the position by the offset `rhs`.
    fn add(self, rhs: ComponentPos) -> (sum: ComponentPos) {
        self.offset(rhs)
    }
}

impl vstd::std_specs::ops::AddSpecImpl for ComponentPos {
    open spec fn obeys_add_spec() -> bool {
        true
    }

    open spec fn add_req(self, rhs: ComponentPos) -> bool {
        self.x + rhs.x <= u16::MAX && self.y + rhs.y <= u16::MAX
    }

    open spec fn add_spec(self, rhs: ComponentPos) -> ComponentPos {
        ComponentPos { x: (self.x + rhs.x) as u16, y: (self.y + rhs.y) as u16 }
    }
}

impl core::ops::Sub for ComponentPos {
    type Output = Option<ComponentPos>;

    /// The position relative to the origin `rhs`, or `None` where `rhs`
    /// lies right of or below the position.
    fn sub(self, rhs: ComponentPos) -> (diff: Option<ComponentPos>) {
        if self.x >= rhs.x && self.y >= rhs.y {
            Some(ComponentPos { x: self.x - rhs.x, y: self.y - rhs.y })
        } else {
            None
        }
    }
}

impl vstd::std_specs::ops::SubSpecImpl for ComponentPos {
    open spec fn obeys_sub_spec() -> bool {
        true
    }

    open spec fn sub_req(self, rhs: ComponentPos) -> bool {
        true
    }

    open spec fn sub_spec(self, rhs: ComponentPos) -> Option<ComponentPos> {
        if self.x >= rhs.x && self.y >= rhs.y {
            Some(ComponentPos { x: (self.x - rhs.x) as u16, y: (self.y - rhs.y) as u16 })
        } else {
            None
        }
    }
}

impl From<ComponentPos> for Rect {
    /// The rectangle that holds the one cell at `pos`.
    fn from(pos: ComponentPos) -> (rect: Rect) {
        Rect { x: pos.x, y: pos.y, width: 1, height: 1 }
    }
}

impl vstd::std_specs::convert::FromSpecImpl<ComponentPos> for Rect {
    open spec fn obeys_from_spec() -> bool {
        true
    }

    open spec fn from_spec(pos: ComponentPos) -> Rect {
        Rect { x: pos.x, y: pos.y, width: 1, height: 1 }
    }
}

} // verus!
