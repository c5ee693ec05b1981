//! The focus machine of a leaf, and what keys and the mouse do to it.

use vstd::prelude::*;
use crate::event::{Key, MouseAction};
use crate::model::LeafView;
use crate::{Border, Focus};

verus! {

/// What a key does to a leaf in a given focus state.
#[derive(Debug, Clone, Copy, PartialEq, Eq, Structural)]
pub struct KeyStep {
    /// The focus state after the key.
    pub focus: Focus,
    /// The border through which the focus leaves the leaf, if it does.
    pub exit: Option<Border>,
    /// Whether the key is handed on to the leaf's widget.
    pub forward: bool,
}

/// The focus machine. A focused leaf hands every key but Escape to its
/// widget; Escape leaves it highlighted. A highlighted leaf is entered with
/// Enter and left through a border with an arrow key. A leaf without focus
/// is highlighted with Enter.
pub open spec fn key_step(focus: Focus, key: Key) -> KeyStep {
    match focus {
        Focus::Focus => match key {
            Key::Escape => KeyStep { focus: Focus::PartialFocus, exit: None, forward: false },
            _ => KeyStep { focus: Focus::Focus, exit: None, forward: true },
        },
        Focus::PartialFocus => match key {
            Key::Up => KeyStep { focus: Focus::NoFocus, exit: Some(Border::Top), forward: false },
            Key::Down => KeyStep {
                focus: Focus::NoFocus,
                exit: Some(Border::Bottom),
                forward: false,
            },
            Key::Left => KeyStep {
                focus: Focus::NoFocus,
                exit: Some(Border::Left),
                forward: false,
            },
            Key::Right => KeyStep {
                focus: Focus::NoFocus,
                exit: Some(Border::Right),
                forward: false,
            },
            Key::Enter => KeyStep { focus: Focus::Focus, exit: None, forward: false },
            _ => KeyStep { focus: Focus::PartialFocus, exit: None, forward: false },
        },
        Focus::NoFocus => match key {
            Key::Enter => KeyStep { focus: Focus::PartialFocus, exit: None, forward: false },
            _ => KeyStep { focus: Focus::NoFocus, exit: None, forward: false },
        },
    }
}

/// A leaf after its focus was set: a change marks it for redrawing.
pub open spec fn with_focus(l: LeafView, focus: Focus) -> LeafView {
    LeafView { focus, invalidated: l.invalidated || l.focus != focus, ..l }
}

/// A leaf marked for redrawing where `redraw` holds.
pub open spec fn with_redraw(l: LeafView, redraw: bool) -> LeafView {
    LeafView { invalidated: l.invalidated || redraw, ..l }
}

/// A leaf after a key, where `redraw` is what its widget answered if the
/// key was handed on.
pub open spec fn leaf_after_key(l: LeafView, key: Key, redraw: bool) -> LeafView {
    let step = key_step(l.focus, key);
    with_redraw(with_focus(l, step.focus), step.forward && redraw)
}

/// Whether the cell `(x, y)`, relative to the leaf, lies in the leaf.
pub open spec fn in_leaf(l: LeafView, x: int, y: int) -> bool {
    0 <= x < l.width && 0 <= y < l.height
}

/// Whether the cell `(x, y)`, relative to the leaf, lies inside the leaf's
/// border.
pub open spec fn in_interior(l: LeafView, x: int, y: int) -> bool {
    &&& l.border_width <= x
    &&& l.border_width <= y
    &&& x + l.border_width < l.width
    &&& y + l.border_width < l.height
}

/// Whether a mouse action focuses the leaf under the pointer.
pub open spec fn action_focuses(action: MouseAction) -> bool {
    action == MouseAction::LeftDown || action == MouseAction::LeftDrag
}

/// A leaf after a mouse event at `(x, y)`, relative to the leaf. Without
/// an action the pointer has left and the leaf loses its focus; a plain
/// move changes nothing; a press or drag of the left button inside the
/// leaf focuses it. A focused leaf hands an event inside its border on to
/// its widget, and `redraw` is what the widget answered.
pub open spec fn leaf_after_mouse(
    l: LeafView,
    x: int,
    y: int,
    action: Option<MouseAction>,
    redraw: bool,
) -> LeafView {
    match action {
        None => with_focus(l, Focus::NoFocus),
        Some(MouseAction::Moved) => l,
        Some(a) => {
            let l1 = if action_focuses(a) && in_leaf(l, x, y) {
                with_focus(l, Focus::Focus)
            } else {
                l
            };
            with_redraw(l1, in_interior(l, x, y) && l1.focus == Focus::Focus && redraw)
        },
    }
}

/// The border of the leaf on which the cell `(x, y)` lies. A corner
/// belongs to the left or right border.
pub open spec fn leaf_border(l: LeafView, x: int, y: int) -> Option<Border> {
    if !in_leaf(l, x, y) {
        None
    } else if x < l.border_width {
        Some(Border::Left)
    } else if x + l.border_width >= l.width {
        Some(Border::Right)
    } else if y < l.border_width {
        Some(Border::Top)
    } else if y + l.border_width >= l.height {
        Some(Border::Bottom)
    } else {
        None
    }
}

} // verus!
