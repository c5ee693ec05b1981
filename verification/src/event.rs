//! Terminal input as the layout tree reads it.
//!
//! Key and mouse events arrive as `crossterm` values and are handed on to
//! the widgets unchanged. The tree itself reads only which of a few keys
//! was pressed and which of a few mouse actions took place.

use vstd::prelude::*;
use crossterm::event::{Event, KeyCode, KeyEvent, MouseButton, MouseEventKind};

verus! {

/// `crossterm`'s `KeyEvent`, handed on to the widgets as it came.
#[verifier::external_type_specification]
#[verifier::external_body]
pub struct ExKeyEvent(KeyEvent);

/// `crossterm`'s `MouseEventKind`, handed on to the widgets as it came.
#[verifier::external_type_specification]
#[verifier::external_body]
pub struct ExMouseEventKind(MouseEventKind);

/// `crossterm`'s `Event`, taken apart by `classify`.
#[verifier::external_type_specification]
#[verifier::external_body]
pub struct ExEvent(Event);

/// The keys that move or change the focus.
#[derive(Debug, Clone, Copy, PartialEq, Eq, Structural)]
pub enum Key {
    Enter,
    Escape,
    Up,
    Down,
    Left,
    Right,
    /// Any other key.
    Other,
}

/// The mouse actions that the tree tells apart.
#[derive(Debug, Clone, Copy, PartialEq, Eq, Structural)]
pub enum MouseAction {
    /// The left button was pressed.
    LeftDown,
    /// The pointer moved with the left button held.
    LeftDrag,
    /// The pointer moved with no button held.
    Moved,
    /// Any other action.
    Other,
}

/// An input event, by what the tree does with it.
pub enum Input {
    Key(KeyEvent),
    /// A mouse event at a column and a row.
    Mouse(u16, u16, MouseEventKind),
    /// An event that the tree ignores.
    Ignored,
}

/// The key that a key event reports in its `code` field.
pub uninterp spec fn key_of(e: KeyEvent) -> Key;

/// The action that a mouse event kind stands for.
pub uninterp spec fn action_of(kind: MouseEventKind) -> MouseAction;

/// The key or mouse event that a terminal event carries.
pub uninterp spec fn input_of(event: Event) -> Input;

/// The action of a mouse event kind, where `None` says that the pointer
/// left the area.
pub open spec fn pointer_action(kind: Option<MouseEventKind>) -> Option<MouseAction> {
    match kind {
        Some(k) => Some(action_of(k)),
        None => None,
    }
}

/// Reads the `code` field of crossterm's `KeyEvent` and tells the six keys
/// of the focus rules from all others. The contract gives the result the
/// name `key_of`; it claims nothing else.
#[verifier::external_body]
pub(crate) fn pressed_key(e: &KeyEvent) -> (key: Key)
    ensures
        key == key_of(*e),
{
    match e.code {
        KeyCode::Enter => Key::Enter,
        KeyCode::Esc => Key::Escape,
        KeyCode::Up => Key::Up,
        KeyCode::Down => Key::Down,
        KeyCode::Left => Key::Left,
        KeyCode::Right => Key::Right,
        _ => Key::Other,
    }
}

/// Tells the variants of crossterm's `MouseEventKind` apart: a press and a
/// drag of the left button, a plain move, and the rest. The contract gives
/// the result the name `action_of`; it claims nothing else.
#[verifier::external_body]
pub(crate) fn mouse_action(kind: &MouseEventKind) -> (action: MouseAction)
    ensures
        action == action_of(*kind),
{
    match kind {
        MouseEventKind::Down(MouseButton::Left) => MouseAction::LeftDown,
        MouseEventKind::Drag(MouseButton::Left) => MouseAction::LeftDrag,
        MouseEventKind::Moved => MouseAction::Moved,
        _ => MouseAction::Other,
    }
}

/// Tells the variants of crossterm's `Event` apart and moves out the key
/// event, or the column, row and kind of the mouse event. The contract
/// gives the result the name `input_of`; it claims nothing else.
#[verifier::external_body]
pub(crate) fn classify(event: Event) -> (input: Input)
    ensures
        input == input_of(event),
{
    match event {
        Event::Key(key) => Input::Key(key),
        Event::Mouse(mouse) => Input::Mouse(mouse.column, mouse.row, mouse.kind),
        _ => Input::Ignored,
    }
}

} // verus!
