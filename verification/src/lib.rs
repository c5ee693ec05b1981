//! A tiling layout engine for terminal dashboards: a tree of bordered panes
//! that are split along one axis, sized proportionally, resized by dragging
//! shared borders, and navigated by keyboard focus.

use vstd::prelude::*;

pub mod canvas;
pub mod event;
pub mod layout;
pub mod pos;
pub mod model;
pub mod component;
pub mod container;
pub mod laws;

verus! {

/// A resize request that a node could not satisfy.
#[derive(Debug, Clone, PartialEq, Eq)]
pub struct ResizeError {
    pub name: String,
    pub width: u16,
    pub height: u16,
    pub border_width: u16,
}

/// The interaction state of a node.
#[derive(Debug, Clone, Copy, PartialEq, Eq, Structural)]
pub enum Focus {
    /// The node receives key and mouse input.
    Focus,
    /// The node is highlighted by keyboard navigation but receives no input.
    PartialFocus,
    /// The node takes no part in the interaction.
    NoFocus,
}

/// The outcome of a search for the focused node.
pub enum FocusResult<T> {
    Focus(T),
    PartialFocus(T),
    NoFocus,
}

/// An edge of a rectangle.
#[derive(Debug, Clone, Copy, PartialEq, Eq, Structural)]
pub enum Border {
    Top,
    Bottom,
    Left,
    Right,
}

} // verus!
