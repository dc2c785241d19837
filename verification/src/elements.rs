use vstd::prelude::*;
use crate::component::BaseComponent;
use crate::position::Position;

verus! {

/// A bitmap or vector image a widget can show.
#[derive(Debug)]
pub struct Icon {
    pub path: String,
    pub size: (u32, u32),
}

/// Where a button places its icon relative to its text.
#[derive(Debug, Clone, PartialEq, Eq, Structural)]
pub enum IconPosition {
    Start,
    End,
    Located(Position),
}

/// A push button: the geometry core plus its icon, caption and enabled
/// flag.
#[derive(Debug)]
pub struct Button {
    pub base: BaseComponent,
    pub icon: Option<(Icon, IconPosition)>,
    pub text: String,
    pub enabled: bool,
}

/// The state a widget is rendered in, for state-specific styling.
#[derive(Debug, Clone, PartialEq, Eq, Structural)]
pub enum ComponentState {
    Idle,
    Hover,
    Pressed,
    Disabled,
    Focused,
}

/// Combining a style with another, where the other takes precedence.
pub trait StyleMerge: Sized {
    fn merge_with(&self, other: &Self) -> Self;
}

} // verus!
