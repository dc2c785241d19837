use vstd::prelude::*;

verus! {

/// The interaction state a control is in.
#[derive(Debug, Default, Clone, PartialEq, Eq, Hash, Structural)]
pub enum ActionState {
    #[default]
    Normal,
    Hovered,
    Pressed,
    Disabled,
}

impl ActionState {
    pub fn is_normal(&self) -> (r: bool)
        ensures
            r == (self is Normal),
    {
        matches!(self, ActionState::Normal)
    }

    pub fn is_hovered(&self) -> (r: bool)
        ensures
            r == (self is Hovered),
    {
        matches!(self, ActionState::Hovered)
    }

    pub fn is_pressed(&self) -> (r: bool)
        ensures
            r == (self is Pressed),
    {
        matches!(self, ActionState::Pressed)
    }

    pub fn is_disabled(&self) -> (r: bool)
        ensures
            r == (self is Disabled),
    {
        matches!(self, ActionState::Disabled)
    }
}

} // verus!
