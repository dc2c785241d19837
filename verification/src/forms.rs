use vstd::prelude::*;
use crate::component::BaseComponent;
use crate::text::TextComponent;

verus! {

/// Where a form button places its icon relative to its caption.
#[derive(Debug, Clone, PartialEq, Eq, Structural)]
pub enum IconPosition {
    Start,
    End,
}

/// A text label: the geometry core plus the text it shows.
#[derive(Debug, Clone, PartialEq, Eq)]
pub struct Label {
    pub base: BaseComponent,
    pub text: TextComponent,
}

} // verus!
