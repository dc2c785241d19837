use vstd::prelude::*;
use crate::position::Position;

verus! {

/// Remembers the cursor position most recently reported by the windowing
/// layer. Querying the operating system happens outside this crate; the
/// tracker itself only stores the plain coordinates it is handed.
#[derive(Debug, Default, Clone, Copy, PartialEq, Eq, Structural)]
pub struct CursorTracker {
    pub cursor_position: Position,
}

impl CursorTracker {
    /// Records a freshly reported cursor position.
    pub fn update_position(&mut self, position: Position)
        ensures
            final(self).cursor_position == position,
    {
        self.cursor_position = position;
    }

    pub fn current_position(&self) -> (p: Position)
        ensures
            p == self.cursor_position,
    {
        self.cursor_position
    }
}

} // verus!
