//! Layout-geometry and change-notification core of a UI component toolkit.
//!
//! The crate computes the rectangular bounds a component occupies from its
//! position, size, margin and padding under a selectable box-sizing policy,
//! and propagates change notifications through a small publish/subscribe
//! registry whose listener handles are non-owning.

pub mod action_state;
pub mod border;
pub mod boundaries;
pub mod codec;
pub mod color;
pub mod component;
pub mod cursor;
pub mod elements;
pub mod events;
pub mod forms;
pub mod gradient;
pub mod margin;
pub mod overflow;
pub mod padding;
pub mod position;
pub mod size;
pub mod text;
pub mod theme;
pub mod util;
