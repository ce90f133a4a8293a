//! The node agent: reports a node's own progress once it runs from its root.

pub mod flowover;
pub mod inventory;
pub mod progress;
