//! The rules: change, idleness, loss and retention.

pub mod change;
pub mod lifecycle;
pub mod shrink;
pub mod thin;
