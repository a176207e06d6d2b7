//! Text, time, paths, trees, processes and maps keyed by text.

pub mod order;
pub mod paths;
pub mod proc;
pub mod relpath;
pub mod strmap;
pub mod text;
pub mod time;
pub mod walk;
