//! The rules of a btrfs project manager: when a project is snapshotted, which snapshots may
//! go, when a project freezes, what a command is allowed to do.
//!
//! Everything here works on plain values. Reading the file system, calling `btrfs` and asking
//! the clock happen in the program around the library.

pub mod btrfs;
pub mod cli;
pub mod clock;
pub mod config;
pub mod ctx;
pub mod error;
pub mod hooks;
pub mod mechanics;
pub mod ops;
pub mod output;
pub mod outside;
pub mod policy;
pub mod privilege;
pub mod project;
pub mod store;
pub mod util;
