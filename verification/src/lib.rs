//! Core of a desktop command launcher: named shell commands with optional
//! kill scripts and global keyboard shortcuts.
//!
//! The library holds the decision logic of the launcher: which script an
//! invocation request may run (the safe-mode gate and command lookup), how the
//! registry of running processes changes around a spawn, how a kill request is
//! resolved (custom kill script first, signal fallback second), which
//! shortcuts a refresh must register, and the storage codec for the command
//! list and the configuration record. The host process performs the actual
//! file, process and shortcut-registrar calls and feeds their outcomes back
//! into these functions.

pub mod codec;
pub mod laws;
pub mod lifecycle;
pub mod models;
pub mod ops;
pub mod paths;
pub mod registry;
pub mod shortcuts;
pub mod text;
