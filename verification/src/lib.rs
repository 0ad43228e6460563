//! Verified core of a command-line alias manager for game executables.
//!
//! The library owns the logic of the program: the alias registry with its
//! uniqueness invariant, the persisted config record and its textual codec,
//! the directory-scan classification rules, the hostname-labeling heuristic,
//! the per-site page extraction, and the provider fallback state machine.
//! File, console and network I/O live outside the library and hand in plain
//! values.

pub mod checkup;
pub mod codec;
pub mod config;
pub mod html;
pub mod label;
pub mod orchestrator;
pub mod paths;
pub mod providers;
pub mod registry;
pub mod scanner;
pub mod text;
pub mod update;
