//! A library for running named shortcuts: ordered chains of shell commands
//! whose command strings may reference arguments, static variables,
//! environment values and the outputs of earlier steps in the chain.
//!
//! The library itself never touches the file system, the environment or a
//! process: callers hand it parsed definitions, parsed argument values, an
//! environment snapshot and each executed command's captured output, and the
//! library decides what to render and what to run next.

pub mod bindings;
pub mod commands;
pub mod render;
pub mod runner;
pub mod settings;
pub mod shortcut;
pub mod strutil;
