//! Command-interpretation core of a small interactive line shell.
//!
//! Given one line of raw user text, the library expands shell variables
//! (honoring single-quoted regions and the `$?` exit-status marker), splits
//! the result into an executable name plus arguments, and decides how the
//! command is satisfied: through a built-in handler acting on the in-memory
//! environment store, or by requesting that the caller spawn an external
//! process. Reading input lines, printing, changing directory and spawning
//! are left to the hosting program; the library computes what to do and how
//! the store and the exit status change.

pub mod dispatch;
pub mod env_store;
pub mod expand;
pub mod tokenize;
pub mod text;
