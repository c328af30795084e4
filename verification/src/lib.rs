//! Finds directories whose name matches a target, case-insensitively, in a
//! depth-bounded, cycle-safe walk of a directory tree, and decides which of
//! them to report for removal and which to descend into.
//!
//! The crate holds the decision logic only: callers enumerate directories and
//! perform deletions, feeding each directory's entries back to the engine.

pub mod engine;
pub mod laws;
pub mod names;
pub mod pathstr;
