//! Verified core of a branch-pruning tool: classifies local branches as
//! fully merged into main (via merge-simulation outcomes), builds and parses
//! the user-editable review document, and tracks per-branch deletion results.
pub mod branches;
pub mod bytes;
pub mod classify;
pub mod deletion;
pub mod document;
pub mod lines;
