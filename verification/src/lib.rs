//! Session isolation for concurrent working sessions on a set of git
//! repositories: the decisions of the session-start hook and of the git helpers
//! that it relies on.
//!
//! Everything here is a function on plain values. What the file system, git or
//! the clock has to say comes in as an argument, and what is to be done goes out
//! as a value; the program around the library performs it.

pub mod text;
pub mod calendar;
pub mod system;
pub mod path;
pub mod worktree;
pub mod glob;
pub mod archive;
pub mod cleanup;
pub mod session;
pub mod recovery;
pub mod output;
pub mod start;
pub mod sweep;
pub mod history;
