//! Worktree management.

pub mod git;
