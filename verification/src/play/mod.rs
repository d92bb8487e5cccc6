//! Showing the task tree.

pub mod tasktree;
