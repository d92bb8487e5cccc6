//! Keeping a Markdown task index in step with the task folders.

pub mod indexer;
