//! Sources of quests and the settings around them.

pub mod git_cache;
pub mod rep_source;
pub mod settings;
