//! The task game: tasks, quests, their configuration and their parsers.

pub mod tree_item;
pub mod task_config;
pub mod task_info;
pub mod task_location;
pub mod task_game;
pub mod task;
pub mod quest;
pub mod quest_parser;
pub mod task_parser;
pub mod game_builder;
