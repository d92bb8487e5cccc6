//! A verified library for the task-game engine: styled terminal text,
//! task and quest models, their markdown parsers, and the index maintainer.

pub mod chars;
pub mod unicode;
pub mod rtext;
pub mod strs;
pub mod keymap;
pub mod paths;
pub mod text;
pub mod text_style;
pub mod md_link;
pub mod rt;
pub mod decoder;
pub mod dict;
pub mod game;
pub mod settings;
pub mod feno;
pub mod down;
pub mod play;
