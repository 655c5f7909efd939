//! Helpers shared by the other modules.

pub mod config;
pub mod paths;
pub mod string_map;
pub mod text;
pub mod time;
