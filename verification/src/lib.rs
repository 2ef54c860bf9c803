//! Verified core of a hotkey tool that toggles a game's player count.
pub mod config;
pub mod text;
pub mod utils;
pub mod module;
pub mod game;
pub mod hook;
pub mod ini_text;
