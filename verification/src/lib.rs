//! Lyrics parsing and library helpers for the Rustle music player.

pub mod engine;
pub mod i18n;
pub mod import;
pub mod keybindings;
pub mod lyrics;
pub mod media;
pub mod mpris;
pub mod paths;
pub mod settings;
pub mod text;
pub mod tray;
