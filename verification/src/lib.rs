//! Clipboard history library: the in-memory history ring with pinned
//! entries, the configuration file format, the encrypted history file
//! records, hotkey combo strings and the menu and popup decisions.

pub mod text;
pub mod clipboard;
pub mod config;
pub mod crypto;
pub mod history;
pub mod json;
pub mod hotkey;
pub mod log;
pub mod popup;
pub mod tray;
