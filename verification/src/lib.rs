//! Verified core of an auto clicker: click and key-press scheduling, hotkey
//! parsing and matching, screen geometry and system checks.
pub mod cycle;
pub mod engine;
pub mod hotkeys;
pub mod keyboard;
pub mod keycodes;
pub mod mouse;
pub mod script;
pub mod sequence_picker;
pub mod single_instance;
pub mod system_check;
pub mod text;
