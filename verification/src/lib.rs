//! Keyboard input for wlroots-based Wayland sessions.
//!
//! A virtual keyboard uploads an XKB keymap and then sends key codes. This library
//! parses key specs, resolves key names and characters to keysyms, generates the
//! keymap text and lays out what the keyboard has to do; a program performs it.

pub mod error;
pub mod key;
pub mod keyboard;
pub mod keymap;
pub mod keyspec;
pub mod keysym;
pub mod laws;
pub mod laws_keyboard;
pub mod laws_keymap;
pub mod laws_keysym;
pub mod laws_layout;
pub mod laws_text;
pub mod layout;
pub mod syntax;
pub mod text;
