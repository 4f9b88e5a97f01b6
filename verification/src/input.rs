//! Keyboard input.

pub mod key_codes;
pub mod keyboard;
