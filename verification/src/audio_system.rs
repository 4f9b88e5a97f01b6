//! Sound.

pub mod audio;
