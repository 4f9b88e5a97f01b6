//! Small mathematics.

pub mod vec2;
