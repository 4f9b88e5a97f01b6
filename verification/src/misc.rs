//! Odds and ends.

pub mod rand;
