//! Windows.

use vstd::prelude::*;

verus! {

/// A window: its extent and its number.
pub struct Window {
    pub width: usize,
    pub height: usize,
    pub id: u8,
}

} // verus!
