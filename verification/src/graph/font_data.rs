//! What the writer has to know of a bitmap font.

use vstd::prelude::*;

verus! {

/// Number of bytes that hold one glyph: 16 rows of 12 pixels, one bit each.
pub const GLYPH_BYTES: usize = 24;

/// The width of a glyph's row in pixels.
pub const GLYPH_ROW: usize = 12;

/// The measures of a font's characters, in pixels.
#[derive(Clone, Copy, Debug)]
pub struct FontData {
    pub font_width: u8,
    pub font_height: u8,
}

} // verus!
