//! Surfaces: rectangles of coloured cells that can be painted onto the
//! screen.

use crate::graph::font_data::FontData;
use crate::graph::utils::ColorCode;
use crate::math::vec2::Vec2;
use vstd::prelude::*;

verus! {

/// Number of cells that the surface of a character holds.
pub const CHAR_CELLS: usize = 192;

/// A rectangle of cells, row by row, with the place of its upper left corner
/// on the screen. Cells of the colour `ignore_color` are not painted.
pub struct Surface {
    pub width: usize,
    pub height: usize,
    pub origin: Vec2<usize>,
    pub background_color: Option<ColorCode>,
    pub ignore_color: Option<ColorCode>,
    pub buffer: Vec<ColorCode>,
}

/// The mathematical value of a surface.
pub struct SurfaceView {
    pub width: int,
    pub height: int,
    pub origin: (int, int),
    pub background_color: Option<ColorCode>,
    pub ignore_color: Option<ColorCode>,
    pub cells: Seq<ColorCode>,
}

impl SurfaceView {
    /// The colour of the cell in row `row` and column `col`.
    pub open spec fn cell(self, row: int, col: int) -> ColorCode {
        self.cells[row * self.width + col]
    }

    /// The surface with its upper left corner at `origin`.
    pub open spec fn at(self, origin: (int, int)) -> SurfaceView {
        SurfaceView { origin, ..self }
    }
}

impl View for Surface {
    type V = SurfaceView;

    open spec fn view(&self) -> SurfaceView {
        SurfaceView {
            width: self.width as int,
            height: self.height as int,
            origin: (self.origin.x as int, self.origin.y as int),
            background_color: self.background_color,
            ignore_color: self.ignore_color,
            cells: self.buffer@,
        }
    }
}

/// Whether bit `bit` of the glyph is set, where bit 0 is the highest bit of
/// the first byte.
pub open spec fn glyph_bit(glyph: Seq<u8>, bit: int) -> bool {
    (glyph[bit / 8] & (128u8 >> ((bit % 8) as u8))) > 0
}

/// The colour of cell `cell` of a character's surface of row width `width`:
/// bit `12 * row + col` of the glyph decides between `color` and the
/// background for the cell in row `row` and column `col`, for columns
/// below 12; other cells are black.
pub open spec fn glyph_cell(glyph: Seq<u8>, width: int, color: ColorCode, background: ColorCode, cell: int) -> ColorCode {
    if width > 0 && cell % width < 12 && cell / width < 16 {
        if glyph_bit(glyph, 12 * (cell / width) + cell % width) {
            color
        } else {
            background
        }
    } else {
        ColorCode::Black
    }
}

impl Surface {
    /// The cells of the surface lie in its buffer.
    pub open spec fn wf(&self) -> bool {
        self.width * self.height <= self.buffer@.len()
    }

    /// The colour of the cell in row `row` and column `col`.
    pub open spec fn cell(&self, row: int, col: int) -> ColorCode {
        self.buffer@[row * self.width + col]
    }

    /// The surface of a character from its glyph: 16 rows of 12 bits, which
    /// are painted in `color` where set and in the background colour where
    /// not. Without a background colour the background is black and is not
    /// painted.
    pub fn from_font(glyph: &[u8], font: FontData, color: ColorCode, _background_color: Option<ColorCode>) -> (surface: Self)
        requires
            glyph@.len() == 24,
            font.font_width == 12,
        ensures
            surface.width == font.font_width,
            surface.height == font.font_height,
            surface.origin.x == 0 && surface.origin.y == 0,
            surface.background_color == _background_color,
            surface.ignore_color == (if _background_color is None {
                Some(ColorCode::Black)
            } else {
                None::<ColorCode>
            }),
            surface.buffer@.len() == 192,
            forall|cell: int|
                0 <= cell < 192 ==> #[trigger] surface.buffer@[cell] == glyph_cell(
                    glyph@,
                    12,
                    color,
                    match _background_color {
                        Some(b) => b,
                        None => ColorCode::Black,
                    },
                    cell,
                ),
    {
        let background: ColorCode = match _background_color {
            Some(b) => b,
            None => ColorCode::Black,
        };
        let ignore_color: Option<ColorCode> = if _background_color.is_none() {
            Some(ColorCode::Black)
        } else {
            None
        };
        let mut buffer: Vec<ColorCode> = Vec::new();
        let mut cell: usize = 0;
        while cell < 192
            invariant
                cell <= 192,
                glyph@.len() == 24,
                buffer@.len() == cell,
                forall|k: int|
                    0 <= k < cell ==> #[trigger] buffer@[k] == glyph_cell(
                        glyph@,
                        12,
                        color,
                        background,
                        k,
                    ),
            decreases 192 - cell,
        {
            let byte: u8 = glyph[cell / 8];
            let mask: u8 = 128u8 >> ((cell % 8) as u8);
            if byte & mask > 0 {
                buffer.push(color);
            } else {
                buffer.push(background);
            }
            cell += 1;
        }
        Surface {
            width: font.font_width as usize,
            height: font.font_height as usize,
            origin: Vec2::<usize>::new(0, 0),
            ignore_color,
            background_color: _background_color,
            buffer,
        }
    }

    /// The surface whose cells are `p`, with a black background.
    pub fn from_buffer(p: Vec<ColorCode>, _height: usize, _width: usize, _ignore_color: Option<ColorCode>) -> (surface: Surface)
        ensures
            surface.height == _height,
            surface.width == _width,
            surface.origin.x == 0 && surface.origin.y == 0,
            surface.background_color == Some(ColorCode::Black),
            surface.ignore_color == _ignore_color,
            surface.buffer@ == p@,
    {
        Surface {
            height: _height,
            width: _width,
            origin: Vec2::<usize>::new(0, 0),
            background_color: Some(ColorCode::Black),
            ignore_color: _ignore_color,
            buffer: p,
        }
    }

    /// A surface of black cells, which are not painted.
    pub fn from_blank(_width: usize, _height: usize) -> (surface: Surface)
        requires
            _width * _height <= usize::MAX,
        ensures
            surface.width == _width,
            surface.height == _height,
            surface.origin.x == 0 && surface.origin.y == 0,
            surface.background_color == Some(ColorCode::Black),
            surface.ignore_color == Some(ColorCode::Black),
            surface.buffer@ == Seq::new((_width * _height) as nat, |i: int| ColorCode::Black),
            surface.wf(),
    {
        let buffer: Vec<ColorCode> = vec![ColorCode::Black; _width * _height];
        assert(buffer@ =~= Seq::new((_width * _height) as nat, |i: int| ColorCode::Black));
        Surface {
            width: _width,
            height: _height,
            origin: Vec2::<usize>::new(0, 0),
            background_color: Some(ColorCode::Black),
            ignore_color: Some(ColorCode::Black),
            buffer,
        }
    }

    /// Puts the upper left corner at `new_origin`, given as row and column.
    #[inline]
    pub fn set_origin(&mut self, new_origin: Vec2<usize>)
        ensures
            final(self).origin == new_origin,
            final(self)@ == old(self)@.at((new_origin.x as int, new_origin.y as int)),
    {
        self.origin = new_origin;
    }

    /// The colour of the cell in row `row` and column `col`.
    #[inline]
    pub fn get_cell(&self, row: usize, col: usize) -> (color: ColorCode)
        requires
            row * self.width + col < self.buffer@.len(),
        ensures
            color == self.cell(row as int, col as int),
    {
        let total: usize = self.buffer.len();
        assert(row * self.width >= 0) by (nonlinear_arith);
        self.buffer[row * self.width + col]
    }

    /// The colour that is not painted, if there is one.
    #[inline]
    pub fn get_ignore_color(&self) -> (color: Option<ColorCode>)
        ensures
            color == self.ignore_color,
    {
        self.ignore_color
    }

    /// The place of the upper left corner, given as row and column.
    #[inline]
    pub fn get_origin(&self) -> (origin: Vec2<usize>)
        ensures
            origin == self.origin,
    {
        self.origin
    }

    /// Number of columns.
    #[inline]
    pub fn get_width(&self) -> (width: usize)
        ensures
            width == self.width,
    {
        self.width
    }

    /// Number of rows.
    #[inline]
    pub fn get_height(&self) -> (height: usize)
        ensures
            height == self.height,
    {
        self.height
    }
}

} // verus!
