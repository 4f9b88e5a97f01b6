//! Writing text with a bitmap font: a cursor that moves over the screen
//! inside a box, and the surfaces of the characters that were loaded.

use crate::graph::font_data::FontData;
use crate::graph::planar_writer::{surface_rows, VgaPlanarWriter};
use crate::graph::surface::{Surface, SurfaceView};
use crate::graph::utils::ColorCode;
use crate::math::vec2::Vec2;
use vstd::prelude::*;
use vstd::string::StringSliceAdditionalSpecFns;

verus! {

/// Number of character surfaces: 128 characters in 16 colours.
pub const SURFACE_COUNT: usize = 2048;

/// The writer's state. Positions and extents are pairs of row and column.
pub struct FontWriter {
    pub font: FontData,
    pub cursor_pos: Vec2<usize>,
    /// How far the cursor moves on behind a character.
    pub horizontal_spacing: Vec2<usize>,
    /// How far the cursor moves on below a line.
    pub vertical_spacing: Vec2<usize>,
    /// The column to which the cursor goes back when a line is full.
    pub horizontal_retrace: usize,
    /// The row at which the writing started.
    pub vertical_retrace: usize,
    /// The writer is held to a box of this extent.
    pub box_size: Vec2<usize>,
    /// Whether the cursor stands where nothing can be written.
    pub out_of_bounds_flag: bool,
    pub char_surface_buffer: Vec<Surface>,
    pub loaded: Vec<bool>,
}

/// Where the writer stands: the cursor, the out-of-bounds flag, and the
/// screen's buffer.
pub struct Pen {
    pub pos: Vec2<usize>,
    pub flag: bool,
    pub screen: Seq<u8>,
}

/// Whether two rows of surfaces show the same, wherever they stand.
pub open spec fn same_glyphs(a: Seq<Surface>, b: Seq<Surface>) -> bool {
    &&& a.len() == b.len()
    &&& forall|i: int| 0 <= i < a.len() ==> (#[trigger] a[i])@.at((0, 0)) == b[i]@.at((0, 0))
}

/// The place of the surface of character `c` in colour `color`.
pub open spec fn surface_index(c: char, color: ColorCode) -> int {
    (c as int) * 16 + color.index()
}

impl FontWriter {
    /// The writer's invariant: there is a place for every surface, and
    /// every loaded surface has the font's extent and 192 cells.
    pub open spec fn wf(&self) -> bool {
        &&& self.char_surface_buffer@.len() == 2048
        &&& self.loaded@.len() == 2048
        &&& forall|i: int|
            0 <= i < 2048 && #[trigger] self.loaded@[i] ==> self.char_surface_buffer@[i].width
                == self.font.font_width && self.char_surface_buffer@[i].height
                == self.font.font_height && self.char_surface_buffer@[i].buffer@.len() == 192
    }

    /// The column behind a character written at `pos` and the spacing after it.
    pub open spec fn next_col(&self, pos: Vec2<usize>) -> int {
        pos.y + self.font.font_width + self.horizontal_spacing.y
    }

    /// The row below a line written at `pos` and the spacing after it.
    pub open spec fn next_row(&self, pos: Vec2<usize>) -> int {
        pos.x + self.font.font_height + self.vertical_spacing.x
    }

    /// Whether a character can be placed at `pos` as far as columns go: the
    /// column behind it lies inside the box and on the screen.
    pub open spec fn fits_horizontally(&self, pos: Vec2<usize>) -> bool {
        !(self.next_col(pos) - self.horizontal_retrace >= self.box_size.y || self.next_col(pos)
            >= 640)
    }

    /// Whether a character can be placed at `pos` as far as rows go: the
    /// row below it lies inside the box and on the screen.
    pub open spec fn fits_vertically(&self, pos: Vec2<usize>) -> bool {
        !(self.next_row(pos) - self.vertical_retrace >= self.box_size.x || self.next_row(pos)
            >= 480)
    }

    /// Whether the cursor stands where nothing can be written: before the
    /// retrace column or row, or where no character fits.
    pub open spec fn cursor_out_of_bounds(&self) -> bool {
        self.cursor_pos.x < self.vertical_retrace || self.cursor_pos.y < self.horizontal_retrace
            || !self.fits_horizontally(self.cursor_pos) || !self.fits_vertically(self.cursor_pos)
    }

    /// The cursor one line further down.
    pub open spec fn line_below(&self) -> Vec2<usize> {
        Vec2 {
            x: (self.cursor_pos.x + self.font.font_height + self.vertical_spacing.x) as usize,
            y: (self.cursor_pos.y + self.vertical_spacing.y) as usize,
        }
    }

    /// The place one line below `pos`.
    pub open spec fn below(&self, pos: Vec2<usize>) -> Vec2<usize> {
        Vec2 {
            x: (pos.x + self.font.font_height + self.vertical_spacing.x) as usize,
            y: (pos.y + self.vertical_spacing.y) as usize,
        }
    }

    /// Where a character is written when the cursor stands at `pos`: at
    /// `pos` where it fits the line, else at the retrace column of the
    /// next line.
    pub open spec fn char_start(&self, pos: Vec2<usize>) -> Vec2<usize> {
        if self.fits_horizontally(pos) {
            pos
        } else {
            Vec2 { x: self.below(pos).x, y: self.horizontal_retrace }
        }
    }

    /// Where the cursor stands after a character was written with the
    /// cursor at `pos`: at the character's place where it does not fit the
    /// rows, else behind it.
    pub open spec fn char_end(&self, pos: Vec2<usize>) -> Vec2<usize> {
        let start = self.char_start(pos);
        if !self.fits_vertically(start) {
            start
        } else {
            Vec2 {
                x: (start.x + self.horizontal_spacing.x) as usize,
                y: (start.y + self.font.font_width + self.horizontal_spacing.y) as usize,
            }
        }
    }

    /// Whether the sums that a new line below `pos` takes are numbers of
    /// the machine.
    pub open spec fn line_in_range(&self, pos: Vec2<usize>) -> bool {
        pos.x + self.font.font_height + self.vertical_spacing.x <= usize::MAX && pos.y
            + self.vertical_spacing.y <= usize::MAX
    }

    /// Whether the sums that bringing the flag up to date takes are numbers
    /// of the machine: the column behind a character at the cursor, and the
    /// row below it where that column is looked at and found to fit.
    pub open spec fn check_in_range(&self) -> bool {
        self.cursor_pos.x >= self.vertical_retrace && self.cursor_pos.y >= self.horizontal_retrace
            ==> self.next_col(self.cursor_pos) <= usize::MAX && (self.fits_horizontally(
            self.cursor_pos,
        ) ==> self.next_row(self.cursor_pos) <= usize::MAX)
    }

    /// Whether the sums that writing a character with the cursor at `pos`
    /// takes are numbers of the machine: the column behind it, the new line
    /// where it does not fit the line, the row below its place, and the
    /// cursor behind it where it is written.
    pub open spec fn char_in_range(&self, pos: Vec2<usize>) -> bool {
        &&& self.next_col(pos) <= usize::MAX
        &&& (!self.fits_horizontally(pos) ==> self.line_in_range(pos))
        &&& self.next_row(self.char_start(pos)) <= usize::MAX
        &&& (self.fits_vertically(self.char_start(pos)) ==> self.char_start(pos).x
            + self.horizontal_spacing.x <= usize::MAX && self.next_col(self.char_start(pos))
            <= usize::MAX)
    }

    /// Whether the sums that writing the bytes of `text` from number `from`
    /// on takes, with the cursor at `pos` and the flag as `flag` says, are
    /// numbers of the machine.
    pub open spec fn text_in_range(&self, pos: Vec2<usize>, flag: bool, text: Seq<u8>, from: int) -> bool
        decreases text.len() - from,
    {
        if from < 0 || from >= text.len() {
            true
        } else if text[from] == 0x0A {
            self.line_in_range(pos) && self.text_in_range(self.below(pos), flag, text, from + 1)
        } else {
            self.char_in_range(pos) && (flag || !self.fits_vertically(self.char_start(pos))
                || self.text_in_range(self.char_end(pos), false, text, from + 1))
        }
    }

    /// Where the writer stands after character `c` was written in colour
    /// `color`: where the character does not fit the rows the flag is up and
    /// nothing is painted; else the character's surface is painted at its
    /// place and the cursor stands behind it.
    pub open spec fn char_step(&self, pen: Pen, c: char, color: ColorCode) -> Pen {
        let start = self.char_start(pen.pos);
        if !self.fits_vertically(start) {
            Pen { pos: start, flag: true, screen: pen.screen }
        } else {
            Pen {
                pos: Vec2 {
                    x: (start.x + self.horizontal_spacing.x) as usize,
                    y: (start.y + self.font.font_width + self.horizontal_spacing.y) as usize,
                },
                flag: pen.flag,
                screen: surface_rows(
                    pen.screen,
                    self.char_surface_buffer@[surface_index(c, color)]@.at(
                        (start.x as int, start.y as int),
                    ),
                    0,
                ),
            }
        }
    }

    /// Where the writer stands after the bytes of `text` from number `from`
    /// on were written: a line feed starts a new line, any other byte is
    /// written as a character, and the writing ends once the flag is up.
    pub open spec fn text_step(&self, pen: Pen, text: Seq<u8>, from: int, color: ColorCode) -> Pen
        decreases text.len() - from,
    {
        if from < 0 || from >= text.len() {
            pen
        } else if text[from] == 0x0A {
            self.text_step(Pen { pos: self.below(pen.pos), ..pen }, text, from + 1, color)
        } else {
            let next = self.char_step(pen, text[from] as char, color);
            if next.flag {
                next
            } else {
                self.text_step(next, text, from + 1, color)
            }
        }
    }

    /// The writer as it starts to write at its cursor: the retrace column
    /// and row are those of the cursor.
    pub open spec fn started(&self) -> FontWriter {
        FontWriter {
            horizontal_retrace: self.cursor_pos.y,
            vertical_retrace: self.cursor_pos.x,
            ..*self
        }
    }

    /// Whether the surface of every character of `text` but the line feed is
    /// loaded in colour `color`, and every byte of `text` is a line feed or
    /// a printable character.
    pub open spec fn can_write(&self, text: Seq<u8>, color: ColorCode) -> bool {
        forall|i: int|
            0 <= i < text.len() ==> #[trigger] text[i] == 0x0A || (32 <= text[i] <= 126
                && self.loaded@[surface_index(text[i] as char, color)])
    }

    /// A writer for the font `_font`, with the cursor in the upper left
    /// corner, the whole screen as its box, two columns between characters
    /// and three rows between lines, and no surface loaded.
    pub fn new(_font: FontData) -> (writer: Self)
        ensures
            writer.wf(),
            writer.font == _font,
            writer.cursor_pos.x == 0 && writer.cursor_pos.y == 0,
            writer.horizontal_spacing.x == 0 && writer.horizontal_spacing.y == 2,
            writer.vertical_spacing.x == 3 && writer.vertical_spacing.y == 0,
            writer.horizontal_retrace == 0 && writer.vertical_retrace == 0,
            writer.box_size.x == 480 && writer.box_size.y == 640,
            !writer.out_of_bounds_flag,
            forall|i: int| 0 <= i < 2048 ==> !writer.loaded@[i],
    {
        let mut surfaces: Vec<Surface> = Vec::new();
        let mut i: usize = 0;
        while i < 2048
            invariant
                i <= 2048,
                surfaces@.len() == i,
            decreases 2048 - i,
        {
            surfaces.push(Surface::from_buffer(Vec::new(), 0, 0, None));
            i += 1;
        }
        let loaded: Vec<bool> = vec![false; 2048];
        Self {
            font: _font,
            cursor_pos: Vec2::<usize>::new(0, 0),
            horizontal_spacing: Vec2::<usize>::new(0, 2),
            vertical_spacing: Vec2::<usize>::new(3, 0),
            horizontal_retrace: 0,
            vertical_retrace: 0,
            box_size: Vec2::<usize>::new(480, 640),
            out_of_bounds_flag: false,
            char_surface_buffer: surfaces,
            loaded,
        }
    }

    /// Whether a character can be placed at `pos` as far as columns go.
    pub fn check_horizontal_retrace(&self, pos: Vec2<usize>) -> (fits: bool)
        requires
            self.next_col(pos) <= usize::MAX,
            self.next_col(pos) >= self.horizontal_retrace,
        ensures
            fits == self.fits_horizontally(pos),
    {
        let next_cursor_col: usize = pos.y + (self.font.font_width as usize)
            + self.horizontal_spacing.y;
        let diff: usize = next_cursor_col - self.horizontal_retrace;
        !(diff >= self.box_size.y || next_cursor_col >= 640)
    }

    /// Whether a character can be placed at `pos` as far as rows go.
    pub fn check_vertical_retrace(&self, pos: Vec2<usize>) -> (fits: bool)
        requires
            self.next_row(pos) <= usize::MAX,
            self.next_row(pos) >= self.vertical_retrace,
        ensures
            fits == self.fits_vertically(pos),
    {
        let next_cursor_row: usize = pos.x + (self.font.font_height as usize)
            + self.vertical_spacing.x;
        let diff: usize = next_cursor_row - self.vertical_retrace;
        !(diff >= self.box_size.x || next_cursor_row >= 480)
    }

    /// Brings the out-of-bounds flag up to date.
    pub fn check_cursor_pos(&mut self)
        requires
            old(self).check_in_range(),
        ensures
            final(self).out_of_bounds_flag == old(self).cursor_out_of_bounds(),
            *final(self) == (FontWriter { out_of_bounds_flag: final(self).out_of_bounds_flag, ..*old(self) }),
    {
        if self.cursor_pos.x < self.vertical_retrace || self.cursor_pos.y < self.horizontal_retrace
            || self.check_horizontal_retrace(self.cursor_pos) == false
            || self.check_vertical_retrace(self.cursor_pos) == false {
            self.out_of_bounds_flag = true;
        } else {
            self.out_of_bounds_flag = false;
        }
    }

    /// Starts a new line and puts the cursor back to the retrace column.
    pub fn do_horizontal_retrace(&mut self)
        requires
            old(self).line_in_range(old(self).cursor_pos),
        ensures
            final(self).cursor_pos.x == old(self).line_below().x,
            final(self).cursor_pos.y == old(self).horizontal_retrace,
            *final(self) == (FontWriter { cursor_pos: final(self).cursor_pos, ..*old(self) }),
    {
        self.new_line();
        self.cursor_pos.y = self.horizontal_retrace;
    }

    /// Loads the surface of character `c` in colour `color` from the
    /// character's glyph. Without a background colour the background is not
    /// painted.
    pub fn load_char_surface(&mut self, c: char, color: ColorCode, background_color: Option<ColorCode>, glyph: &[u8])
        requires
            old(self).wf(),
            (c as u32) < 128,
            glyph@.len() == 24,
            old(self).font.font_width == 12,
        ensures
            final(self).wf(),
            final(self).loaded@ == old(self).loaded@.update(surface_index(c, color), true),
            final(self).char_surface_buffer@.len() == 2048,
            forall|i: int|
                0 <= i < 2048 && i != surface_index(c, color) ==> final(self).char_surface_buffer@[i]
                    == old(self).char_surface_buffer@[i],
            final(self).char_surface_buffer@[surface_index(c, color)].ignore_color == (
            if background_color is None {
                Some(ColorCode::Black)
            } else {
                None::<ColorCode>
            }),
            final(self).font == old(self).font,
            final(self).cursor_pos == old(self).cursor_pos,
            final(self).horizontal_spacing == old(self).horizontal_spacing,
            final(self).vertical_spacing == old(self).vertical_spacing,
            final(self).horizontal_retrace == old(self).horizontal_retrace,
            final(self).vertical_retrace == old(self).vertical_retrace,
            final(self).box_size == old(self).box_size,
            final(self).out_of_bounds_flag == old(self).out_of_bounds_flag,
    {
        let c_as_idx: usize = c as usize;
        let color_as_idx: usize = color.code() as usize;
        let at: usize = c_as_idx * 16 + color_as_idx;
        let surface = Surface::from_font(glyph, self.font, color, background_color);
        self.char_surface_buffer[at] = surface;
        self.loaded[at] = true;
    }

    /// Writes character `c` in colour `color` at the cursor and moves the
    /// cursor on behind it. Where the character does not fit into the line,
    /// it goes to the start of the next line; where it does not fit into
    /// the rows either, nothing is written, the out-of-bounds flag goes up
    /// and the result is `false`.
    pub fn write_char(&mut self, writer: &mut VgaPlanarWriter, c: char, color: ColorCode) -> (written:
        bool)
        requires
            old(self).wf(),
            old(self).char_in_range(old(self).cursor_pos),
            old(writer).wf(),
            (c as u32) < 128,
            old(self).loaded@[surface_index(c, color)],
            old(self).cursor_pos.y >= old(self).horizontal_retrace,
            old(self).cursor_pos.x >= old(self).vertical_retrace,
            old(self).horizontal_retrace + old(self).font.font_width <= 640,
            old(self).font.font_width * old(self).font.font_height <= 192,
        ensures
            final(self).wf(),
            final(writer).wf(),
            final(self).font == old(self).font,
            final(self).horizontal_spacing == old(self).horizontal_spacing,
            final(self).vertical_spacing == old(self).vertical_spacing,
            final(self).horizontal_retrace == old(self).horizontal_retrace,
            final(self).vertical_retrace == old(self).vertical_retrace,
            final(self).box_size == old(self).box_size,
            final(self).loaded@ == old(self).loaded@,
            same_glyphs(final(self).char_surface_buffer@, old(self).char_surface_buffer@),
            final(writer).palette == old(writer).palette,
            (Pen {
                pos: final(self).cursor_pos,
                flag: final(self).out_of_bounds_flag,
                screen: final(writer).plane_buffer@,
            }) == old(self).char_step(
                Pen {
                    pos: old(self).cursor_pos,
                    flag: old(self).out_of_bounds_flag,
                    screen: old(writer).plane_buffer@,
                },
                c,
                color,
            ),
            written == old(self).fits_vertically(old(self).char_start(old(self).cursor_pos)),
    {
        let c_as_idx: usize = c as usize;
        let color_as_idx: usize = color.code() as usize;
        let at: usize = c_as_idx * 16 + color_as_idx;
        if self.check_horizontal_retrace(self.cursor_pos) == false {
            self.do_horizontal_retrace();
        }
        if self.check_vertical_retrace(self.cursor_pos) == false {
            self.out_of_bounds_flag = true;
            return false;
        }
        let pos = self.cursor_pos;
        self.char_surface_buffer[at].set_origin(pos);
        writer.write_surface(&self.char_surface_buffer[at]);
        self.cursor_pos.y = self.cursor_pos.y + self.font.font_width as usize;
        self.cursor_pos.x = self.cursor_pos.x + self.horizontal_spacing.x;
        self.cursor_pos.y = self.cursor_pos.y + self.horizontal_spacing.y;
        true
    }

    /// Loads the surfaces of the printable characters, from the space to
    /// the tilde, in colour `color`. `glyphs` holds their glyphs in that
    /// order, 24 bytes each.
    pub fn load_text_color(&mut self, color: ColorCode, background_color: Option<ColorCode>, glyphs: &[u8])
        requires
            old(self).wf(),
            glyphs@.len() == 95 * 24,
            old(self).font.font_width == 12,
        ensures
            final(self).wf(),
            final(self).font == old(self).font,
            final(self).cursor_pos == old(self).cursor_pos,
            final(self).horizontal_spacing == old(self).horizontal_spacing,
            final(self).vertical_spacing == old(self).vertical_spacing,
            final(self).horizontal_retrace == old(self).horizontal_retrace,
            final(self).vertical_retrace == old(self).vertical_retrace,
            final(self).box_size == old(self).box_size,
            final(self).out_of_bounds_flag == old(self).out_of_bounds_flag,
            forall|k: int|
                0 <= k < 2048 ==> #[trigger] final(self).loaded@[k] == (old(self).loaded@[k] || (
                k % 16 == color.index() && 32 <= k / 16 <= 126)),
    {
        let mut i: u8 = 32;
        while i < 127
            invariant
                32 <= i <= 127,
                self.wf(),
                glyphs@.len() == 95 * 24,
                self.font == old(self).font,
                self.font.font_width == 12,
                self.cursor_pos == old(self).cursor_pos,
                self.horizontal_spacing == old(self).horizontal_spacing,
                self.vertical_spacing == old(self).vertical_spacing,
                self.horizontal_retrace == old(self).horizontal_retrace,
                self.vertical_retrace == old(self).vertical_retrace,
                self.box_size == old(self).box_size,
                self.out_of_bounds_flag == old(self).out_of_bounds_flag,
                forall|k: int|
                    0 <= k < 2048 ==> #[trigger] self.loaded@[k] == (old(self).loaded@[k] || (k % 16
                        == color.index() && 32 <= k / 16 < i)),
            decreases 127 - i,
        {
            let from: usize = (i as usize - 32) * 24;
            let glyph = vstd::slice::slice_subrange(glyphs, from, from + 24);
            self.load_char_surface(i as char, color, background_color, glyph);
            i += 1;
        }
    }

    /// Writes `s` in colour `color` from the cursor on; the writing starts
    /// anew at the cursor. A line feed starts a new line, any other
    /// character is written as [`FontWriter::write_char`] does, and the
    /// writing ends with the character at which the out-of-bounds flag is
    /// up. The cursor may stand anywhere, and the spacings may be of any
    /// size, as long as each sum that the writing takes is a number of the
    /// machine.
    pub fn write(&mut self, writer: &mut VgaPlanarWriter, s: &str, color: ColorCode)
        requires
            old(self).wf(),
            old(writer).wf(),
            old(self).can_write(s.spec_bytes(), color),
            old(self).started().text_in_range(
                old(self).cursor_pos,
                old(self).out_of_bounds_flag,
                s.spec_bytes(),
                0,
            ),
            old(self).cursor_pos.y + old(self).font.font_width <= 640,
            old(self).font.font_width * old(self).font.font_height <= 192,
        ensures
            final(self).wf(),
            final(writer).wf(),
            final(self).font == old(self).font,
            final(self).horizontal_spacing == old(self).horizontal_spacing,
            final(self).vertical_spacing == old(self).vertical_spacing,
            final(self).horizontal_retrace == old(self).cursor_pos.y,
            final(self).vertical_retrace == old(self).cursor_pos.x,
            final(self).box_size == old(self).box_size,
            final(self).loaded@ == old(self).loaded@,
            same_glyphs(final(self).char_surface_buffer@, old(self).char_surface_buffer@),
            final(writer).palette == old(writer).palette,
            (Pen {
                pos: final(self).cursor_pos,
                flag: final(self).out_of_bounds_flag,
                screen: final(writer).plane_buffer@,
            }) == old(self).started().text_step(
                Pen {
                    pos: old(self).cursor_pos,
                    flag: old(self).out_of_bounds_flag,
                    screen: old(writer).plane_buffer@,
                },
                s.spec_bytes(),
                0,
                color,
            ),
    {
        self.horizontal_retrace = self.cursor_pos.y;
        self.vertical_retrace = self.cursor_pos.x;
        let ghost rules = *self;
        let ghost first = Pen {
            pos: self.cursor_pos,
            flag: self.out_of_bounds_flag,
            screen: writer.plane_buffer@,
        };
        let bytes = s.as_bytes();
        let n: usize = bytes.len();
        let mut i: usize = 0;
        while i < n
            invariant
                i <= n,
                n == bytes@.len(),
                bytes@ == s.spec_bytes(),
                first == (Pen {
                    pos: old(self).cursor_pos,
                    flag: old(self).out_of_bounds_flag,
                    screen: old(writer).plane_buffer@,
                }),
                rules == old(self).started(),
                self.wf(),
                writer.wf(),
                rules.can_write(bytes@, color),
                self.font == rules.font,
                self.horizontal_spacing == rules.horizontal_spacing,
                self.vertical_spacing == rules.vertical_spacing,
                self.horizontal_retrace == rules.horizontal_retrace,
                self.vertical_retrace == rules.vertical_retrace,
                self.box_size == rules.box_size,
                self.loaded@ == rules.loaded@,
                same_glyphs(self.char_surface_buffer@, rules.char_surface_buffer@),
                writer.palette == old(writer).palette,
                self.horizontal_retrace + self.font.font_width <= 640,
                self.font.font_width * self.font.font_height <= 192,
                self.cursor_pos.x >= self.vertical_retrace,
                self.cursor_pos.y >= self.horizontal_retrace,
                rules.text_in_range(self.cursor_pos, self.out_of_bounds_flag, bytes@, i as int),
                rules.text_step(first, bytes@, 0, color) == rules.text_step(
                    Pen {
                        pos: self.cursor_pos,
                        flag: self.out_of_bounds_flag,
                        screen: writer.plane_buffer@,
                    },
                    bytes@,
                    i as int,
                    color,
                ),
            decreases n - i,
        {
            let b: u8 = bytes[i];
            let ghost pen = Pen {
                pos: self.cursor_pos,
                flag: self.out_of_bounds_flag,
                screen: writer.plane_buffer@,
            };
            if b == 0x0A {
                self.new_line();
                assert(self.cursor_pos == rules.below(pen.pos));
            } else {
                let ghost before = *self;
                let c: char = b as char;
                assert(surface_index(c, color) == b * 16 + color.index());
                self.write_char(writer, c, color);
                proof {
                    let at = surface_index(c, color);
                    assert(before.char_surface_buffer@[at]@.at((0, 0))
                        == rules.char_surface_buffer@[at]@.at((0, 0)));
                    assert(before.char_start(pen.pos) == rules.char_start(pen.pos));
                    assert(before.char_step(pen, c, color) == rules.char_step(pen, c, color));
                    assert forall|k: int| 0 <= k < 2048 implies (
                    #[trigger] self.char_surface_buffer@[k])@.at((0, 0))
                        == rules.char_surface_buffer@[k]@.at((0, 0)) by {
                        assert(before.char_surface_buffer@[k]@.at((0, 0))
                            == rules.char_surface_buffer@[k]@.at((0, 0)));
                    }
                }
                if self.out_of_bounds_flag {
                    proof {
                        let next = rules.char_step(pen, c, color);
                        assert(bytes@[i as int] as char == c);
                        assert(next.flag);
                        assert(rules.text_step(pen, bytes@, i as int, color) == next);
                    }
                    return ;
                }
            }
            i += 1;
        }
    }

    /// Writes `s` as [`FontWriter::write`] does and puts the cursor back to
    /// where it stood.
    pub fn write_and_retrace(&mut self, writer: &mut VgaPlanarWriter, s: &str, color: ColorCode)
        requires
            old(self).wf(),
            old(writer).wf(),
            old(self).can_write(s.spec_bytes(), color),
            old(self).started().text_in_range(
                old(self).cursor_pos,
                old(self).out_of_bounds_flag,
                s.spec_bytes(),
                0,
            ),
            old(self).started().next_col(old(self).cursor_pos) <= usize::MAX,
            old(self).started().fits_horizontally(old(self).cursor_pos) ==> old(self).started().next_row(
                old(self).cursor_pos,
            ) <= usize::MAX,
            old(self).cursor_pos.y + old(self).font.font_width <= 640,
            old(self).font.font_width * old(self).font.font_height <= 192,
        ensures
            final(self).wf(),
            final(writer).wf(),
            final(self).font == old(self).font,
            final(self).horizontal_spacing == old(self).horizontal_spacing,
            final(self).vertical_spacing == old(self).vertical_spacing,
            final(self).horizontal_retrace == old(self).cursor_pos.y,
            final(self).vertical_retrace == old(self).cursor_pos.x,
            final(self).box_size == old(self).box_size,
            final(self).loaded@ == old(self).loaded@,
            same_glyphs(final(self).char_surface_buffer@, old(self).char_surface_buffer@),
            final(self).cursor_pos == old(self).cursor_pos,
            final(self).out_of_bounds_flag == (!old(self).started().fits_horizontally(
                old(self).cursor_pos,
            ) || !old(self).started().fits_vertically(old(self).cursor_pos)),
            final(writer).palette == old(writer).palette,
            final(writer).plane_buffer@ == old(self).started().text_step(
                Pen {
                    pos: old(self).cursor_pos,
                    flag: old(self).out_of_bounds_flag,
                    screen: old(writer).plane_buffer@,
                },
                s.spec_bytes(),
                0,
                color,
            ).screen,
    {
        let stashed_cursor_pos = self.cursor_pos;
        self.write(writer, s, color);
        self.set_cursor_pos(stashed_cursor_pos);
    }

    /// Moves the cursor one line further down.
    pub fn new_line(&mut self)
        requires
            old(self).line_in_range(old(self).cursor_pos),
        ensures
            final(self).cursor_pos == old(self).line_below(),
            *final(self) == (FontWriter { cursor_pos: final(self).cursor_pos, ..*old(self) }),
    {
        self.cursor_pos.x = self.cursor_pos.x + self.font.font_height as usize;
        self.cursor_pos.x = self.cursor_pos.x + self.vertical_spacing.x;
        self.cursor_pos.y = self.cursor_pos.y + self.vertical_spacing.y;
    }

    /// Sets how far the cursor moves on behind a character.
    pub fn set_horizontal_spacing(&mut self, spacing: Vec2<usize>)
        requires
            (FontWriter { horizontal_spacing: spacing, ..*old(self) }).check_in_range(),
        ensures
            final(self).horizontal_spacing == spacing,
            final(self).out_of_bounds_flag == (FontWriter {
                horizontal_spacing: spacing,
                ..*old(self)
            }).cursor_out_of_bounds(),
            *final(self) == (FontWriter {
                horizontal_spacing: spacing,
                out_of_bounds_flag: final(self).out_of_bounds_flag,
                ..*old(self)
            }),
    {
        self.horizontal_spacing = spacing;
        self.check_cursor_pos();
    }

    /// Sets how far the cursor moves on below a line.
    pub fn set_vertical_spacing(&mut self, spacing: Vec2<usize>)
        requires
            (FontWriter { vertical_spacing: spacing, ..*old(self) }).check_in_range(),
        ensures
            final(self).vertical_spacing == spacing,
            final(self).out_of_bounds_flag == (FontWriter {
                vertical_spacing: spacing,
                ..*old(self)
            }).cursor_out_of_bounds(),
            *final(self) == (FontWriter {
                vertical_spacing: spacing,
                out_of_bounds_flag: final(self).out_of_bounds_flag,
                ..*old(self)
            }),
    {
        self.vertical_spacing = spacing;
        self.check_cursor_pos();
    }

    /// Puts the cursor at `pos`; the writing starts anew there.
    pub fn set_cursor_pos(&mut self, pos: Vec2<usize>)
        requires
            (FontWriter {
                cursor_pos: pos,
                horizontal_retrace: pos.y,
                vertical_retrace: pos.x,
                ..*old(self)
            }).check_in_range(),
        ensures
            final(self).cursor_pos == pos,
            final(self).horizontal_retrace == pos.y,
            final(self).vertical_retrace == pos.x,
            final(self).out_of_bounds_flag == (!final(self).fits_horizontally(pos) || !final(self).fits_vertically(pos)),
            *final(self) == (FontWriter {
                cursor_pos: pos,
                horizontal_retrace: pos.y,
                vertical_retrace: pos.x,
                out_of_bounds_flag: final(self).out_of_bounds_flag,
                ..*old(self)
            }),
    {
        self.cursor_pos = pos;
        self.horizontal_retrace = pos.y;
        self.vertical_retrace = pos.x;
        self.check_cursor_pos();
    }

    /// Sets the extent of the box that the writer is held to.
    pub fn set_box_size(&mut self, sz: Vec2<usize>)
        requires
            (FontWriter { box_size: sz, ..*old(self) }).check_in_range(),
        ensures
            final(self).box_size == sz,
            final(self).out_of_bounds_flag == (FontWriter {
                box_size: sz,
                ..*old(self)
            }).cursor_out_of_bounds(),
            *final(self) == (FontWriter {
                box_size: sz,
                out_of_bounds_flag: final(self).out_of_bounds_flag,
                ..*old(self)
            }),
    {
        self.box_size = sz;
        self.check_cursor_pos();
    }

    /// Where the cursor stands.
    pub fn get_cursor_pos(&mut self) -> (pos: Vec2<usize>)
        ensures
            pos == old(self).cursor_pos,
            *final(self) == *old(self),
    {
        self.cursor_pos
    }
}

} // verus!
