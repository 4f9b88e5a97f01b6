//! The VGA text buffer: 25 rows of 80 cells, each a character and a colour.

use vstd::prelude::*;
use vstd::string::{StrSliceExecFns, StringSliceAdditionalSpecFns};

verus! {

/// Size of the text buffer in bytes.
pub const TEXT_BUFFER_SIZE: usize = 4000;

/// A writer into a text buffer: the buffer, the place of the next cell, and
/// the colour in use.
pub struct VGAWriter {
    pub buffer: Vec<u8>,
    pub idx: usize,
    pub color: u8,
}

/// The colours of text mode.
pub struct Color;

impl Color {
    pub const BLACK: u8 = 0;

    pub const BLUE: u8 = 1;

    pub const GREEN: u8 = 2;

    pub const CYAN: u8 = 3;

    pub const RED: u8 = 4;

    pub const MAGENTA: u8 = 5;

    pub const BROWN: u8 = 6;

    pub const LIGHT_GRAY: u8 = 7;

    pub const DARK_GRAY: u8 = 8;

    pub const LIGHT_BLUE: u8 = 9;

    pub const LIGHT_GREEN: u8 = 10;

    pub const LIGHT_CYAN: u8 = 11;

    pub const LIGHT_RED: u8 = 12;

    pub const LIGHT_MAGENTA: u8 = 13;

    pub const YELLOW: u8 = 14;

    pub const WHITE: u8 = 15;
}

/// The buffer and the place of the next cell after the characters of
/// `text` from number `from` on were written in colour `color`: each goes
/// into the next cell as long as a whole cell is left.
pub open spec fn text_written(buffer: Seq<u8>, idx: int, text: Seq<char>, from: int, color: u8) -> (
    Seq<u8>,
    int,
)
    decreases text.len() - from,
{
    if from < 0 || from >= text.len() {
        (buffer, idx)
    } else if 0 <= idx && idx + 1 < buffer.len() {
        text_written(
            buffer.update(idx, (text[from] as u32 % 256) as u8).update(idx + 1, color),
            idx + 2,
            text,
            from + 1,
            color,
        )
    } else {
        text_written(buffer, idx, text, from + 1, color)
    }
}

/// The buffer after the bytes of `text` from number `from` on were written
/// from byte `start` on, each followed by the colour.
pub open spec fn bytes_placed(buffer: Seq<u8>, start: int, text: Seq<u8>, from: int, color: u8) -> Seq<u8>
    decreases text.len() - from,
{
    if from < 0 || from >= text.len() {
        buffer
    } else {
        bytes_placed(
            buffer.update(start + 2 * from, text[from]).update(start + 2 * from + 1, color),
            start,
            text,
            from + 1,
            color,
        )
    }
}

impl VGAWriter {
    /// A writer with an empty buffer, about to write white text into the
    /// last row.
    pub fn new() -> (writer: Self)
        ensures
            writer.buffer@ == Seq::new(4000, |i: int| 0u8),
            writer.idx == 3840,
            writer.color == 0xf,
    {
        let buffer: Vec<u8> = vec![0u8; 4000];
        assert(buffer@ =~= Seq::new(4000, |i: int| 0u8));
        VGAWriter { buffer, idx: 3840, color: 0xf }
    }

    /// The place of the next cell divided by 50.
    pub fn get_line(&self) -> (line: usize)
        ensures
            line == self.idx / 50,
    {
        self.idx / 50
    }

    /// The byte within its row at which the next cell lies.
    pub fn get_col(&self) -> (col: usize)
        ensures
            col == self.idx % 160,
    {
        self.idx % 160
    }

    /// Copies the buffer to the screen. The writer does not reach the screen
    /// by itself: nothing happens.
    pub fn copy_to_vga(&self) {
    }

    /// Puts the place of the next cell back to the start of its row.
    pub fn newline(&mut self)
        ensures
            final(self).idx == old(self).idx / 160 * 160,
            final(self).buffer@ == old(self).buffer@,
            final(self).color == old(self).color,
    {
        self.idx = (self.idx / 160) * 160;
        self.shift_up(1);
    }

    /// Writes `s` as [`VGAWriter::write_color`] does and goes back to the
    /// start of the row.
    pub fn writeln_color(&mut self, s: &str, color: Option<u8>)
        ensures
            final(self).buffer@ == text_written(
                old(self).buffer@,
                old(self).idx as int,
                s@,
                0,
                match color {
                    None => 0xfu8,
                    Some(c) => c,
                },
            ).0,
            final(self).idx == text_written(
                old(self).buffer@,
                old(self).idx as int,
                s@,
                0,
                match color {
                    None => 0xfu8,
                    Some(c) => c,
                },
            ).1 / 160 * 160,
            final(self).color == old(self).color,
    {
        self.write_color(s, color);
        self.newline();
    }

    /// Writes the characters of `s`, each as its code modulo 256, into
    /// the cells from the next one on, in colour `color` or in white. What
    /// does not fit into the buffer is left out.
    pub fn write_color(&mut self, s: &str, color: Option<u8>)
        ensures
            (final(self).buffer@, final(self).idx as int) == text_written(
                old(self).buffer@,
                old(self).idx as int,
                s@,
                0,
                match color {
                    None => 0xfu8,
                    Some(c) => c,
                },
            ),
            final(self).color == old(self).color,
    {
        let color: u8 = match color {
            None => 0xf,
            Some(color) => color,
        };
        let n: usize = s.unicode_len();
        let total: usize = self.buffer.len();
        let mut i: usize = 0;
        while i < n
            invariant
                i <= n,
                n == s@.len(),
                total == self.buffer@.len(),
                self.color == old(self).color,
                text_written(old(self).buffer@, old(self).idx as int, s@, 0, color) == text_written(
                    self.buffer@,
                    self.idx as int,
                    s@,
                    i as int,
                    color,
                ),
            decreases n - i,
        {
            let c: char = s.get_char(i);
            if self.idx < total && total - self.idx >= 2 {
                self.buffer[self.idx] = (c as u32 % 256) as u8;
                self.buffer[self.idx + 1] = color;
                self.idx += 2;
            }
            i += 1;
        }
    }

    /// Writes the bytes of `s` into the cells from row `row` and column
    /// `col` on, in colour `color`; the next cell is then counted from the
    /// first of these cells in bytes of text.
    pub fn write_str_at(&mut self, s: &str, row: usize, col: usize, color: u8)
        requires
            (row * 80 + col) * 2 + 2 * s.spec_bytes().len() <= old(self).buffer@.len(),
        ensures
            final(self).buffer@ == bytes_placed(
                old(self).buffer@,
                (row * 80 + col) * 2,
                s.spec_bytes(),
                0,
                color,
            ),
            final(self).idx == (row * 80 + col) * 2 + s.spec_bytes().len(),
            final(self).color == old(self).color,
    {
        let total: usize = self.buffer.len();
        let start_pos: usize = (row * 80 + col) * 2;
        let bytes = s.as_bytes();
        let n: usize = bytes.len();
        let mut i: usize = 0;
        while i < n
            invariant
                i <= n,
                n == bytes@.len(),
                total == self.buffer@.len(),
                start_pos + 2 * n <= total,
                self.color == old(self).color,
                bytes_placed(old(self).buffer@, start_pos as int, bytes@, 0, color) == bytes_placed(
                    self.buffer@,
                    start_pos as int,
                    bytes@,
                    i as int,
                    color,
                ),
            decreases n - i,
        {
            self.buffer[start_pos + i * 2] = bytes[i];
            self.buffer[start_pos + i * 2 + 1] = color;
            i += 1;
        }
        self.idx = start_pos + n;
    }

    /// Moves the text up by `lines` rows. The text does not move yet:
    /// nothing changes.
    fn shift_up(&mut self, lines: usize)
        ensures
            *final(self) == *old(self),
    {
    }

    /// Writes `s` in the writer's colour.
    pub fn write_str(&mut self, s: &str)
        ensures
            (final(self).buffer@, final(self).idx as int) == text_written(
                old(self).buffer@,
                old(self).idx as int,
                s@,
                0,
                old(self).color,
            ),
            final(self).color == old(self).color,
    {
        let color: u8 = self.color;
        self.write_color(s, Some(color));
    }
}

/// The writer given, or a new one where none is given. Nothing is written.
pub fn write_str(s: &str, writer: Option<VGAWriter>, color: u8) -> (w: VGAWriter)
    ensures
        match writer {
            Some(given) => w == given,
            None => w.buffer@ == Seq::new(4000, |i: int| 0u8) && w.idx == 3840 && w.color == 0xf,
        },
{
    match writer {
        None => VGAWriter::new(),
        Some(writer_arg) => writer_arg,
    }
}

} // verus!
