//! The write layer of the graphics: a buffer of four bit planes, which is
//! painted on and then presented to the video memory plane by plane.

use crate::drivers::port::PortWrite;
use crate::graph::surface::{Surface, SurfaceView};
use crate::tooling::qemu_io::{decimal_text, qemu_print_num};
use crate::graph::utils::{ColorCode, ColorPalette, CustomColor};
use vstd::prelude::*;

verus! {

/// Number of bytes of one scan line in one plane.
pub const SCAN_LN_SZ: usize = 80;

/// Number of scan lines.
pub const SCAN_LN_CNT: usize = 480;

/// Number of columns.
pub const COL_CNT: usize = 640;

/// Number of bytes of one plane.
pub const PLANE_SZ: usize = 38400;

/// Number of bytes of the four planes.
pub const PLANE_BUFF_SZ: usize = 153600;

/// The buffer of the four planes, and the palette.
pub struct VgaPlanarWriter {
    pub plane_buffer: Vec<u8>,
    pub palette: ColorPalette,
}

/// The byte of plane `plane` that holds the pixel in row `row` and column
/// `col`.
pub open spec fn pixel_byte(row: int, col: int, plane: int) -> int {
    80 * row + col / 8 + plane * 38400
}

/// The bit of that byte that holds the pixel: the highest bit for the first
/// of the eight columns of a byte.
pub open spec fn pixel_mask(col: int) -> u8 {
    0x80u8 >> ((col % 8) as u8)
}

/// The buffer after plane `plane` took its bit of the colour `color` for
/// the pixel in row `row` and column `col`.
pub open spec fn with_plane_bit(buffer: Seq<u8>, row: int, col: int, plane: int, color: u8) -> Seq<u8> {
    let at = pixel_byte(row, col, plane);
    if color & (1u8 << (plane as u8)) > 0 {
        buffer.update(at, buffer[at] | pixel_mask(col))
    } else {
        buffer.update(at, buffer[at] & !pixel_mask(col))
    }
}

/// The buffer after the pixel in row `row` and column `col` was painted in
/// the colour number `color`: each of the four planes took its bit.
pub open spec fn with_pixel(buffer: Seq<u8>, row: int, col: int, color: u8) -> Seq<u8> {
    with_plane_bit(
        with_plane_bit(with_plane_bit(with_plane_bit(buffer, row, col, 0, color), row, col, 1, color), row, col, 2, color),
        row,
        col,
        3,
        color,
    )
}

/// The buffer after the pixels of row `row` from column `col` up to, but
/// without, column `to_col` were painted.
pub open spec fn painted_span(buffer: Seq<u8>, row: int, col: int, to_col: int, color: u8) -> Seq<u8>
    decreases to_col - col,
{
    if col >= to_col {
        buffer
    } else {
        painted_span(with_pixel(buffer, row, col, color), row, col + 1, to_col, color)
    }
}

/// The buffer after the columns from `min_x` up to `max_x` of the rows from
/// `row` up to `to_row` were painted, upper bounds left out.
pub open spec fn painted_rect(buffer: Seq<u8>, row: int, to_row: int, min_x: int, max_x: int, color: u8) -> Seq<u8>
    decreases to_row - row,
{
    if row >= to_row {
        buffer
    } else {
        painted_rect(painted_span(buffer, row, min_x, max_x, color), row + 1, to_row, min_x, max_x, color)
    }
}

/// Whether the pixel in row `row` and column `col` lies inside the circle
/// round `mid`, given as row and column, with radius `radius`.
pub open spec fn in_circle(mid: (int, int), radius: int, row: int, col: int) -> bool {
    (mid.0 - row) * (mid.0 - row) + (mid.1 - col) * (mid.1 - col) < radius * radius
}

/// The buffer after those pixels of row `row` from column `col` up to, but
/// without, `to_col` were painted that lie inside the circle.
pub open spec fn circle_span(buffer: Seq<u8>, row: int, col: int, to_col: int, mid: (int, int), radius: int, color: u8) -> Seq<u8>
    decreases to_col - col,
{
    if col >= to_col {
        buffer
    } else {
        circle_span(
            if in_circle(mid, radius, row, col) {
                with_pixel(buffer, row, col, color)
            } else {
                buffer
            },
            row,
            col + 1,
            to_col,
            mid,
            radius,
            color,
        )
    }
}

/// The buffer after those pixels of the rows from `row` up to `to_row` and
/// the columns from `min_x` up to `max_x` were painted that lie inside the
/// circle, upper bounds left out.
pub open spec fn circle_rows(buffer: Seq<u8>, row: int, to_row: int, min_x: int, max_x: int, mid: (int, int), radius: int, color: u8) -> Seq<u8>
    decreases to_row - row,
{
    if row >= to_row {
        buffer
    } else {
        circle_rows(
            circle_span(buffer, row, min_x, max_x, mid, radius, color),
            row + 1,
            to_row,
            min_x,
            max_x,
            mid,
            radius,
            color,
        )
    }
}

/// The buffer after the cells of row `row` of a surface from column `col`
/// on were painted, but for those of the colour that is not painted.
pub open spec fn surface_span(buffer: Seq<u8>, surface: SurfaceView, row: int, col: int) -> Seq<u8>
    decreases surface.width - col,
{
    if col >= surface.width {
        buffer
    } else {
        surface_span(
            if surface.ignore_color == Some(surface.cell(row, col)) {
                buffer
            } else {
                with_pixel(
                    buffer,
                    row + surface.origin.0,
                    col + surface.origin.1,
                    surface.cell(row, col).index(),
                )
            },
            surface,
            row,
            col + 1,
        )
    }
}

/// The buffer after the rows of a surface from row `row` on were painted.
pub open spec fn surface_rows(buffer: Seq<u8>, surface: SurfaceView, row: int) -> Seq<u8>
    decreases surface.height - row,
{
    if row >= surface.height {
        buffer
    } else {
        surface_rows(surface_span(buffer, surface, row, 0), surface, row + 1)
    }
}

/// `x` held to the range from `low` to `high`.
pub open spec fn clipped(x: int, low: int, high: int) -> int {
    if x < low {
        low
    } else if x > high {
        high
    } else {
        x
    }
}

/// The buffer in which each plane is filled with ones where the colour has
/// the plane's bit, and with zeros where not.
pub open spec fn filled(color: u8) -> Seq<u8> {
    Seq::new(
        153600,
        |i: int|
            if color & (1u8 << ((i / 38400) as u8)) > 0 {
                255u8
            } else {
                0u8
            },
    )
}

/// The writes that open plane `plane` alone to writing and leave all other
/// planes closed.
pub open spec fn plane_enable(plane: int) -> Seq<PortWrite> {
    seq![PortWrite::Byte(0x3c4, 0x02), PortWrite::Byte(0x3c5, (1u8 << (plane as u8)))]
}

/// The decimal numbers of the bytes of `bytes` up to number `upto`, one
/// after the other.
pub open spec fn numbers_text(bytes: Seq<u8>, upto: int) -> Seq<u8>
    decreases upto,
{
    if upto <= 0 {
        Seq::empty()
    } else {
        numbers_text(bytes, upto - 1) + decimal_text(bytes[upto - 1] as u64)
    }
}

/// `a - b`, held to the numbers from 0 to `top`.
pub fn clip_below(a: usize, b: usize, top: usize) -> (c: usize)
    ensures
        c == clipped(a - b, 0, top as int),
{
    if b >= a {
        0
    } else if a - b > top {
        top
    } else {
        a - b
    }
}

/// `a + b`, held to the numbers from 0 to `top`.
pub fn clip_above(a: usize, b: usize, top: usize) -> (c: usize)
    ensures
        c == clipped(a + b, 0, top as int),
{
    if a >= top || b >= top - a {
        top
    } else {
        a + b
    }
}

/// The square of the distance between `a` and `b`.
fn gap_squared(a: usize, b: usize) -> (sq: u128)
    ensures
        sq == (a - b) * (a - b),
{
    let gap: u128 = if a >= b {
        (a - b) as u128
    } else {
        (b - a) as u128
    };
    assert(gap * gap <= 0xFFFF_FFFF_FFFF_FFFF * 0xFFFF_FFFF_FFFF_FFFF && gap * gap == (a - b) * (a
        - b)) by (nonlinear_arith)
        requires
            0 <= gap <= 0xFFFF_FFFF_FFFF_FFFF,
            gap == a - b || gap == b - a,
    ;
    gap * gap
}

/// Whether the pixel in row `row` and column `col` lies nearer to `mid`
/// than `radius`.
pub fn within(mid: (usize, usize), radius: usize, row: usize, col: usize) -> (inside: bool)
    ensures
        inside == in_circle((mid.0 as int, mid.1 as int), radius as int, row as int, col as int),
{
    let dy: u128 = gap_squared(mid.0, row);
    let dx: u128 = gap_squared(mid.1, col);
    let r: u128 = gap_squared(radius, 0);
    dy < r && dx < r - dy
}

impl VgaPlanarWriter {
    /// The writes that prepare the hardware for presenting: no rotation of
    /// the data, every bit taken from what is written, and the set/reset
    /// register out of use.
    pub fn setup_registers_for_present() -> (writes: Vec<PortWrite>)
        ensures
            writes@ == seq![
                PortWrite::Byte(0x3ce, 0x03),
                PortWrite::Byte(0x3cf, 0x00),
                PortWrite::Byte(0x3ce, 0x08),
                PortWrite::Byte(0x3cf, 0xff),
                PortWrite::Byte(0x3ce, 0x01),
                PortWrite::Byte(0x3cf, 0x00),
            ],
    {
        let mut writes: Vec<PortWrite> = Vec::new();
        writes.push(PortWrite::Byte(0x3ce, 0x03));
        writes.push(PortWrite::Byte(0x3cf, 0x00));
        writes.push(PortWrite::Byte(0x3ce, 0x08));
        writes.push(PortWrite::Byte(0x3cf, 0xff));
        writes.push(PortWrite::Byte(0x3ce, 0x01));
        writes.push(PortWrite::Byte(0x3cf, 0x0));
        writes
    }

    /// The writes that prepare the hardware for clearing the video memory,
    /// where `stashed` is what port 0x3CF holds: write mode 0, the set/reset
    /// register in use on all planes with the value zero, and all planes
    /// open.
    pub fn setup_registers_for_reset(stashed: u8) -> (writes: Vec<PortWrite>)
        ensures
            writes@ == seq![
                PortWrite::Byte(0x3ce, 0x05),
                PortWrite::Byte(0x3cf, (stashed & 0xfc) | 0),
                PortWrite::Byte(0x3ce, 0x01),
                PortWrite::Byte(0x3cf, 0xff),
                PortWrite::Byte(0x3ce, 0x00),
                PortWrite::Byte(0x3cf, 0x00),
                PortWrite::Byte(0xc4, 0x02),
                PortWrite::Byte(0xc5, 0xff),
            ],
    {
        let mut writes: Vec<PortWrite> = VgaPlanarWriter::set_write_mode(0, stashed);
        writes.push(PortWrite::Byte(0x3ce, 0x01));
        writes.push(PortWrite::Byte(0x3cf, 0xff));
        writes.push(PortWrite::Byte(0x3ce, 0x0));
        writes.push(PortWrite::Byte(0x3cf, 0x0));
        writes.push(PortWrite::Byte(0xc4, 0x02));
        writes.push(PortWrite::Byte(0xc5, 0xff));
        writes
    }

    /// The writes that open the planes of `mask` to writing.
    pub fn set_memory_plane_write_enable(mask: u8) -> (writes: Vec<PortWrite>)
        ensures
            writes@ == seq![PortWrite::Byte(0x3c4, 0x02), PortWrite::Byte(0x3c5, mask)],
    {
        let mut writes: Vec<PortWrite> = Vec::new();
        writes.push(PortWrite::Byte(0x3c4, 0x02));
        writes.push(PortWrite::Byte(0x3c5, mask));
        writes
    }

    /// The writes that set the write mode `mode`, where `stashed` is what
    /// port 0x3CF holds: the mode takes the place of its low two bits.
    pub fn set_write_mode(mode: u8, stashed: u8) -> (writes: Vec<PortWrite>)
        requires
            mode < 4,
        ensures
            writes@ == seq![
                PortWrite::Byte(0x3ce, 0x05),
                PortWrite::Byte(0x3cf, (stashed & 0xfc) | mode),
            ],
    {
        let mut writes: Vec<PortWrite> = Vec::new();
        writes.push(PortWrite::Byte(0x3ce, 0x05));
        writes.push(PortWrite::Byte(0x3cf, (stashed & 0xfc) | mode));
        writes
    }

    /// Presents the frame: for each plane in turn, the writes that open
    /// that plane alone; after them the bytes of that plane go to the video
    /// memory.
    pub fn present(&mut self, frame_nr: u32) -> (steps: Vec<Vec<PortWrite>>)
        ensures
            final(self).plane_buffer@ == old(self).plane_buffer@,
            final(self).palette == old(self).palette,
            steps@.len() == 4,
            forall|k: int| 0 <= k < 4 ==> (#[trigger] steps@[k])@ == plane_enable(k),
    {
        let mut steps: Vec<Vec<PortWrite>> = Vec::new();
        let mut k: u8 = 0;
        while k < 4
            invariant
                k <= 4,
                steps@.len() == k,
                forall|j: int| 0 <= j < k ==> (#[trigger] steps@[j])@ == plane_enable(j),
            decreases 4 - k,
        {
            steps.push(VgaPlanarWriter::set_memory_plane_write_enable(1u8 << k));
            k += 1;
        }
        steps
    }

    /// The writes that clear the video memory's planes, where `stashed` is
    /// what port 0x3CF holds; after them zeros go to the video memory.
    pub fn reset_video_memory(&mut self, stashed: u8) -> (writes: Vec<PortWrite>)
        ensures
            final(self).plane_buffer@ == old(self).plane_buffer@,
            final(self).palette == old(self).palette,
            writes@ == seq![
                PortWrite::Byte(0x3ce, 0x05),
                PortWrite::Byte(0x3cf, (stashed & 0xfc) | 0),
                PortWrite::Byte(0x3ce, 0x01),
                PortWrite::Byte(0x3cf, 0xff),
                PortWrite::Byte(0x3ce, 0x00),
                PortWrite::Byte(0x3cf, 0x00),
                PortWrite::Byte(0xc4, 0x02),
                PortWrite::Byte(0xc5, 0xff),
            ],
    {
        VgaPlanarWriter::setup_registers_for_reset(stashed)
    }

    /// The text that shows plane `planar`: the decimal number of each of
    /// its bytes, one after the other.
    pub fn print_plane(&mut self, planar: usize) -> (text: Vec<u8>)
        requires
            old(self).wf(),
            planar < 4,
        ensures
            final(self).plane_buffer@ == old(self).plane_buffer@,
            final(self).palette == old(self).palette,
            text@ == numbers_text(
                old(self).plane_buffer@.subrange(planar * 38400, planar * 38400 + 38400),
                38400,
            ),
    {
        let offset: usize = planar * 38400;
        let mut text: Vec<u8> = Vec::new();
        let ghost plane = self.plane_buffer@.subrange(offset as int, offset + 38400);
        let mut i: usize = 0;
        while i < 38400
            invariant
                i <= 38400,
                self.wf(),
                planar < 4,
                offset == planar * 38400,
                self.plane_buffer@ == old(self).plane_buffer@,
                self.palette == old(self).palette,
                plane == self.plane_buffer@.subrange(offset as int, offset + 38400),
                text@ == numbers_text(plane, i as int),
            decreases 38400 - i,
        {
            let number = qemu_print_num(self.plane_buffer[i + offset] as u64);
            text.extend_from_slice(number.as_slice());
            i += 1;
        }
        text
    }

    /// The buffer holds the four planes.
    pub open spec fn wf(&self) -> bool {
        self.plane_buffer@.len() == 153600
    }

    /// A writer with an empty buffer and the default palette.
    pub fn new() -> (writer: Self)
        ensures
            writer.wf(),
            writer.plane_buffer@ == Seq::new(153600, |i: int| 0u8),
            writer.palette.is_default(),
    {
        let plane_buffer: Vec<u8> = vec![0u8; 153600];
        assert(plane_buffer@ =~= Seq::new(153600, |i: int| 0u8));
        VgaPlanarWriter { plane_buffer, palette: ColorPalette::new() }
    }

    /// Lets plane `plane` take its bit of the colour for one pixel.
    fn set_plane_bit(&mut self, row: usize, col: usize, plane: usize, color: u8)
        requires
            old(self).wf(),
            80 * row + col / 8 < 38400,
            plane < 4,
        ensures
            final(self).wf(),
            final(self).palette == old(self).palette,
            final(self).plane_buffer@ == with_plane_bit(
                old(self).plane_buffer@,
                row as int,
                col as int,
                plane as int,
                color,
            ),
    {
        let at: usize = 80 * row + col / 8 + plane * 38400;
        let mask: u8 = 0x80u8 >> ((col % 8) as u8);
        let bit: u8 = color & (1u8 << (plane as u8));
        let old_byte: u8 = self.plane_buffer[at];
        if bit > 0 {
            self.plane_buffer[at] = old_byte | mask;
        } else {
            self.plane_buffer[at] = old_byte & !mask;
        }
    }

    /// Paints the pixel in row `row` and column `col` in the colour `color`.
    /// A column beyond the last one goes on in the next row.
    pub fn write_pixel(&mut self, row: usize, col: usize, color: ColorCode)
        requires
            old(self).wf(),
            80 * row + col / 8 < 38400,
        ensures
            final(self).wf(),
            final(self).palette == old(self).palette,
            final(self).plane_buffer@ == with_pixel(
                old(self).plane_buffer@,
                row as int,
                col as int,
                color.index(),
            ),
    {
        let code: u8 = color.code();
        self.set_plane_bit(row, col, 0, code);
        self.set_plane_bit(row, col, 1, code);
        self.set_plane_bit(row, col, 2, code);
        self.set_plane_bit(row, col, 3, code);
    }

    /// `x` held to the columns of the screen.
    pub fn col_clip(&self, x: i32) -> (col: usize)
        ensures
            col == clipped(x as int, 0, 639),
    {
        if x < 0 {
            0
        } else if x > 639 {
            639
        } else {
            x as usize
        }
    }

    /// `x` held to the rows of the screen.
    pub fn row_clip(&self, x: i32) -> (row: usize)
        ensures
            row == clipped(x as int, 0, 479),
    {
        if x < 0 {
            0
        } else if x > 479 {
            479
        } else {
            x as usize
        }
    }

    /// Paints the disc round `mid`, given as row and column, with radius
    /// `radius`: those pixels of the square round `mid`, held to the screen
    /// and without its last row and column, that lie nearer to `mid` than
    /// `radius`.
    pub fn write_circle(&mut self, mid: (usize, usize), radius: usize, color: ColorCode)
        requires
            old(self).wf(),
        ensures
            final(self).wf(),
            final(self).palette == old(self).palette,
            final(self).plane_buffer@ == circle_rows(
                old(self).plane_buffer@,
                clipped(mid.0 - radius, 0, 479),
                clipped(mid.0 + radius, 0, 479),
                clipped(mid.1 - radius, 0, 639),
                clipped(mid.1 + radius, 0, 639),
                (mid.0 as int, mid.1 as int),
                radius as int,
                color.index(),
            ),
    {
        let min_x: usize = clip_below(mid.1, radius, 639);
        let max_x: usize = clip_above(mid.1, radius, 639);
        let min_y: usize = clip_below(mid.0, radius, 479);
        let max_y: usize = clip_above(mid.0, radius, 479);
        let ghost whole = circle_rows(
            self.plane_buffer@,
            min_y as int,
            max_y as int,
            min_x as int,
            max_x as int,
            (mid.0 as int, mid.1 as int),
            radius as int,
            color.index(),
        );
        let mut i: usize = min_y;
        while i < max_y
            invariant
                self.wf(),
                self.palette == old(self).palette,
                max_y <= 479,
                max_x <= 639,
                whole == circle_rows(
                    self.plane_buffer@,
                    i as int,
                    max_y as int,
                    min_x as int,
                    max_x as int,
                    (mid.0 as int, mid.1 as int),
                    radius as int,
                    color.index(),
                ),
            decreases max_y - i,
        {
            let ghost row_done = circle_span(
                self.plane_buffer@,
                i as int,
                min_x as int,
                max_x as int,
                (mid.0 as int, mid.1 as int),
                radius as int,
                color.index(),
            );
            let mut j: usize = min_x;
            while j < max_x
                invariant
                    self.wf(),
                    self.palette == old(self).palette,
                    i < 479,
                    max_x <= 639,
                    row_done == circle_span(
                        self.plane_buffer@,
                        i as int,
                        j as int,
                        max_x as int,
                        (mid.0 as int, mid.1 as int),
                        radius as int,
                        color.index(),
                    ),
                decreases max_x - j,
            {
                if within(mid, radius, i, j) {
                    self.write_pixel(i, j, color);
                }
                j += 1;
            }
            i += 1;
        }
    }

    /// Paints the rectangle round `mid`, given as row and column, that is
    /// `width` columns wide and `height` rows high, held to the screen and
    /// without its last row and column.
    pub fn write_rect(&mut self, mid: (usize, usize), width: usize, height: usize, color: ColorCode)
        requires
            old(self).wf(),
        ensures
            final(self).wf(),
            final(self).palette == old(self).palette,
            final(self).plane_buffer@ == painted_rect(
                old(self).plane_buffer@,
                clipped(mid.0 - height / 2, 0, 479),
                clipped(mid.0 + (height + 1) / 2, 0, 479),
                clipped(mid.1 - width / 2, 0, 639),
                clipped(mid.1 + (width + 1) / 2, 0, 639),
                color.index(),
            ),
    {
        let min_x: usize = clip_below(mid.1, width / 2, 639);
        let max_x: usize = clip_above(mid.1, width / 2 + width % 2, 639);
        let min_y: usize = clip_below(mid.0, height / 2, 479);
        let max_y: usize = clip_above(mid.0, height / 2 + height % 2, 479);
        let ghost whole = painted_rect(
            self.plane_buffer@,
            min_y as int,
            max_y as int,
            min_x as int,
            max_x as int,
            color.index(),
        );
        let mut i: usize = min_y;
        while i < max_y
            invariant
                self.wf(),
                self.palette == old(self).palette,
                max_y <= 479,
                max_x <= 639,
                whole == painted_rect(
                    self.plane_buffer@,
                    i as int,
                    max_y as int,
                    min_x as int,
                    max_x as int,
                    color.index(),
                ),
            decreases max_y - i,
        {
            let ghost row_done = painted_span(
                self.plane_buffer@,
                i as int,
                min_x as int,
                max_x as int,
                color.index(),
            );
            let mut j: usize = min_x;
            while j < max_x
                invariant
                    self.wf(),
                    self.palette == old(self).palette,
                    i < 479,
                    max_x <= 639,
                    row_done == painted_span(
                        self.plane_buffer@,
                        i as int,
                        j as int,
                        max_x as int,
                        color.index(),
                    ),
                decreases max_x - j,
            {
                self.write_pixel(i, j, color);
                j += 1;
            }
            i += 1;
        }
    }

    /// Paints a surface with its upper left corner at its origin, but for
    /// the cells of the colour that is not painted.
    pub fn write_surface(&mut self, surface: &Surface)
        requires
            old(self).wf(),
            surface.wf(),
            surface.origin.x + surface.height <= 480,
            surface.origin.y + surface.width <= 640,
        ensures
            final(self).wf(),
            final(self).palette == old(self).palette,
            final(self).plane_buffer@ == surface_rows(old(self).plane_buffer@, surface@, 0),
    {
        let surface_offset = surface.get_origin();
        let should_ignore = surface.get_ignore_color();
        let height: usize = surface.get_height();
        let width: usize = surface.get_width();
        let ghost whole = surface_rows(self.plane_buffer@, surface@, 0);
        let mut i: usize = 0;
        while i < height
            invariant
                self.wf(),
                self.palette == old(self).palette,
                surface.wf(),
                height == surface.height,
                width == surface.width,
                surface_offset == surface.origin,
                should_ignore == surface.ignore_color,
                surface.origin.x + surface.height <= 480,
                surface.origin.y + surface.width <= 640,
                whole == surface_rows(self.plane_buffer@, surface@, i as int),
            decreases height - i,
        {
            let ghost row_done = surface_span(self.plane_buffer@, surface@, i as int, 0);
            let mut j: usize = 0;
            while j < width
                invariant
                    self.wf(),
                    self.palette == old(self).palette,
                    surface.wf(),
                    i < height,
                    height == surface.height,
                    width == surface.width,
                    surface_offset == surface.origin,
                    should_ignore == surface.ignore_color,
                    surface.origin.x + surface.height <= 480,
                    surface.origin.y + surface.width <= 640,
                    row_done == surface_span(self.plane_buffer@, surface@, i as int, j as int),
                decreases width - j,
            {
                proof {
                    assert(i * width + j < width * height) by (nonlinear_arith)
                        requires
                            i < height,
                            j < width,
                    ;
                }
                let cell_color: ColorCode = surface.get_cell(i, j);
                let skip: bool = match should_ignore {
                    Some(ignored) => ignored == cell_color,
                    None => false,
                };
                if !skip {
                    self.write_pixel(i + surface_offset.x, j + surface_offset.y, cell_color);
                }
                j += 1;
            }
            i += 1;
        }
    }

    /// Empties the buffer: every pixel becomes black.
    pub fn reset_plane_buffer(&mut self)
        requires
            old(self).wf(),
        ensures
            final(self).wf(),
            final(self).palette == old(self).palette,
            final(self).plane_buffer@ == Seq::new(153600, |i: int| 0u8),
    {
        let mut i: usize = 0;
        while i < 153600
            invariant
                i <= 153600,
                self.wf(),
                self.palette == old(self).palette,
                forall|k: int| 0 <= k < i ==> self.plane_buffer@[k] == 0,
            decreases 153600 - i,
        {
            self.plane_buffer[i] = 0;
            i += 1;
        }
        assert(self.plane_buffer@ =~= Seq::new(153600, |i: int| 0u8));
    }

    /// Copies plane `planar` to the video memory. Single planes are not
    /// copied yet: nothing changes.
    pub fn replicate_plane(&mut self, planar: usize)
        ensures
            final(self).plane_buffer@ == old(self).plane_buffer@,
            final(self).palette == old(self).palette,
    {
    }

    /// The bytes of plane `planar`, which go to the video memory while the
    /// hardware writes to that plane alone.
    pub fn plane(&self, planar: usize) -> (bytes: &[u8])
        requires
            self.wf(),
            planar < 4,
        ensures
            bytes@ == self.plane_buffer@.subrange(planar * 38400, planar * 38400 + 38400),
    {
        vstd::slice::slice_subrange(
            self.plane_buffer.as_slice(),
            planar * 38400,
            planar * 38400 + 38400,
        )
    }

    /// Called at the start of a frame; there is nothing to do yet.
    pub fn on_new_frame(&mut self)
        ensures
            final(self).plane_buffer@ == old(self).plane_buffer@,
            final(self).palette == old(self).palette,
    {
    }

    /// Fills the screen with the colour `color`.
    pub fn fill_screen(&mut self, color: ColorCode)
        requires
            old(self).wf(),
        ensures
            final(self).wf(),
            final(self).palette == old(self).palette,
            final(self).plane_buffer@ == filled(color.index()),
    {
        let code: u8 = color.code();
        let mut i: usize = 0;
        while i < 153600
            invariant
                i <= 153600,
                self.wf(),
                self.palette == old(self).palette,
                code == color.index(),
                forall|k: int| 0 <= k < i ==> self.plane_buffer@[k] == filled(code)[k],
            decreases 153600 - i,
        {
            let bit: u8 = code & (1u8 << ((i / 38400) as u8));
            self.plane_buffer[i] = if bit > 0 {
                255
            } else {
                0
            };
            i += 1;
        }
        assert(self.plane_buffer@ =~= filled(code));
    }

    /// Makes the first colour of the palette a full red, to try the palette
    /// out.
    pub fn color_test(&mut self)
        ensures
            final(self).plane_buffer@ == old(self).plane_buffer@,
            final(self).palette.color_entries@ == old(self).palette.color_entries@.update(
                0,
                CustomColor { red: 63, green: 0, blue: 0 },
            ),
    {
        self.palette.update_color_entry(0, CustomColor::new(63, 0, 0));
    }
}

} // verus!
