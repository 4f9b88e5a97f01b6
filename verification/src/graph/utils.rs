//! Colours: the sixteen colour codes and the palette that gives each its
//! red, green and blue parts.

use crate::drivers::port::PortWrite;
use crate::tooling::qemu_io::{hex_text, qemu_print_hex};
use vstd::prelude::*;

verus! {

/// The sixteen colours of the default palette.
#[derive(PartialEq, Eq, Clone, Copy, Debug, Structural)]
pub enum ColorCode {
    Black,
    Blue,
    Green,
    Cyan,
    Red,
    Magenta,
    Brown,
    White,
    Gray,
    BrightBlue,
    BrightGreen,
    BrightCyan,
    BrightRed,
    BrightMagenta,
    Yellow,
    BrightWhite,
}

impl ColorCode {
    /// The colour's number in the palette.
    pub open spec fn index(self) -> u8 {
        match self {
            ColorCode::Black => 0x0,
            ColorCode::Blue => 0x1,
            ColorCode::Green => 0x2,
            ColorCode::Cyan => 0x3,
            ColorCode::Red => 0x4,
            ColorCode::Magenta => 0x5,
            ColorCode::Brown => 0x6,
            ColorCode::White => 0x7,
            ColorCode::Gray => 0x8,
            ColorCode::BrightBlue => 0x9,
            ColorCode::BrightGreen => 0xa,
            ColorCode::BrightCyan => 0xb,
            ColorCode::BrightRed => 0xc,
            ColorCode::BrightMagenta => 0xd,
            ColorCode::Yellow => 0xe,
            ColorCode::BrightWhite => 0xf,
        }
    }

    /// The colour's number in the palette.
    pub fn code(&self) -> (code: u8)
        ensures
            code == self.index(),
            code < 16,
    {
        match self {
            ColorCode::Black => 0x0,
            ColorCode::Blue => 0x1,
            ColorCode::Green => 0x2,
            ColorCode::Cyan => 0x3,
            ColorCode::Red => 0x4,
            ColorCode::Magenta => 0x5,
            ColorCode::Brown => 0x6,
            ColorCode::White => 0x7,
            ColorCode::Gray => 0x8,
            ColorCode::BrightBlue => 0x9,
            ColorCode::BrightGreen => 0xa,
            ColorCode::BrightCyan => 0xb,
            ColorCode::BrightRed => 0xc,
            ColorCode::BrightMagenta => 0xd,
            ColorCode::Yellow => 0xe,
            ColorCode::BrightWhite => 0xf,
        }
    }

    /// The colour with the number `code`, or `None` for a number above 15.
    pub fn from_code(code: u8) -> (color: Option<ColorCode>)
        ensures
            code < 16 ==> color is Some && color->Some_0.index() == code,
            code >= 16 ==> color is None,
    {
        match code {
            0x0 => Some(ColorCode::Black),
            0x1 => Some(ColorCode::Blue),
            0x2 => Some(ColorCode::Green),
            0x3 => Some(ColorCode::Cyan),
            0x4 => Some(ColorCode::Red),
            0x5 => Some(ColorCode::Magenta),
            0x6 => Some(ColorCode::Brown),
            0x7 => Some(ColorCode::White),
            0x8 => Some(ColorCode::Gray),
            0x9 => Some(ColorCode::BrightBlue),
            0xa => Some(ColorCode::BrightGreen),
            0xb => Some(ColorCode::BrightCyan),
            0xc => Some(ColorCode::BrightRed),
            0xd => Some(ColorCode::BrightMagenta),
            0xe => Some(ColorCode::Yellow),
            0xf => Some(ColorCode::BrightWhite),
            _ => None,
        }
    }
}

/// The red, green and blue part of entry `index` of the default palette:
/// bit 2 of the index gives red, bit 1 green, bit 0 blue, each 42 of 63;
/// in the upper half of the palette blue is 21 stronger.
pub open spec fn default_color(index: int) -> (u8, u8, u8) {
    (
        (42 * (index / 4 % 2)) as u8,
        (42 * (index / 2 % 2)) as u8,
        (42 * (index % 2) + (if index >= 8 {
            21int
        } else {
            0int
        })) as u8,
    )
}

/// The red, green and blue part of entry `index` of the default palette.
pub fn default_color_of(index: usize) -> (parts: (u8, u8, u8))
    requires
        index < 16,
    ensures
        parts == default_color(index as int),
{
    match index {
        0 => (0, 0, 0),
        1 => (0, 0, 42),
        2 => (0, 42, 0),
        3 => (0, 42, 42),
        4 => (42, 0, 0),
        5 => (42, 0, 42),
        6 => (42, 42, 0),
        7 => (42, 42, 42),
        8 => (0, 0, 21),
        9 => (0, 0, 63),
        10 => (0, 42, 21),
        11 => (0, 42, 63),
        12 => (42, 0, 21),
        13 => (42, 0, 63),
        14 => (42, 42, 21),
        _ => (42, 42, 63),
    }
}

/// The message for an error of the graphics.
pub fn graphics_error() -> (message: &'static str)
    ensures
        message@ == "Oh no!, we got a graphics error!"@,
{
    "Oh no!, we got a graphics error!"
}

/// A colour given by its red, green and blue part, each below 64.
#[derive(Clone, Copy, Debug)]
pub struct CustomColor {
    pub red: u8,
    pub green: u8,
    pub blue: u8,
}

impl CustomColor {
    /// The colour with the parts `r`, `g` and `b`.
    pub fn new(r: u8, g: u8, b: u8) -> (color: Self)
        requires
            r < 64 && g < 64 && b < 64,
        ensures
            color.red == r,
            color.green == g,
            color.blue == b,
    {
        Self { red: r, green: g, blue: b }
    }
}

/// The palette: one colour for each of the sixteen codes.
pub struct ColorPalette {
    pub color_entries: [CustomColor; 16],
}

impl ColorPalette {
    /// Whether the palette is the default palette.
    pub open spec fn is_default(&self) -> bool {
        forall|i: int|
            0 <= i < 16 ==> (
            (#[trigger] self.color_entries@[i]).red,
            self.color_entries@[i].green,
            self.color_entries@[i].blue,
        ) == default_color(i)
    }

    /// The bytes that bring the hardware's palette up to date: red, green
    /// and blue of each entry in turn.
    pub open spec fn dac_values(&self) -> Seq<u8> {
        Seq::new(
            48,
            |k: int|
                if k % 3 == 0 {
                    self.color_entries@[k / 3].red
                } else if k % 3 == 1 {
                    self.color_entries@[k / 3].green
                } else {
                    self.color_entries@[k / 3].blue
                },
        )
    }

    /// The default palette.
    pub fn new() -> (palette: Self)
        ensures
            palette.is_default(),
    {
        let mut tmp_init = ColorPalette {
            color_entries: [CustomColor { red: 0, green: 0, blue: 0 };16],
        };
        tmp_init.reset();
        tmp_init
    }

    /// Resets the palette to the default palette.
    pub fn reset(&mut self)
        ensures
            final(self).is_default(),
    {
        let mut i: usize = 0;
        while i < 16
            invariant
                i <= 16,
                forall|k: int|
                    0 <= k < i ==> (
                    (#[trigger] self.color_entries@[k]).red,
                    self.color_entries@[k].green,
                    self.color_entries@[k].blue,
                ) == default_color(k),
            decreases 16 - i,
        {
            let v = default_color_of(i);
            self.color_entries[i] = CustomColor::new(v.0, v.1, v.2);
            i += 1;
        }
    }

    /// Makes `color` the colour of entry `entry`.
    pub fn update_color_entry(&mut self, entry: u8, color: CustomColor)
        requires
            entry < 16,
        ensures
            final(self).color_entries@ == old(self).color_entries@.update(entry as int, color),
    {
        self.color_entries[entry as usize] = color;
    }

    /// The writes that bring the hardware's palette up to date: the number
    /// of the first entry to port 0x3C8, then red, green and blue of each
    /// entry in turn to port 0x3C9.
    pub fn update_vga_dac_state(&self) -> (writes: Vec<PortWrite>)
        ensures
            writes@.len() == 49,
            writes@[0] == PortWrite::Byte(0x3c8, 0),
            forall|k: int|
                0 <= k < 48 ==> #[trigger] writes@[k + 1] == PortWrite::Byte(
                    0x3c9,
                    self.dac_values()[k],
                ),
    {
        let bytes = self.dac_bytes();
        let mut writes: Vec<PortWrite> = Vec::new();
        writes.push(PortWrite::Byte(0x3c8, 0));
        let mut k: usize = 0;
        while k < 48
            invariant
                k <= 48,
                bytes@ == self.dac_values(),
                writes@.len() == k + 1,
                writes@[0] == PortWrite::Byte(0x3c8, 0),
                forall|j: int|
                    0 <= j < k ==> #[trigger] writes@[j + 1] == PortWrite::Byte(
                        0x3c9,
                        self.dac_values()[j],
                    ),
            decreases 48 - k,
        {
            writes.push(PortWrite::Byte(0x3c9, bytes[k]));
            k += 1;
        }
        writes
    }

    /// The write that asks the hardware for entry `entry` of its palette, and
    /// the text that shows the entry once its `red`, `green` and `blue` part
    /// were read: each part as a hexadecimal number on a line of its own,
    /// and a line feed.
    pub fn read_vga_dac_state(entry: u8, red: u8, green: u8, blue: u8) -> (shown: (PortWrite, Vec<u8>))
        ensures
            shown.0 == PortWrite::Byte(0x3c7, entry),
            shown.1@ == seq![0x30u8, 0x78u8] + hex_text(red as u32) + seq![0x0Au8] + (seq![
                0x30u8,
                0x78u8,
            ] + hex_text(green as u32) + seq![0x0Au8]) + (seq![0x30u8, 0x78u8] + hex_text(
                blue as u32,
            ) + seq![0x0Au8]) + seq![0x0Au8],
    {
        let mut text = qemu_print_hex(red as u32);
        let g = qemu_print_hex(green as u32);
        let b = qemu_print_hex(blue as u32);
        text.extend_from_slice(g.as_slice());
        text.extend_from_slice(b.as_slice());
        text.push(0x0A);
        (PortWrite::Byte(0x3c7, entry), text)
    }

    /// The bytes that bring the hardware's palette up to date: red, green
    /// and blue of each entry in turn.
    pub fn dac_bytes(&self) -> (bytes: Vec<u8>)
        ensures
            bytes@ == self.dac_values(),
    {
        let mut bytes: Vec<u8> = Vec::new();
        let mut i: usize = 0;
        while i < 16
            invariant
                i <= 16,
                bytes@.len() == 3 * i,
                forall|k: int| 0 <= k < 3 * i ==> bytes@[k] == self.dac_values()[k],
            decreases 16 - i,
        {
            bytes.push(self.color_entries[i].red);
            bytes.push(self.color_entries[i].green);
            bytes.push(self.color_entries[i].blue);
            i += 1;
        }
        assert(bytes@ =~= self.dac_values());
        bytes
    }
}

} // verus!
