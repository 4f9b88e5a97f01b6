//! What is shown of the place at which the kernel panicked.

use crate::tooling::qemu_io::{decimal_text, qemu_print_num};
use vstd::prelude::*;

verus! {

/// Number of digits that a line number is shown with at most.
pub const LINE_DIGITS: usize = 4;

/// The text for a line number: its decimal digits below 10000, else its
/// last four digits.
pub open spec fn line_text(line: u32) -> Seq<u8> {
    if line < 10000 {
        decimal_text(line as u64)
    } else {
        seq![
            (48 + line / 1000 % 10) as u8,
            (48 + line / 100 % 10) as u8,
            (48 + line / 10 % 10) as u8,
            (48 + line % 10) as u8,
        ]
    }
}

/// The text for the line number `line`.
pub fn format_line_number(line: u32) -> (text: Vec<u8>)
    ensures
        text@ == line_text(line),
{
    if line < 10000 {
        return qemu_print_num(line as u64);
    }
    let mut text: Vec<u8> = Vec::new();
    text.push((48 + line / 1000 % 10) as u8);
    text.push((48 + line / 100 % 10) as u8);
    text.push((48 + line / 10 % 10) as u8);
    text.push((48 + line % 10) as u8);
    assert(text@ =~= line_text(line));
    text
}

} // verus!
