//! Text for the serial line, byte by byte.

use vstd::prelude::*;
use vstd::string::StringSliceAdditionalSpecFns;

verus! {

/// What is sent for an 8-bit number: the number as one byte.
pub fn qemu_print_u8(n: u8) -> (text: Vec<u8>)
    ensures
        text@ == seq![n],
{
    let mut text: Vec<u8> = Vec::new();
    text.push(n);
    text
}

/// What is sent for a string: its bytes.
pub fn qemu_print_str(s: &str) -> (text: Vec<u8>)
    ensures
        text@ == s.spec_bytes(),
{
    vstd::slice::slice_to_vec(s.as_bytes())
}

/// What is sent for a line: the string's bytes and a line feed.
pub fn qemu_println(s: &str) -> (text: Vec<u8>)
    ensures
        text@ == s.spec_bytes().push(0x0Au8),
{
    let mut text = qemu_print_str(s);
    text.push(0x0A);
    text
}

} // verus!
