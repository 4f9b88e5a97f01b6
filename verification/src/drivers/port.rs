//! What goes out to the machine's I/O ports.
//!
//! The kernel's drivers decide what is written to which port; the writing
//! itself is a single instruction each and happens outside this library.

use vstd::prelude::*;

verus! {

/// One write to an I/O port: the port, and a value of 8, 16 or 32 bits.
#[derive(Clone, Copy, Debug, PartialEq, Eq, Structural)]
pub enum PortWrite {
    Byte(u16, u8),
    Word(u16, u16),
    Dword(u16, u32),
}

impl PortWrite {
    /// The port written to.
    pub fn port(&self) -> (port: u16)
        ensures
            port == match *self {
                PortWrite::Byte(p, _) => p,
                PortWrite::Word(p, _) => p,
                PortWrite::Dword(p, _) => p,
            },
    {
        match *self {
            PortWrite::Byte(p, _) => p,
            PortWrite::Word(p, _) => p,
            PortWrite::Dword(p, _) => p,
        }
    }
}

} // verus!
