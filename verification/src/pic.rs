//! The two interrupt controllers.

use crate::drivers::port::PortWrite;
use vstd::prelude::*;

verus! {

pub const PIC1_CMD: u16 = 0x20;

pub const PIC1_DATA: u16 = 0x21;

pub const PIC2_CMD: u16 = 0xA0;

pub const PIC2_DATA: u16 = 0xA1;

pub const PIC_READ_IRR: u16 = 0x0a;

pub const PIC_READ_ISR: u16 = 0x0b;

pub const ICW1_ICW4: u8 = 0x01;

pub const ICW1_SINGLE: u8 = 0x02;

pub const ICW1_INTERVAL4: u8 = 0x04;

pub const ICW1_LEVEL: u8 = 0x08;

pub const ICW1_INIT: u8 = 0x10;

pub const ICW4_8086: u8 = 0x01;

pub const ICW4_AUTO: u8 = 0x02;

pub const ICW4_BUF_SLAVE: u8 = 0x08;

pub const ICW4_BUF_MASTER: u8 = 0x0C;

pub const ICW4_SFNM: u8 = 0x10;

pub const CMD_EOI: u8 = 0x20;

/// The writes that move the interrupts of the two controllers to the vectors
/// from `offset1` and from `offset2` on, where `a` and `b` are the masks
/// that their data ports hold: both controllers are started anew, told
/// their vectors and how they are wired, put into 8086 mode, and given
/// their masks back.
pub fn pic_remap(offset1: u8, offset2: u8, a: u8, b: u8) -> (writes: Vec<PortWrite>)
    ensures
        writes@ == seq![
            PortWrite::Byte(0x20, 0x11),
            PortWrite::Byte(0xA0, 0x11),
            PortWrite::Byte(0x21, offset1),
            PortWrite::Byte(0xA1, offset2),
            PortWrite::Byte(0x21, 4),
            PortWrite::Byte(0xA1, 2),
            PortWrite::Byte(0x21, 0x01),
            PortWrite::Byte(0xA1, 0x01),
            PortWrite::Byte(0x21, a),
            PortWrite::Byte(0xA1, b),
        ],
{
    let mut writes: Vec<PortWrite> = Vec::new();
    writes.push(PortWrite::Byte(PIC1_CMD, 0x11));
    writes.push(PortWrite::Byte(PIC2_CMD, 0x11));
    writes.push(PortWrite::Byte(PIC1_DATA, offset1));
    writes.push(PortWrite::Byte(PIC2_DATA, offset2));
    writes.push(PortWrite::Byte(PIC1_DATA, 4));
    writes.push(PortWrite::Byte(PIC2_DATA, 2));
    writes.push(PortWrite::Byte(PIC1_DATA, ICW4_8086));
    writes.push(PortWrite::Byte(PIC2_DATA, ICW4_8086));
    writes.push(PortWrite::Byte(PIC1_DATA, a));
    writes.push(PortWrite::Byte(PIC2_DATA, b));
    writes
}

/// The writes that ask both controllers for one of their registers.
pub fn pic_ask_irq_reg(ocw3: u8) -> (writes: Vec<PortWrite>)
    ensures
        writes@ == seq![PortWrite::Byte(0x20, ocw3), PortWrite::Byte(0xA0, ocw3)],
{
    let mut writes: Vec<PortWrite> = Vec::new();
    writes.push(PortWrite::Byte(PIC1_CMD, ocw3));
    writes.push(PortWrite::Byte(PIC2_CMD, ocw3));
    writes
}

/// The register of both controllers in one number: what the first one
/// answered in the high byte, what the second one answered in the low byte.
pub fn pic_get_irq_reg(first: u8, second: u8) -> (both: u16)
    ensures
        both == first * 256 + second,
{
    (first as u16) * 256 + second as u16
}

/// The writes that tell both controllers that an interrupt was handled.
pub fn end_of_interrupt() -> (writes: Vec<PortWrite>)
    ensures
        writes@ == seq![PortWrite::Byte(0xA0, 0x20), PortWrite::Byte(0x20, 0x20)],
{
    let mut writes: Vec<PortWrite> = Vec::new();
    writes.push(PortWrite::Byte(PIC2_CMD, CMD_EOI));
    writes.push(PortWrite::Byte(PIC1_CMD, CMD_EOI));
    writes
}

} // verus!
