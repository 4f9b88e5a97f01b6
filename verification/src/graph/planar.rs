//! Choosing the bit plane that the video memory shows.

use crate::drivers::port::PortWrite;
use vstd::prelude::*;

verus! {

/// The plane that was chosen last.
#[derive(PartialEq, Eq, Clone, Copy, Structural)]
pub struct Planar {
    pub current_planar: usize,
}

/// The word that chooses plane `plane`: the plane's bit in the high byte,
/// the number of the map mask register in the low byte.
pub open spec fn plane_word(plane: int) -> u16 {
    if plane == 0 {
        0x102
    } else if plane == 1 {
        0x202
    } else if plane == 2 {
        0x402
    } else {
        0x802
    }
}

/// The write that chooses plane `plane`. Plane 0 is chosen through port
/// 0xC4, the others through port 0x3C4.
pub open spec fn plane_write(plane: int) -> PortWrite {
    if plane == 0 {
        PortWrite::Word(0xc4, plane_word(0))
    } else {
        PortWrite::Word(0x3c4, plane_word(plane))
    }
}

impl Planar {
    /// Chooses plane 0: the writes that do so, and the state after them.
    pub fn new() -> (made: (Self, Vec<PortWrite>))
        ensures
            made.0.current_planar == 0,
            made.1@ == seq![PortWrite::Byte(0x3ce, 0x5), plane_write(0)],
    {
        let mut writes: Vec<PortWrite> = Vec::new();
        writes.push(Planar::indicate_planar_switch());
        writes.push(Planar::plane_0());
        (Planar { current_planar: 0 }, writes)
    }

    /// The write that announces a change of plane.
    pub fn indicate_planar_switch() -> (write: PortWrite)
        ensures
            write == PortWrite::Byte(0x3ce, 0x5),
    {
        PortWrite::Byte(0x3ce, 0x5)
    }

    /// The write that chooses plane 0.
    pub fn plane_0() -> (write: PortWrite)
        ensures
            write == plane_write(0),
    {
        PortWrite::Word(0xc4, 0x102)
    }

    /// The write that chooses plane 1.
    pub fn plane_1() -> (write: PortWrite)
        ensures
            write == plane_write(1),
    {
        PortWrite::Word(0x3c4, 0x202)
    }

    /// The write that chooses plane 2.
    pub fn plane_2() -> (write: PortWrite)
        ensures
            write == plane_write(2),
    {
        PortWrite::Word(0x3c4, 0x402)
    }

    /// The write that chooses plane 3.
    pub fn plane_3() -> (write: PortWrite)
        ensures
            write == plane_write(3),
    {
        PortWrite::Word(0x3c4, 0x802)
    }

    /// Changes to plane `new_planar`: the writes that do so.
    pub fn switch(&mut self, new_planar: usize) -> (writes: Vec<PortWrite>)
        requires
            new_planar <= 3,
        ensures
            final(self).current_planar == new_planar,
            writes@ == seq![PortWrite::Byte(0x3ce, 0x5), plane_write(new_planar as int)],
    {
        let mut writes: Vec<PortWrite> = Vec::new();
        writes.push(Planar::indicate_planar_switch());
        let choose: PortWrite = match new_planar {
            0 => Planar::plane_0(),
            1 => Planar::plane_1(),
            2 => Planar::plane_2(),
            _ => Planar::plane_3(),
        };
        writes.push(choose);
        self.current_planar = new_planar;
        writes
    }

    /// The write after which the video memory shows all planes again.
    pub fn restore(&mut self) -> (write: PortWrite)
        ensures
            write == PortWrite::Word(0x3c4, 0xf02),
            *final(self) == *old(self),
    {
        PortWrite::Word(0x3c4, 0xf02)
    }

    /// Changes to the plane after the current one, and from plane 3 to
    /// plane 0: the writes that do so.
    pub fn next(&mut self) -> (writes: Vec<PortWrite>)
        requires
            old(self).current_planar < usize::MAX,
        ensures
            final(self).current_planar == (old(self).current_planar + 1) % 4,
            writes@ == seq![
                PortWrite::Byte(0x3ce, 0x5),
                plane_write((old(self).current_planar + 1) % 4),
            ],
    {
        self.switch((self.current_planar + 1) % 4)
    }
}

} // verus!
