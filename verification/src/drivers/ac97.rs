//! The AC97 sound card: the offsets of its registers and the noise that is
//! played to try it out.

use crate::misc::rand::{xorshift, Rng};
use vstd::prelude::*;

verus! {

/* Offsets, from the first base address, of the registers of the mixer */

pub const OFFSET_RESET: u16 = 0x00;

pub const OFFSET_VOLUME: u16 = 0x02;

pub const OFFSET_PCM_VOLUME: u16 = 0x18;

/* Offsets, from the second base address, of the registers of the bus master */

pub const OFFSET_PCM_IN: u16 = 0x00;

pub const OFFSET_PCM_OUT: u16 = 0x10;

pub const OFFSET_GLOBAL_CTRL: u16 = 0x2C;

pub const OFFSET_GLOBAL_STATUS: u16 = 0x30;

/* Offsets, from a register box, of the registers in it */

pub const OFFSET_BDL_ADDR: u16 = 0x00;

pub const OFFSET_NUM_SAMPLES: u16 = 0x04;

pub const OFFSET_DESC_ENTRIES: u16 = 0x05;

pub const OFFSET_TFER_STATUS: u16 = 0x06;

pub const OFFSET_ACTUAL_TFERED: u16 = 0x08;

pub const OFFSET_NEXT_BE: u16 = 0x0A;

pub const TFER_CTRL: u16 = 0x0B;

pub const SIZE_OF_NOISE: u32 = 0x800;

/// The driver of the sound card. It holds nothing.
pub struct AC97 {}

/// One entry of the list of buffers that the card plays.
pub struct BufferDescriptor {
    /// Address of the sound buffer.
    pub ptr: u32,
    /// Number of samples in the buffer, at most 0xFFFE.
    pub size: u16,
    /// Status flags.
    pub flags: u16,
}

/// The state of the generator after `steps` steps from `state` on.
pub open spec fn stepped(state: u64, steps: nat) -> u64
    decreases steps,
{
    if steps == 0 {
        state
    } else {
        xorshift(stepped(state, (steps - 1) as nat))
    }
}

impl AC97 {
    pub fn new() -> Self {
        AC97 {  }
    }

    /// What the command register is set to: the bits for I/O space and for
    /// bus mastering are added to what it holds.
    pub fn control_bits(control_reg: u8) -> (wanted: u8)
        ensures
            wanted == control_reg | 0x05,
    {
        control_reg | 0x05
    }
}

/// 1024 samples of noise: each the low 14 bits of the next random number.
pub fn generate_noise(rng: &mut Rng) -> (noise: Vec<u16>)
    ensures
        noise@.len() == 1024,
        final(rng).current == stepped(old(rng).current, 1024),
        forall|i: int|
            0 <= i < 1024 ==> #[trigger] noise@[i] == stepped(old(rng).current, (i + 1) as nat)
                % 0x4000,
{
    let mut arr: Vec<u16> = Vec::new();
    let mut i: usize = 0;
    while i < 1024
        invariant
            i <= 1024,
            arr@.len() == i,
            rng.current == stepped(old(rng).current, i as nat),
            forall|k: int|
                0 <= k < i ==> #[trigger] arr@[k] == stepped(old(rng).current, (k + 1) as nat)
                    % 0x4000,
        decreases 1024 - i,
    {
        let sample: u32 = rng.u32();
        arr.push((sample % 0x4000) as u16);
        i += 1;
    }
    arr
}

/// Counts down from `t` to pass the time.
#[inline]
pub fn waste_time(t: u64) {
    let mut i: u64 = t;
    while i > 0
        decreases i,
    {
        i -= 1;
    }
}

/// Whether sound is playing, going by the transfer status `status` of the
/// output box: bit 1 is set while it plays.
pub fn sound_is_playing(status: u16) -> (playing: bool)
    ensures
        playing == (status & 0b10 != 0),
{
    (status & 0b10) != 0
}

} // verus!
