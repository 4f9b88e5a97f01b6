//! The PC speaker: what is written to the timer and to the speaker gate to
//! play a tone and to stop it.

use crate::drivers::port::PortWrite;
use crate::time::{first_spent, Timer, TimerPtr};
use vstd::prelude::*;

verus! {

/// The frequency of the timer in hertz.
pub const PIT_FREQUENCY: u32 = 1193180;

/// Names the notes of an octave.
pub struct Notes;

/// The writes that make the speaker play `frequency` hertz for good, where
/// `gate` is what port 0x61 holds: the timer's channel 2 is set up as a
/// square wave generator, the divisor for the frequency goes to it low
/// byte first, and the speaker's two gate bits are set unless they are.
pub fn play(frequency: u32, gate: u8) -> (writes: Vec<PortWrite>)
    requires
        frequency > 0,
    ensures
        writes@ == seq![
            PortWrite::Byte(0x43, 0xb6),
            PortWrite::Byte(0x42, (PIT_FREQUENCY / frequency % 256) as u8),
            PortWrite::Byte(0x42, (PIT_FREQUENCY / frequency / 256 % 256) as u8),
        ] + (if gate != gate | 3 {
            seq![PortWrite::Byte(0x61, gate | 3)]
        } else {
            Seq::<PortWrite>::empty()
        }),
{
    let divisor: u32 = PIT_FREQUENCY / frequency;
    let mut writes: Vec<PortWrite> = Vec::new();
    writes.push(PortWrite::Byte(0x43, 0xb6));
    writes.push(PortWrite::Byte(0x42, (divisor % 256) as u8));
    writes.push(PortWrite::Byte(0x42, (divisor / 256 % 256) as u8));
    if gate != (gate | 3) {
        writes.push(PortWrite::Byte(0x61, gate | 3));
        assert(writes@ =~= seq![
            PortWrite::Byte(0x43, 0xb6),
            PortWrite::Byte(0x42, (PIT_FREQUENCY / frequency % 256) as u8),
            PortWrite::Byte(0x42, (PIT_FREQUENCY / frequency / 256 % 256) as u8),
        ] + seq![PortWrite::Byte(0x61, gate | 3)]);
    } else {
        assert(writes@ =~= seq![
            PortWrite::Byte(0x43, 0xb6),
            PortWrite::Byte(0x42, (PIT_FREQUENCY / frequency % 256) as u8),
            PortWrite::Byte(0x42, (PIT_FREQUENCY / frequency / 256 % 256) as u8),
        ] + Seq::<PortWrite>::empty());
    }
    writes
}

/// The write that stops the sound, where `gate` is what port 0x61 holds:
/// the speaker's two gate bits are cleared.
pub fn stop(gate: u8) -> (write: PortWrite)
    ensures
        write == PortWrite::Byte(0x61, gate & 0xFC),
{
    PortWrite::Byte(0x61, gate & 0xFC)
}

/// Starts a tone of `freq` hertz that `stop` ends after `duration`
/// milliseconds: the writes that start the tone, as [`play`] gives them, and
/// the place of the timer that was put among `timers` to fire `stop`, or
/// `None` where every timer is still running.
pub fn beep<F: Fn()>(freq: u32, duration: u64, gate: u8, timers: &mut Vec<Timer<F>>, stop: F) -> (started:
    (Vec<PortWrite>, Option<TimerPtr>))
    requires
        freq > 0,
    ensures
        started.0@ == seq![
            PortWrite::Byte(0x43, 0xb6),
            PortWrite::Byte(0x42, (PIT_FREQUENCY / freq % 256) as u8),
            PortWrite::Byte(0x42, (PIT_FREQUENCY / freq / 256 % 256) as u8),
        ] + (if gate != gate | 3 {
            seq![PortWrite::Byte(0x61, gate | 3)]
        } else {
            Seq::<PortWrite>::empty()
        }),
        first_spent(old(timers)@, 0) >= old(timers)@.len() ==> started.1 is None && final(timers)@
            == old(timers)@,
        first_spent(old(timers)@, 0) < old(timers)@.len() ==> started.1 is Some
            && started.1->Some_0.index == first_spent(old(timers)@, 0) && final(timers)@ == old(timers)@.update(
            first_spent(old(timers)@, 0),
            Timer { max: duration, cur: 0, func: stop, active: false },
        ),
{
    let writes = play(freq, gate);
    let timer = Timer::new(timers, duration, stop);
    (writes, timer)
}

/// A test of the timer; it tests nothing yet.
pub fn pit_test() {
}

} // verus!
