//! Timers that count milliseconds and fire once.

use crate::drivers::port::PortWrite;
use vstd::prelude::*;

verus! {

/// The divisor that makes the timer tick a thousand times a second.
pub const DIVISOR: u16 = 1193;

/// Number of timers that can run at once.
pub const TIMER_SLOTS: usize = 10;

/// A timer: it fires `func` once `cur` has reached `max`.
pub struct Timer<F: Fn()> {
    pub max: u64,
    pub cur: u64,
    pub func: F,
    pub active: bool,
}

/// The place of a timer among the running timers.
pub struct TimerPtr {
    pub index: usize,
}

/// The writes that set the timer to a thousand interrupts a second and
/// let its interrupt through, where `mask` is what port 0x21 holds.
pub fn init(mask: u8) -> (writes: Vec<PortWrite>)
    ensures
        writes@ == seq![
            PortWrite::Byte(0x43, 0x0C),
            PortWrite::Byte(0x40, 0xA9),
            PortWrite::Byte(0x40, 0x04),
            PortWrite::Byte(0x21, mask & 0xFE),
        ],
{
    let mut writes: Vec<PortWrite> = Vec::new();
    writes.push(PortWrite::Byte(0x43, 0x0C));
    writes.push(PortWrite::Byte(0x40, (DIVISOR % 256) as u8));
    writes.push(PortWrite::Byte(0x40, (DIVISOR / 256) as u8));
    writes.push(PortWrite::Byte(0x21, mask & 0xFE));
    assert(writes@ =~= seq![
        PortWrite::Byte(0x43, 0x0C),
        PortWrite::Byte(0x40, 0xA9),
        PortWrite::Byte(0x40, 0x04),
        PortWrite::Byte(0x21, mask & 0xFE),
    ]);
    writes
}

/// The first timer at or after `from` that has run out and can be taken.
pub open spec fn first_spent<F: Fn()>(timers: Seq<Timer<F>>, from: int) -> int
    decreases timers.len() - from,
{
    if from < 0 || from >= timers.len() {
        timers.len() as int
    } else if timers[from].cur >= timers[from].max {
        from
    } else {
        first_spent(timers, from + 1)
    }
}

impl<F: Fn()> Timer<F> {
    /// A timer of `time` milliseconds that has not been started.
    pub fn _new(time: u64, function: F) -> (timer: Self)
        ensures
            timer.max == time,
            timer.cur == 0,
            timer.func == function,
            !timer.active,
    {
        Timer { max: time, cur: 0, func: function, active: false }
    }

    /// Puts a new timer of `time` milliseconds in the place of the first
    /// timer of `timers` that has run out, and gives its place; `None`, and
    /// `timers` unchanged, where every timer is still running.
    pub fn new(timers: &mut Vec<Timer<F>>, time: u64, function: F) -> (place: Option<TimerPtr>)
        ensures
            first_spent(old(timers)@, 0) >= old(timers)@.len() ==> place is None && final(timers)@
                == old(timers)@,
            first_spent(old(timers)@, 0) < old(timers)@.len() ==> place is Some
                && place->Some_0.index == first_spent(old(timers)@, 0) && final(timers)@ == old(timers)@.update(
                first_spent(old(timers)@, 0),
                Timer { max: time, cur: 0, func: function, active: false },
            ),
    {
        let n: usize = timers.len();
        let mut i: usize = 0;
        while i < n
            invariant
                i <= n,
                n == timers@.len(),
                timers@ == old(timers)@,
                first_spent(timers@, 0) == first_spent(timers@, i as int),
            decreases n - i,
        {
            if timers[i].cur >= timers[i].max {
                timers[i] = Timer::_new(time, function);
                return Some(TimerPtr { index: i });
            }
            i += 1;
        }
        None
    }

    /// Starts the timer anew.
    pub fn init(&mut self)
        ensures
            final(self).active,
            final(self).cur == 0,
            final(self).max == old(self).max,
            final(self).func == old(self).func,
    {
        self.active = true;
        self.cur = 0;
    }

    /// Stops the timer.
    pub fn stop(&mut self)
        ensures
            !final(self).active,
            final(self).cur == old(self).cur,
            final(self).max == old(self).max,
            final(self).func == old(self).func,
    {
        self.active = false;
    }

    /// Counts one millisecond on a running timer; a timer that has reached
    /// its time fires and stops.
    pub fn tick(&mut self) -> (fired: bool)
        requires
            old(self).cur < u64::MAX,
            call_requires(old(self).func, ()),
        ensures
            final(self).max == old(self).max,
            final(self).func == old(self).func,
            final(self).cur == if old(self).active {
                (old(self).cur + 1) as u64
            } else {
                old(self).cur
            },
            fired == (old(self).active && old(self).cur + 1 >= old(self).max),
            final(self).active == (old(self).active && !fired),
            fired ==> call_ensures(old(self).func, (), ()),
    {
        if self.active {
            self.cur += 1;
            if self.cur >= self.max {
                (self.func)();
                self.active = false;
                return true;
            }
        }
        false
    }
}

impl TimerPtr {
    /// Starts the timer at this place.
    pub fn init<F: Fn()>(&self, timers: &mut Vec<Timer<F>>)
        requires
            self.index < old(timers)@.len(),
        ensures
            final(timers)@ == old(timers)@.update(
                self.index as int,
                Timer { active: true, ..old(timers)@[self.index as int] },
            ),
    {
        timers[self.index].active = true;
    }

    /// Stops the timer at this place.
    pub fn stop<F: Fn()>(&self, timers: &mut Vec<Timer<F>>)
        requires
            self.index < old(timers)@.len(),
        ensures
            final(timers)@ == old(timers)@.update(
                self.index as int,
                Timer { active: false, ..old(timers)@[self.index as int] },
            ),
    {
        timers[self.index].active = false;
    }

    /// Stops the timer at this place and fires it.
    pub fn execute<F: Fn()>(&self, timers: &mut Vec<Timer<F>>)
        requires
            self.index < old(timers)@.len(),
            call_requires(old(timers)@[self.index as int].func, ()),
        ensures
            final(timers)@ == old(timers)@.update(
                self.index as int,
                Timer { active: false, ..old(timers)@[self.index as int] },
            ),
            call_ensures(old(timers)@[self.index as int].func, (), ()),
    {
        timers[self.index].active = false;
        (timers[self.index].func)()
    }
}

/// Whether the time `now` has reached the time `then` that a sleep of
/// `millis` milliseconds from `start` on ends at.
pub fn sleep(start: u64, millis: u64, now: u64) -> (over: bool)
    requires
        start + millis <= u64::MAX,
    ensures
        over == (now >= start + millis),
{
    let then: u64 = start + millis;
    now >= then
}

/// Counts one millisecond: the milliseconds of the running second and the
/// seconds that have passed, and whether a second has just ended. The
/// thousandth millisecond ends the second.
pub fn count_millisecond(millis: u64, seconds: u64) -> (counted: (u64, u64, bool))
    requires
        millis < u64::MAX,
        seconds < u64::MAX,
    ensures
        counted == if millis + 1 == 1000 {
            (0u64, (seconds + 1) as u64, true)
        } else {
            ((millis + 1) as u64, seconds, false)
        },
{
    if millis + 1 == 1000 {
        (0, seconds + 1, true)
    } else {
        (millis + 1, seconds, false)
    }
}

/// Does nothing.
pub fn do_nothing() {
}

} // verus!
