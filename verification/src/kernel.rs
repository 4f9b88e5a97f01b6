//! What the kernel's entry point decides: how keys are answered and how
//! the time is passed.

use crate::input::key_codes::KeyPressedCodes;
use vstd::prelude::*;

verus! {

/// What the kernel does when a key code comes in.
#[derive(Clone, Copy, Debug, PartialEq, Eq, Structural)]
pub enum KeyAnswer {
    /// Prints the letter.
    Letter(u8),
    /// Prints the time since the system started.
    Uptime,
    /// Prints a random number.
    Random,
    /// Nothing.
    Nothing,
}

/// What the kernel does for the key code `key`: the keys A, B and C print
/// their letter, T prints the time, R a random number.
pub fn key_event(key: i32) -> (answer: KeyAnswer)
    ensures
        answer == if key == KeyPressedCodes::A.scan_code() {
            KeyAnswer::Letter(0x41)
        } else if key == KeyPressedCodes::B.scan_code() {
            KeyAnswer::Letter(0x42)
        } else if key == KeyPressedCodes::C.scan_code() {
            KeyAnswer::Letter(0x43)
        } else if key == KeyPressedCodes::T.scan_code() {
            KeyAnswer::Uptime
        } else if key == KeyPressedCodes::R.scan_code() {
            KeyAnswer::Random
        } else {
            KeyAnswer::Nothing
        },
{
    if key == KeyPressedCodes::A.code() {
        KeyAnswer::Letter(0x41)
    } else if key == KeyPressedCodes::B.code() {
        KeyAnswer::Letter(0x42)
    } else if key == KeyPressedCodes::C.code() {
        KeyAnswer::Letter(0x43)
    } else if key == KeyPressedCodes::T.code() {
        KeyAnswer::Uptime
    } else if key == KeyPressedCodes::R.code() {
        KeyAnswer::Random
    } else {
        KeyAnswer::Nothing
    }
}

/// The seconds and the milliseconds of `millis` milliseconds.
pub fn uptime_parts(millis: u64) -> (parts: (u64, u64))
    ensures
        parts.0 == millis / 1000,
        parts.1 == millis % 1000,
{
    (millis / 1000, millis % 1000)
}

/// Number of steps that the counting of [`wait`] takes to reach `t` from
/// `i` on, going on by one from an even number and by two from an odd one.
pub open spec fn wait_steps(i: int, t: int) -> int
    decreases t + 1 - i,
{
    if i >= t {
        0
    } else if i % 2 == 0 {
        1 + wait_steps(i + 1, t)
    } else {
        1 + wait_steps(i + 2, t)
    }
}

/// Passes the time by counting up to `t`, and gives the number of steps
/// that it took.
pub fn wait(t: u64) -> (counter: u64)
    requires
        t < u64::MAX,
    ensures
        counter == wait_steps(0, t as int),
{
    let mut i: u64 = 0;
    let mut counter: u64 = 0;
    while i < t
        invariant
            t < u64::MAX,
            i <= t + 1,
            counter <= i,
            counter + wait_steps(i as int, t as int) == wait_steps(0, t as int),
        decreases t + 1 - i,
    {
        counter += 1;
        if i % 2 == 0 {
            i += 1;
        } else {
            i += 2;
        }
    }
    counter
}

} // verus!
