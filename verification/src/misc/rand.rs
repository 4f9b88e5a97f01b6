//! A pseudorandom number generator of the xorshift kind.

use vstd::prelude::*;

verus! {

/// What is added to the time to seed a generator, and the seed of the test
/// generator.
pub const SEED_OFFSET: u64 = 11111111;

/// One step of the generator: three shifts, each folded in by exclusive or.
pub open spec fn xorshift(x: u64) -> u64 {
    let a = x ^ (x << 13);
    let b = a ^ (a >> 7);
    b ^ (b << 17)
}

/// The 64 bits of `x` read as a signed number.
pub open spec fn as_signed64(x: u64) -> int {
    if x < 0x8000_0000_0000_0000 {
        x as int
    } else {
        x - 0x1_0000_0000_0000_0000
    }
}

/// The low 32 bits of `x` read as a signed number.
pub open spec fn low_signed32(x: u64) -> int {
    if x % 0x1_0000_0000 < 0x8000_0000 {
        (x % 0x1_0000_0000) as int
    } else {
        x % 0x1_0000_0000 - 0x1_0000_0000
    }
}

/// The size of `x` without its sign.
pub open spec fn magnitude(x: int) -> int {
    if x >= 0 {
        x
    } else {
        -x
    }
}

/// The remainder of `a` by `b` that has the sign of `a`, for `b` other than
/// zero: the remainder of the sizes, with the sign of `a`.
pub open spec fn truncated_rem(a: int, b: int) -> int {
    if a >= 0 {
        a % magnitude(b)
    } else {
        -((-a) % magnitude(b))
    }
}

/// The size of `x` without its sign.
pub fn magnitude_of(x: i64) -> (size: u64)
    ensures
        size == magnitude(x as int),
{
    if x >= 0 {
        x as u64
    } else if x == i64::MIN {
        0x8000_0000_0000_0000
    } else {
        (-x) as u64
    }
}

/// The generator's state.
pub struct Rng {
    pub current: u64,
}

impl Rng {
    /// A generator seeded from the time `millis`, in milliseconds.
    pub fn new(millis: u64) -> (rng: Self)
        requires
            millis + SEED_OFFSET <= u64::MAX,
        ensures
            rng.current == millis + SEED_OFFSET,
    {
        Rng { current: millis + SEED_OFFSET }
    }

    /// The generator with the fixed seed.
    pub fn test() -> (rng: Self)
        ensures
            rng.current == SEED_OFFSET,
    {
        Rng { current: SEED_OFFSET }
    }

    /// Makes one step.
    #[inline]
    pub fn next(&mut self)
        ensures
            final(self).current == xorshift(old(self).current),
    {
        self.current ^= self.current << 13;
        self.current ^= self.current >> 7;
        self.current ^= self.current << 17;
    }

    /// Makes one step and gives the low 32 bits of the new state.
    pub fn u32(&mut self) -> (value: u32)
        ensures
            final(self).current == xorshift(old(self).current),
            value == final(self).current % 0x1_0000_0000,
    {
        self.next();
        (self.current % 0x1_0000_0000) as u32
    }

    /// Makes one step and gives the low 32 bits of the new state, read as a
    /// signed number.
    pub fn i32(&mut self) -> (value: i32)
        ensures
            final(self).current == xorshift(old(self).current),
            value == low_signed32(final(self).current),
    {
        let low: u32 = self.u32();
        if low < 0x8000_0000 {
            low as i32
        } else {
            (low - 0x8000_0000) as i32 - 0x4000_0000 - 0x4000_0000
        }
    }

    /// Makes one step and gives the new state.
    pub fn u64(&mut self) -> (value: u64)
        ensures
            final(self).current == xorshift(old(self).current),
            value == final(self).current,
    {
        self.next();
        self.current
    }

    /// Makes one step and gives the new state, read as a signed number.
    pub fn i64(&mut self) -> (value: i64)
        ensures
            final(self).current == xorshift(old(self).current),
            value == as_signed64(final(self).current),
    {
        let raw: u64 = self.u64();
        if raw < 0x8000_0000_0000_0000 {
            raw as i64
        } else {
            (raw - 0x8000_0000_0000_0000) as i64 - 0x4000_0000_0000_0000 - 0x4000_0000_0000_0000
        }
    }

    /// Makes one step and gives `a` plus the remainder of the new state, read
    /// as a signed number, by `a + b`; the remainder has the sign of the
    /// state. The sum `a + b` may be of either sign. It must not be zero,
    /// and neither it, nor the remainder, nor the result may leave the
    /// signed numbers of 64 bits.
    pub fn range(&mut self, a: i64, b: i64) -> (value: i64)
        requires
            a + b != 0,
            i64::MIN <= a + b <= i64::MAX,
            !(a + b == -1 && as_signed64(xorshift(old(self).current)) == i64::MIN),
            i64::MIN <= a + truncated_rem(as_signed64(xorshift(old(self).current)), a + b)
                <= i64::MAX,
        ensures
            final(self).current == xorshift(old(self).current),
            value == a + truncated_rem(as_signed64(final(self).current), a + b),
    {
        let raw: i64 = self.i64();
        let modulus: i64 = a + b;
        let rem: u64 = magnitude_of(raw) % magnitude_of(modulus);
        if raw >= 0 {
            a + rem as i64
        } else {
            a - rem as i64
        }
    }
}

} // verus!
