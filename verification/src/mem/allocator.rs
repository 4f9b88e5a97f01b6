//! The kernel's allocator: memory is handed out in one piece after the
//! other and never taken back.

use vstd::prelude::*;

verus! {

/// Where the allocator's own state lies: behind the first gigabyte and
/// megabyte.
pub const ALLOCATOR_BASE: u64 = 0x4010_0000;

/// Size of the allocator's own state in bytes.
pub const ALLOCATOR_SIZE: u64 = 8;

/// The allocator: the address up to which memory was handed out.
pub struct Allocator {
    pub head: u64,
}

impl Allocator {
    /// An allocator that has handed out nothing: its head stands behind its
    /// own state.
    pub fn new() -> (allocator: Self)
        ensures
            allocator.head == ALLOCATOR_BASE + ALLOCATOR_SIZE,
    {
        Allocator { head: ALLOCATOR_BASE + ALLOCATOR_SIZE }
    }

    /// Moves the head on by `size` bytes and gives the new head, or `None`,
    /// handing out nothing, where the head would leave the address space.
    pub fn kalloc_linear(&mut self, size: usize) -> (address: Option<u64>)
        ensures
            old(self).head + size <= u64::MAX ==> address == Some((old(self).head + size) as u64)
                && final(self).head == old(self).head + size,
            old(self).head + size > u64::MAX ==> address is None && final(self).head == old(self).head,
    {
        if size as u64 > u64::MAX - self.head {
            return None;
        }
        self.head = self.head + size as u64;
        Some(self.head)
    }

    /// As [`Allocator::kalloc_linear`].
    pub fn kalloc(&mut self, size: usize) -> (address: Option<u64>)
        ensures
            old(self).head + size <= u64::MAX ==> address == Some((old(self).head + size) as u64)
                && final(self).head == old(self).head + size,
            old(self).head + size > u64::MAX ==> address is None && final(self).head == old(self).head,
    {
        self.kalloc_linear(size)
    }
}

} // verus!
