//! Four-level page tables: the table of 512 entries and the 64-bit entry.

use vstd::prelude::*;

verus! {

/// An address space: where physical memory is mapped, and the address of
/// the top-level table.
pub struct AddrSpace {
    pub phys_base: u64,
    pub pml4: u64,
}

/// One page table.
pub struct PT {
    pub entries: [u64; 512],
}

/// One page-table entry.
pub struct PTE(pub u64);

/// Bits 12 and up of an entry: the address of the table or page it names.
pub open spec fn table_address(entry: u64) -> u64 {
    (entry - entry % 4096) as u64
}

/// Number of bytes that one entry of a table of level `table_idx` covers:
/// two to the power `12 + 9 * table_idx`.
pub open spec fn level_unit(table_idx: u64) -> u64 {
    if table_idx == 0 {
        0x1000
    } else if table_idx == 1 {
        0x20_0000
    } else if table_idx == 2 {
        0x4000_0000
    } else if table_idx == 3 {
        0x80_0000_0000
    } else if table_idx == 4 {
        0x1_0000_0000_0000
    } else {
        0x200_0000_0000_0000
    }
}

impl PT {
    /// A table with every entry zero.
    pub fn new() -> (table: Self)
        ensures
            forall|i: int| 0 <= i < 512 ==> table.entries@[i] == 0,
    {
        PT { entries: [0u64; 512] }
    }

    /// Maps `page_cnt` pages from `addr` on. Mapping is not supported yet:
    /// the table stays as it is.
    pub fn map_page(&mut self, addr: u64, page_cnt: u64)
        ensures
            final(self).entries@ == old(self).entries@,
    {
    }

    /// Makes entry `to` an alias of entry `from`.
    pub fn alias_self(&mut self, from: usize, to: usize)
        requires
            from < 512,
            to < 512,
        ensures
            final(self).entries@ == old(self).entries@.update(to as int, old(self).entries@[from as int]),
    {
        self.entries[to] = self.entries[from];
    }
}

impl PTE {
    /// The entry with the bits `pte`.
    pub fn new(pte: u64) -> (entry: PTE)
        ensures
            entry.0 == pte,
    {
        PTE(pte)
    }

    /// The address of the next table: the entry without its low twelve bits.
    pub fn next_table_addr(&self) -> (addr: u64)
        ensures
            addr == table_address(self.0),
            addr % 4096 == 0,
    {
        self.0 - self.0 % 4096
    }

    /// The index that `addr` has in the table of level `table_idx`: the nine
    /// bits of `addr` from bit `12 + 9 * table_idx` on. Level 0 is the last
    /// table, level 3 the top one.
    pub fn extract_offset(&self, addr: u64, table_idx: u64) -> (index: u64)
        requires
            table_idx <= 5,
        ensures
            index < 512,
            index == addr / level_unit(table_idx) % 512,
    {
        let unit: u64 = if table_idx == 0 {
            0x1000
        } else if table_idx == 1 {
            0x20_0000
        } else if table_idx == 2 {
            0x4000_0000
        } else if table_idx == 3 {
            0x80_0000_0000
        } else if table_idx == 4 {
            0x1_0000_0000_0000
        } else {
            0x200_0000_0000_0000
        };
        addr / unit % 512
    }

    /// Whether the page is present.
    pub fn page_present(&self) -> (set: bool)
        ensures
            set == (self.0 % 2 == 1),
    {
        self.0 % 2 == 1
    }

    /// Whether the page can be written.
    pub fn page_rw(&self) -> (set: bool)
        ensures
            set == (self.0 / 2 % 2 == 1),
    {
        self.0 / 2 % 2 == 1
    }

    /// Whether user code can reach the page.
    pub fn page_user(&self) -> (set: bool)
        ensures
            set == (self.0 / 4 % 2 == 1),
    {
        self.0 / 4 % 2 == 1
    }

    /// Whether the page was accessed.
    pub fn page_accessed(&self) -> (set: bool)
        ensures
            set == (self.0 / 32 % 2 == 1),
    {
        self.0 / 32 % 2 == 1
    }

    /// Whether the page was written.
    pub fn page_dirty(&self) -> (set: bool)
        ensures
            set == (self.0 / 64 % 2 == 1),
    {
        self.0 / 64 % 2 == 1
    }

    /// Whether the entry names a large page.
    pub fn page_pse(&self) -> (set: bool)
        ensures
            set == (self.0 / 128 % 2 == 1),
    {
        self.0 / 128 % 2 == 1
    }

    /// Whether the page is global.
    pub fn page_global(&self) -> (set: bool)
        ensures
            set == (self.0 / 256 % 2 == 1),
    {
        self.0 / 256 % 2 == 1
    }
}

} // verus!
