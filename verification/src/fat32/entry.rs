//! The 32-byte directory entry in 8.3 format.

use crate::fat32::layout::{le16, le16_bytes, le32, le32_bytes, push_le16, push_le32, read_le16, read_le32};
use vstd::prelude::*;

verus! {

/// Size of one directory entry in bytes.
pub const ENTRY_SIZE: usize = 32;

/// Attribute of a directory.
pub const ATTR_DIRECTORY: u8 = 0x10;

/// Attribute of a long-name continuation entry.
pub const ATTR_LONG_NAME: u8 = 0x0F;

/// Attribute given to a newly created file.
pub const ATTR_FILE: u8 = 0x03;

/// First byte of an entry that ends the directory.
pub const MARK_END: u8 = 0x00;

/// First byte of a deleted entry.
pub const MARK_DELETED: u8 = 0xE5;

/// One directory entry, field by field as it lies on disk.
#[derive(Debug, Copy, Clone)]
pub struct DirectoryEntry {
    pub file_name: [u8; 8],
    pub file_ext: [u8; 3],
    pub file_attribute: u8,
    pub reserved_windows_nt: u8,
    pub creation_time_100ms: u8,
    pub creation_time: u16,
    pub creation_date: u16,
    pub last_accessed_date: u16,
    pub high_first_cluster: u16,
    pub last_modification_time: u16,
    pub last_modification_date: u16,
    pub low_first_entry_cluster: u16,
    pub file_size: u32,
}

/// The mathematical value of a directory entry.
pub struct EntryView {
    pub name: Seq<u8>,
    pub ext: Seq<u8>,
    pub attribute: u8,
    pub reserved_windows_nt: u8,
    pub creation_time_100ms: u8,
    pub creation_time: u16,
    pub creation_date: u16,
    pub last_accessed_date: u16,
    pub high_first_cluster: u16,
    pub last_modification_time: u16,
    pub last_modification_date: u16,
    pub low_first_entry_cluster: u16,
    pub size: u32,
}

impl View for DirectoryEntry {
    type V = EntryView;

    open spec fn view(&self) -> EntryView {
        EntryView {
            name: self.file_name@,
            ext: self.file_ext@,
            attribute: self.file_attribute,
            reserved_windows_nt: self.reserved_windows_nt,
            creation_time_100ms: self.creation_time_100ms,
            creation_time: self.creation_time,
            creation_date: self.creation_date,
            last_accessed_date: self.last_accessed_date,
            high_first_cluster: self.high_first_cluster,
            last_modification_time: self.last_modification_time,
            last_modification_date: self.last_modification_date,
            low_first_entry_cluster: self.low_first_entry_cluster,
            size: self.file_size,
        }
    }
}

/// The cluster number made of a high and a low 16-bit half.
pub open spec fn chain_of(hi: u16, lo: u16) -> u32 {
    (hi * 65536 + lo) as u32
}

impl EntryView {
    /// First cluster of the object's chain.
    pub open spec fn chain(self) -> u32 {
        chain_of(self.high_first_cluster, self.low_first_entry_cluster)
    }

    /// Name and extension have their on-disk widths.
    pub open spec fn wf(self) -> bool {
        self.name.len() == 8 && self.ext.len() == 3
    }
}

/// The entry stored in the 32 bytes from `at` on.
pub open spec fn entry_at(bytes: Seq<u8>, at: int) -> EntryView {
    EntryView {
        name: bytes.subrange(at, at + 8),
        ext: bytes.subrange(at + 8, at + 11),
        attribute: bytes[at + 11],
        reserved_windows_nt: bytes[at + 12],
        creation_time_100ms: bytes[at + 13],
        creation_time: le16(bytes, at + 14) as u16,
        creation_date: le16(bytes, at + 16) as u16,
        last_accessed_date: le16(bytes, at + 18) as u16,
        high_first_cluster: le16(bytes, at + 20) as u16,
        last_modification_time: le16(bytes, at + 22) as u16,
        last_modification_date: le16(bytes, at + 24) as u16,
        low_first_entry_cluster: le16(bytes, at + 26) as u16,
        size: le32(bytes, at + 28) as u32,
    }
}

/// The 32 bytes that store `entry`.
pub open spec fn entry_bytes(entry: EntryView) -> Seq<u8> {
    entry.name + entry.ext + seq![
        entry.attribute,
        entry.reserved_windows_nt,
        entry.creation_time_100ms,
    ] + le16_bytes(entry.creation_time) + le16_bytes(entry.creation_date) + le16_bytes(
        entry.last_accessed_date,
    ) + le16_bytes(entry.high_first_cluster) + le16_bytes(entry.last_modification_time)
        + le16_bytes(entry.last_modification_date) + le16_bytes(entry.low_first_entry_cluster)
        + le32_bytes(entry.size)
}

/// What a look at the slot at `at` tells: nothing where the directory ends
/// there (the slot starts with 0x00 or does not fit in `bytes`), else the
/// entry and whether it is deleted.
pub open spec fn slot_at(bytes: Seq<u8>, at: int) -> Option<(EntryView, bool)> {
    if at + 32 > bytes.len() || bytes[at] == 0x00 {
        None
    } else {
        Some((entry_at(bytes, at), bytes[at] == 0xE5))
    }
}

/// A fresh entry for an object of the given name, attribute and first
/// cluster: size zero, all times zero.
pub open spec fn fresh_entry(name: Seq<u8>, ext: Seq<u8>, attribute: u8, chain: u32) -> EntryView {
    EntryView {
        name,
        ext,
        attribute,
        reserved_windows_nt: 0,
        creation_time_100ms: 0,
        creation_time: 0,
        creation_date: 0,
        last_accessed_date: 0,
        high_first_cluster: (chain / 65536) as u16,
        last_modification_time: 0,
        last_modification_date: 0,
        low_first_entry_cluster: (chain % 65536) as u16,
        size: 0,
    }
}

impl DirectoryEntry {
    /// Decodes the entry stored in the 32 bytes from `at` on.
    pub fn decode(bytes: &[u8], at: usize) -> (entry: DirectoryEntry)
        requires
            at + 32 <= bytes@.len(),
        ensures
            entry@ == entry_at(bytes@, at as int),
    {
        let mut file_name: [u8; 8] = [0x20u8; 8];
        let mut file_ext: [u8; 3] = [0x20u8; 3];
        let total: usize = bytes.len();
        let mut i: usize = 0;
        while i < 8
            invariant
                i <= 8,
                total == bytes@.len(),
                at + 32 <= bytes@.len(),
                forall|j: int| 0 <= j < i ==> file_name@[j] == bytes@[at + j],
            decreases 8 - i,
        {
            file_name[i] = bytes[at + i];
            i += 1;
        }
        let mut k: usize = 0;
        while k < 3
            invariant
                k <= 3,
                total == bytes@.len(),
                at + 32 <= bytes@.len(),
                forall|j: int| 0 <= j < k ==> file_ext@[j] == bytes@[at + 8 + j],
            decreases 3 - k,
        {
            file_ext[k] = bytes[at + 8 + k];
            k += 1;
        }
        assert(file_name@ =~= bytes@.subrange(at as int, at + 8));
        assert(file_ext@ =~= bytes@.subrange(at + 8, at + 11));
        DirectoryEntry {
            file_name,
            file_ext,
            file_attribute: bytes[at + 11],
            reserved_windows_nt: bytes[at + 12],
            creation_time_100ms: bytes[at + 13],
            creation_time: read_le16(bytes, at + 14),
            creation_date: read_le16(bytes, at + 16),
            last_accessed_date: read_le16(bytes, at + 18),
            high_first_cluster: read_le16(bytes, at + 20),
            last_modification_time: read_le16(bytes, at + 22),
            last_modification_date: read_le16(bytes, at + 24),
            low_first_entry_cluster: read_le16(bytes, at + 26),
            file_size: read_le32(bytes, at + 28),
        }
    }

    /// The 32 bytes that store this entry.
    pub fn encode(&self) -> (bytes: Vec<u8>)
        ensures
            bytes@ == entry_bytes(self@),
            bytes@.len() == 32,
    {
        let mut out: Vec<u8> = Vec::new();
        out.extend_from_slice(self.file_name.as_slice());
        out.extend_from_slice(self.file_ext.as_slice());
        out.push(self.file_attribute);
        out.push(self.reserved_windows_nt);
        out.push(self.creation_time_100ms);
        assert(out@ =~= self@.name + self@.ext + seq![
            self@.attribute,
            self@.reserved_windows_nt,
            self@.creation_time_100ms,
        ]);
        push_le16(&mut out, self.creation_time);
        push_le16(&mut out, self.creation_date);
        push_le16(&mut out, self.last_accessed_date);
        push_le16(&mut out, self.high_first_cluster);
        push_le16(&mut out, self.last_modification_time);
        push_le16(&mut out, self.last_modification_date);
        push_le16(&mut out, self.low_first_entry_cluster);
        push_le32(&mut out, self.file_size);
        out
    }

    /// Looks at the slot at `at`: `None` where the directory ends there, else
    /// the entry and whether it is deleted and must be skipped.
    pub fn fetch(bytes: &[u8], at: usize) -> (slot: Option<(DirectoryEntry, bool)>)
        ensures
            slot is None <==> slot_at(bytes@, at as int) is None,
            slot is Some ==> (slot->Some_0.0@, slot->Some_0.1) == slot_at(bytes@, at as int)->Some_0,
    {
        if bytes.len() < 32 || at > bytes.len() - 32 {
            return None;
        }
        if bytes[at] == 0x00 {
            return None;
        }
        let skip: bool = bytes[at] == 0xE5;
        Some((DirectoryEntry::decode(bytes, at), skip))
    }

    /// First cluster of the object's chain.
    pub fn get_chain(&self) -> (chain: u32)
        ensures
            chain == self@.chain(),
    {
        DirectoryEntry::assemble_chain(self.high_first_cluster, self.low_first_entry_cluster)
    }

    /// Stores `chain` as the object's first cluster.
    pub fn set_chain(&mut self, chain: u32)
        ensures
            final(self)@ == (EntryView {
                high_first_cluster: (chain / 65536) as u16,
                low_first_entry_cluster: (chain % 65536) as u16,
                ..old(self)@
            }),
            final(self)@.chain() == chain,
    {
        let (hi, lo) = DirectoryEntry::divide_chain(chain);
        self.high_first_cluster = hi;
        self.low_first_entry_cluster = lo;
    }

    /// The cluster number whose high half is `hi` and whose low half is `lo`.
    pub fn assemble_chain(hi: u16, lo: u16) -> (chain: u32)
        ensures
            chain == chain_of(hi, lo),
            chain == hi * 65536 + lo,
    {
        (hi as u32) * 65536 + (lo as u32)
    }

    /// The high and the low half of `chain`, in that order.
    pub fn divide_chain(chain: u32) -> (halves: (u16, u16))
        ensures
            halves.0 == chain / 65536,
            halves.1 == chain % 65536,
            chain_of(halves.0, halves.1) == chain,
    {
        ((chain / 65536) as u16, (chain % 65536) as u16)
    }

    /// A fresh entry for an object of the given name, attribute and first
    /// cluster: size zero, all times zero.
    pub fn fresh(name: [u8; 8], ext: [u8; 3], attribute: u8, chain: u32) -> (entry: DirectoryEntry)
        ensures
            entry@ == fresh_entry(name@, ext@, attribute, chain),
            entry@.chain() == chain,
    {
        let (hi, lo) = DirectoryEntry::divide_chain(chain);
        DirectoryEntry {
            file_name: name,
            file_ext: ext,
            file_attribute: attribute,
            reserved_windows_nt: 0,
            creation_time_100ms: 0,
            creation_time: 0,
            creation_date: 0,
            last_accessed_date: 0,
            high_first_cluster: hi,
            last_modification_time: 0,
            last_modification_date: 0,
            low_first_entry_cluster: lo,
            file_size: 0,
        }
    }
}

/// Storing an entry and decoding the stored bytes gives the entry back.
pub proof fn lemma_entry_round_trip(entry: EntryView)
    requires
        entry.wf(),
    ensures
        entry_bytes(entry).len() == 32,
        entry_at(entry_bytes(entry), 0) == entry,
{
    let b = entry_bytes(entry);
    assert(b.subrange(0, 8) =~= entry.name);
    assert(b.subrange(8, 11) =~= entry.ext);
}

/// Decoding sees only the 32 bytes of the slot.
pub proof fn lemma_entry_at_window(bytes: Seq<u8>, at: int)
    requires
        0 <= at,
        at + 32 <= bytes.len(),
    ensures
        entry_at(bytes, at) == entry_at(bytes.subrange(at, at + 32), 0),
        entry_at(bytes, at).wf(),
{
    let w = bytes.subrange(at, at + 32);
    assert(w.subrange(0, 8) =~= bytes.subrange(at, at + 8));
    assert(w.subrange(8, 11) =~= bytes.subrange(at + 8, at + 11));
}

} // verus!
