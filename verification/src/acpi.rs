//! ACPI: the root system description pointer and the tables it leads to.

use crate::fat32::boot::copy_array;
use crate::fat32::layout::{le32, le32_bytes, push_le32, read_le32};
use vstd::prelude::*;

verus! {

/// Size of the root pointer in bytes.
pub const RSDP_SIZE: usize = 20;

/// Size of a table header in bytes.
pub const HEADER_SIZE: usize = 36;

/// The sum of the bytes of `bytes`.
pub open spec fn byte_sum(bytes: Seq<u8>) -> int
    decreases bytes.len(),
{
    if bytes.len() == 0 {
        0
    } else {
        byte_sum(bytes.drop_last()) + bytes.last()
    }
}

/// Whether the bytes add up to zero in 8-bit arithmetic.
pub open spec fn sums_to_zero(bytes: Seq<u8>) -> bool {
    byte_sum(bytes) % 256 == 0
}

/// The signature `"RSD PTR "`.
pub open spec fn rsdp_signature() -> Seq<u8> {
    seq![0x52u8, 0x53u8, 0x44u8, 0x20u8, 0x50u8, 0x54u8, 0x52u8, 0x20u8]
}

/// The signature `"RSDT"`.
pub open spec fn rsdt_signature() -> Seq<u8> {
    seq![0x52u8, 0x53u8, 0x44u8, 0x54u8]
}

/// The sum of the bytes of `bytes` in 8-bit arithmetic.
pub fn checksum(bytes: &[u8]) -> (sum: u8)
    ensures
        sum == byte_sum(bytes@) % 256,
{
    let n: usize = bytes.len();
    let mut sum: u8 = 0;
    let mut i: usize = 0;
    while i < n
        invariant
            i <= n,
            n == bytes@.len(),
            sum == byte_sum(bytes@.subrange(0, i as int)) % 256,
        decreases n - i,
    {
        proof {
            let upto = bytes@.subrange(0, i + 1);
            assert(upto.drop_last() =~= bytes@.subrange(0, i as int));
        }
        sum = ((sum as u16 + bytes[i] as u16) % 256) as u8;
        i += 1;
    }
    assert(bytes@.subrange(0, n as int) =~= bytes@);
    sum
}

/// Whether two byte strings are equal.
fn same_bytes(a: &[u8], b: &[u8]) -> (equal: bool)
    ensures
        equal == (a@ == b@),
{
    crate::fat32::short_name::bytes_equal(a, b)
}

/// The root system description pointer, version 1.
pub struct RSDP {
    pub signature: [u8; 8],
    pub checksum: u8,
    pub oemid: [u8; 6],
    pub revision: u8,
    pub rsdt_address: u32,
}

/// The header that every system description table starts with.
#[derive(Debug)]
pub struct SDTHeader {
    pub signature: [u8; 4],
    pub length: u32,
    pub revision: u8,
    pub checksum: u8,
    pub oem_id: [u8; 6],
    pub oem_table_id: [u8; 8],
    pub oem_revision: u32,
    pub creator_id: u32,
    pub creator_revision: u32,
}

/// The root system description table.
pub struct RSDT {
    pub h: SDTHeader,
}

/// A table that can be found by its signature.
pub trait Signature {
    fn get_signature() -> [u8; 4];
}

/// Why no root pointer was found.
#[derive(Clone, Copy, Debug, PartialEq, Eq, Structural)]
pub enum AcpiError {
    /// The first valid root pointer is of another version than 1.
    WrongRevision,
    /// The memory holds no valid root pointer.
    Missing,
}

impl RSDP {
    /// The 20 bytes of the root pointer as they lie in memory.
    pub open spec fn bytes(&self) -> Seq<u8> {
        self.signature@ + seq![self.checksum] + self.oemid@ + seq![self.revision] + le32_bytes(
            self.rsdt_address,
        )
    }

    /// The root pointer that lies in the 20 bytes from `at` on.
    pub fn parse(memory: &[u8], at: usize) -> (rsdp: RSDP)
        requires
            at + 20 <= memory@.len(),
        ensures
            rsdp.signature@ == memory@.subrange(at as int, at + 8),
            rsdp.checksum == memory@[at + 8],
            rsdp.oemid@ == memory@.subrange(at + 9, at + 15),
            rsdp.revision == memory@[at + 15],
            rsdp.rsdt_address == le32(memory@, at + 16),
    {
        let total: usize = memory.len();
        RSDP {
            signature: copy_array::<8>(memory, at),
            checksum: memory[at + 8],
            oemid: copy_array::<6>(memory, at + 9),
            revision: memory[at + 15],
            rsdt_address: read_le32(memory, at + 16),
        }
    }

    /// The 20 bytes of the root pointer as they lie in memory.
    pub fn to_bytes(&self) -> (bytes: Vec<u8>)
        ensures
            bytes@ == self.bytes(),
    {
        let mut bytes: Vec<u8> = Vec::new();
        bytes.extend_from_slice(self.signature.as_slice());
        bytes.push(self.checksum);
        bytes.extend_from_slice(self.oemid.as_slice());
        bytes.push(self.revision);
        push_le32(&mut bytes, self.rsdt_address);
        assert(bytes@ =~= self.bytes());
        bytes
    }

    /// Whether the root pointer is valid: it carries the signature
    /// `"RSD PTR "` and its bytes add up to zero.
    pub fn validate(&self) -> (valid: bool)
        ensures
            valid == (self.signature@ == rsdp_signature() && sums_to_zero(self.bytes())),
    {
        let wanted: [u8; 8] = [0x52, 0x53, 0x44, 0x20, 0x50, 0x54, 0x52, 0x20];
        assert(wanted@ =~= rsdp_signature());
        let bytes = self.to_bytes();
        same_bytes(self.signature.as_slice(), wanted.as_slice()) && checksum(bytes.as_slice()) == 0
    }
}

impl SDTHeader {
    /// The header that lies in the 36 bytes from `at` on.
    pub fn parse(memory: &[u8], at: usize) -> (header: SDTHeader)
        requires
            at + 36 <= memory@.len(),
        ensures
            header.signature@ == memory@.subrange(at as int, at + 4),
            header.length == le32(memory@, at + 4),
            header.revision == memory@[at + 8],
            header.checksum == memory@[at + 9],
            header.oem_id@ == memory@.subrange(at + 10, at + 16),
            header.oem_table_id@ == memory@.subrange(at + 16, at + 24),
            header.oem_revision == le32(memory@, at + 24),
            header.creator_id == le32(memory@, at + 28),
            header.creator_revision == le32(memory@, at + 32),
    {
        let total: usize = memory.len();
        SDTHeader {
            signature: copy_array::<4>(memory, at),
            length: read_le32(memory, at + 4),
            revision: memory[at + 8],
            checksum: memory[at + 9],
            oem_id: copy_array::<6>(memory, at + 10),
            oem_table_id: copy_array::<8>(memory, at + 16),
            oem_revision: read_le32(memory, at + 24),
            creator_id: read_le32(memory, at + 28),
            creator_revision: read_le32(memory, at + 32),
        }
    }

    /// The 36 bytes of the header as they lie in memory.
    pub open spec fn bytes(&self) -> Seq<u8> {
        self.signature@ + le32_bytes(self.length) + seq![self.revision, self.checksum]
            + self.oem_id@ + self.oem_table_id@ + le32_bytes(self.oem_revision) + le32_bytes(
            self.creator_id,
        ) + le32_bytes(self.creator_revision)
    }

    /// The 36 bytes of the header as they lie in memory.
    pub fn to_bytes(&self) -> (bytes: Vec<u8>)
        ensures
            bytes@ == self.bytes(),
    {
        let mut bytes: Vec<u8> = Vec::new();
        bytes.extend_from_slice(self.signature.as_slice());
        push_le32(&mut bytes, self.length);
        bytes.push(self.revision);
        bytes.push(self.checksum);
        bytes.extend_from_slice(self.oem_id.as_slice());
        bytes.extend_from_slice(self.oem_table_id.as_slice());
        push_le32(&mut bytes, self.oem_revision);
        push_le32(&mut bytes, self.creator_id);
        push_le32(&mut bytes, self.creator_revision);
        assert(bytes@ =~= self.bytes());
        bytes
    }
}

impl RSDT {
    /// Looks for the table with the signature of `A`. Tables behind the
    /// root table are not read yet: none is ever found.
    pub fn find_table<A>(&self) -> (table: Option<A>) where A: Signature
        ensures
            table is None,
    {
        None
    }

    /// Number of 4-byte table pointers that follow the header, going by the
    /// length that the header states.
    pub fn entry_count(&self) -> (count: u32)
        ensures
            count == if self.h.length >= 36 {
                (self.h.length - 36) / 4
            } else {
                0
            },
    {
        if self.h.length >= 36 {
            (self.h.length - 36) / 4
        } else {
            0
        }
    }

    /// Whether the table is valid: it carries the signature `"RSDT"` and
    /// the bytes of its header add up to zero.
    pub fn is_valid(&self) -> (valid: bool)
        ensures
            valid == (self.h.signature@ == rsdt_signature() && sums_to_zero(self.h.bytes())),
    {
        let wanted: [u8; 4] = [0x52, 0x53, 0x44, 0x54];
        assert(wanted@ =~= rsdt_signature());
        let bytes = self.h.to_bytes();
        same_bytes(self.h.signature.as_slice(), wanted.as_slice()) && checksum(bytes.as_slice())
            == 0
    }
}

/// What a search for the root pointer from offset `at` on gives: the offset
/// of the first valid root pointer at a multiple of 16, if its revision is 0.
pub open spec fn rsdp_search(memory: Seq<u8>, at: int) -> Result<int, AcpiError>
    decreases memory.len() - at,
{
    if at < 0 || at + 20 > memory.len() {
        Err(AcpiError::Missing)
    } else if memory.subrange(at, at + 8) == rsdp_signature() && sums_to_zero(
        memory.subrange(at, at + 20),
    ) {
        if memory[at + 15] != 0 {
            Err(AcpiError::WrongRevision)
        } else {
            Ok(at)
        }
    } else {
        rsdp_search(memory, at + 16)
    }
}

/// Searches `memory`, the BIOS area, for the root pointer: the first valid
/// one that lies at a multiple of 16 bytes. Fails with `WrongRevision`
/// where that one is not of version 1, and with `Missing` where there is
/// none.
pub fn find_rsdp(memory: &[u8]) -> (result: Result<RSDP, AcpiError>)
    ensures
        match rsdp_search(memory@, 0) {
            Err(e) => result is Err && result->Err_0 == e,
            Ok(at) => result is Ok && result->Ok_0.bytes() == memory@.subrange(at, at + 20),
        },
{
    let n: usize = memory.len();
    let mut at: usize = 0;
    loop
        invariant
            at <= n,
            n == memory@.len(),
            rsdp_search(memory@, 0) == rsdp_search(memory@, at as int),
        decreases n - at,
    {
        if n < 20 || at > n - 20 {
            return Err(AcpiError::Missing);
        }
        let rsdp = RSDP::parse(memory, at);
        proof {
            lemma_le32_bytes(memory@, at + 16);
            assert(rsdp.bytes() =~= memory@.subrange(at as int, at + 20));
        }
        if rsdp.validate() {
            if rsdp.revision != 0 {
                return Err(AcpiError::WrongRevision);
            }
            return Ok(rsdp);
        }
        if n - at < 16 {
            assert(rsdp_search(memory@, at + 16) == Err::<int, AcpiError>(AcpiError::Missing));
            return Err(AcpiError::Missing);
        }
        at += 16;
    }
}

/// The four bytes of a stored 32-bit value are the bytes of what they store.
pub proof fn lemma_le32_bytes(bytes: Seq<u8>, at: int)
    requires
        0 <= at,
        at + 4 <= bytes.len(),
    ensures
        le32_bytes(le32(bytes, at) as u32) == bytes.subrange(at, at + 4),
{
    let b0 = bytes[at] as int;
    let b1 = bytes[at + 1] as int;
    let b2 = bytes[at + 2] as int;
    let b3 = bytes[at + 3] as int;
    let v2 = b2 + 256 * b3;
    let v1 = b1 + 256 * v2;
    let v = b0 + 256 * v1;
    assert(v == le32(bytes, at));
    vstd::arithmetic::div_mod::lemma_fundamental_div_mod_converse(v, 256, v1, b0);
    vstd::arithmetic::div_mod::lemma_fundamental_div_mod_converse(v1, 256, v2, b1);
    vstd::arithmetic::div_mod::lemma_fundamental_div_mod_converse(v2, 256, b3, b2);
    assert(v / 256 == v1);
    assert(v / 65536 == v2) by {
        vstd::arithmetic::div_mod::lemma_div_denominator(v, 256, 256);
    }
    assert(v / 16777216 == b3) by {
        vstd::arithmetic::div_mod::lemma_div_denominator(v, 65536, 256);
    }
    let stored = le32_bytes(v as u32);
    assert(stored[0] == bytes[at]);
    assert(stored[1] == bytes[at + 1]);
    assert(stored[2] == bytes[at + 2]);
    assert(stored[3] == bytes[at + 3]);
    assert(stored =~= bytes.subrange(at, at + 4));
}

} // verus!
