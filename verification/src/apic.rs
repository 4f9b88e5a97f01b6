//! The multiple APIC description table.

use crate::acpi::Signature;
use vstd::prelude::*;

verus! {

/// The header of the multiple APIC description table.
pub struct MADT {
    pub signature: u32,
    pub length: u32,
    pub revision: u8,
    pub checksum: u8,
    pub oemid: [u8; 6],
    pub oem_table_id: u64,
    pub oem_revision: u32,
    pub creator_id: u32,
    pub creator_revision: u32,
}

impl Signature for MADT {
    /// The signature `"APIC"`.
    fn get_signature() -> (signature: [u8; 4])
        ensures
            signature@ == seq![0x41u8, 0x50u8, 0x49u8, 0x43u8],
    {
        let signature: [u8; 4] = [0x41, 0x50, 0x49, 0x43];
        assert(signature@ =~= seq![0x41u8, 0x50u8, 0x49u8, 0x43u8]);
        signature
    }
}

} // verus!
