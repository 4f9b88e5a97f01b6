//! The memory map that the BIOS hands over.

use vstd::prelude::*;

verus! {

/// What a region of the memory map may be used for.
#[derive(Debug, Copy, Clone, PartialEq, Eq, Structural)]
pub enum RegionType {
    Usable,
    Reserved,
    AcpiReclaimable,
    AcpiNvs,
    BadMem,
}

/// One entry of the memory map.
#[derive(Debug, Copy, Clone)]
pub struct E820 {
    pub addr_base: u64,
    pub addr_length: u64,
    pub region_type: u32,
    pub acpi_ext: u32,
}

impl E820 {
    /// What the region may be used for, or `None` for a type that the map
    /// does not define.
    pub fn kind(&self) -> (kind: Option<RegionType>)
        ensures
            kind == match self.region_type {
                0 => Some(RegionType::Usable),
                1 => Some(RegionType::Reserved),
                2 => Some(RegionType::AcpiReclaimable),
                3 => Some(RegionType::AcpiNvs),
                4 => Some(RegionType::BadMem),
                _ => None,
            },
    {
        match self.region_type {
            0 => Some(RegionType::Usable),
            1 => Some(RegionType::Reserved),
            2 => Some(RegionType::AcpiReclaimable),
            3 => Some(RegionType::AcpiNvs),
            4 => Some(RegionType::BadMem),
            _ => None,
        }
    }
}

} // verus!
