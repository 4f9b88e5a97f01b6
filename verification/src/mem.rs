//! Memory: page tables and the BIOS memory map.

pub mod allocator;
pub mod e820;
pub mod memory;
