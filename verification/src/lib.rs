//! Verified core of a small x86_64 kernel: a FAT32 volume driver over a
//! sector-addressed block device, together with the pure parts of the
//! kernel's drivers, graphics, input and memory code.

pub mod acpi;
pub mod apic;
pub mod audio_system;
pub mod bord;
pub mod drivers;
pub mod fat32;
pub mod graph;
pub mod input;
pub mod kernel;
pub mod math;
pub mod mem;
pub mod misc;
pub mod pic;
pub mod time;
pub mod tooling;
pub mod utils;
