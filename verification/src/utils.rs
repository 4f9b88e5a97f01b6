//! Helpers.

pub mod qemu_io;
