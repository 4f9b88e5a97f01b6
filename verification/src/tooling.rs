//! Tools for output: the VGA text buffer and the serial line.

pub mod panic_handler;
pub mod qemu_io;
pub mod vga;
