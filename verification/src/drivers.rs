//! Device drivers: the sector-addressed block device and the ATA vocabulary.

pub mod ac97;
pub mod block;
pub mod ide;
pub mod pci;
pub mod port;
