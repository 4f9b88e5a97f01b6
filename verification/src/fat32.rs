//! FAT32 filesystem driver.

pub mod boot;
pub mod entry;
pub mod error;
pub mod in_order;
pub mod laws;
pub mod layout;
pub mod model;
pub mod read_back;
pub mod short_name;
pub mod table;
pub mod volume;
