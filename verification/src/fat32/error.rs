//! Failures reported by the filesystem driver.

use crate::drivers::block::BlockError;
use vstd::prelude::*;

verus! {

/// Why a filesystem operation failed.
#[derive(Clone, Copy, Debug, PartialEq, Eq, Structural)]
pub enum FsError {
    /// The extended boot record's signature is neither 0x28 nor 0x29.
    InvalidSignature,
    /// The system identifier is not `"FAT32   "`.
    NotFat32,
    /// The FSInfo sector lacks one of its two signatures.
    InvalidFsInfo,
    /// No object lies at the given path.
    NotFound,
    /// A path component that must be a directory is a file.
    NotADirectory,
    /// The object is a file where a directory was asked for, or the reverse.
    WrongType,
    /// A file operation was asked of a directory.
    IsADirectory,
    /// The base of a name is longer than 8 bytes or its extension longer than 3.
    NameTooLong,
    /// A name has more than two dot-separated parts.
    InvalidName,
    /// An object of that name already lies in the directory.
    AlreadyExists,
    /// The directory has no unused or deleted slot left.
    NoFreeEntry,
    /// The volume has too few free clusters, or the file cannot grow further.
    OutOfSpace,
    /// The block device refused a transfer.
    Block(BlockError),
}

} // verus!
