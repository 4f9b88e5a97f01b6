//! A sector-addressed block device held in memory.
//!
//! The device is an array of 512-byte sectors. Every transfer names a start
//! sector and a sector count, moves whole sectors, and either completes or
//! fails without moving any byte.

use crate::drivers::ide::ATADirection;
use vstd::prelude::*;

verus! {

/// Size of one device sector in bytes.
pub const SECTOR_SIZE: usize = 512;

/// Why a transfer did not take place.
#[derive(Clone, Copy, Debug, PartialEq, Eq, Structural)]
pub enum BlockError {
    /// The addressed drive does not exist.
    DeviceNotFound,
    /// The device did not answer in time.
    Timeout,
    /// The device rejected the transfer.
    Fault,
}

/// Whether `count` sectors starting at sector `lba` lie inside `disk`.
pub open spec fn sectors_in_range(disk: Seq<u8>, lba: int, count: int) -> bool {
    0 <= lba && 0 <= count && (lba + count) * 512 <= disk.len()
}

/// The bytes of `count` sectors starting at sector `lba`.
pub open spec fn sectors_at(disk: Seq<u8>, lba: int, count: int) -> Seq<u8> {
    disk.subrange(lba * 512, (lba + count) * 512)
}

/// `disk` with `bytes` stored from byte position `pos` on.
pub open spec fn disk_with(disk: Seq<u8>, pos: int, bytes: Seq<u8>) -> Seq<u8> {
    Seq::new(
        disk.len(),
        |i: int|
            if pos <= i < pos + bytes.len() {
                bytes[i - pos]
            } else {
                disk[i]
            },
    )
}

/// What one call of [`BlockDevice::access`] decides, before any byte moves.
pub open spec fn access_outcome(
    disk: Seq<u8>,
    drive: u8,
    lba: u64,
    count: u8,
    buffer_len: nat,
) -> Result<(), BlockError> {
    if drive != 0 {
        Err(BlockError::DeviceNotFound)
    } else if !sectors_in_range(disk, lba as int, count as int) || buffer_len < count * 512 {
        Err(BlockError::Fault)
    } else {
        Ok(())
    }
}

/// A block device whose sectors are kept in memory.
pub struct BlockDevice {
    data: Vec<u8>,
}

impl View for BlockDevice {
    type V = Seq<u8>;

    closed spec fn view(&self) -> Seq<u8> {
        self.data@
    }
}

impl BlockDevice {
    /// A device of `sectors` zeroed sectors.
    pub fn new(sectors: usize) -> (device: Self)
        requires
            sectors * 512 <= usize::MAX,
        ensures
            device@ == Seq::new((sectors * 512) as nat, |i: int| 0u8),
    {
        let data: Vec<u8> = vec![0u8; sectors * 512];
        assert(data@ =~= Seq::new((sectors * 512) as nat, |i: int| 0u8));
        BlockDevice { data }
    }

    /// A device holding exactly `bytes`; a trailing partial sector cannot be addressed.
    pub fn from_bytes(bytes: Vec<u8>) -> (device: Self)
        ensures
            device@ == bytes@,
    {
        BlockDevice { data: bytes }
    }

    /// The bytes of the whole device.
    pub fn as_bytes(&self) -> (bytes: &Vec<u8>)
        ensures
            bytes@ == self@,
    {
        &self.data
    }

    /// Number of whole sectors on the device.
    pub fn sector_count(&self) -> (count: usize)
        ensures
            count == self@.len() / 512,
    {
        self.data.len() / 512
    }

    /// Whether `count` sectors starting at `lba` lie on the device.
    pub fn in_range(&self, lba: u64, count: u64) -> (inside: bool)
        ensures
            inside == sectors_in_range(self@, lba as int, count as int),
    {
        let end: u128 = (lba as u128 + count as u128) * 512;
        end <= self.data.len() as u128
    }

    /// Byte position of sector `lba`, for a sector known to lie on the device.
    fn position(&self, lba: u64) -> (pos: usize)
        requires
            lba * 512 <= self@.len(),
        ensures
            pos == lba * 512,
    {
        let total: usize = self.data.len();
        (lba as usize) * 512
    }

    /// Reads `count` sectors starting at `lba`.
    ///
    /// Fails with `Fault`, reading nothing, when the sectors do not all lie on
    /// the device.
    pub fn read(&self, lba: u64, count: usize) -> (result: Result<Vec<u8>, BlockError>)
        ensures
            sectors_in_range(self@, lba as int, count as int) ==> result is Ok && result->Ok_0@
                == sectors_at(self@, lba as int, count as int),
            !sectors_in_range(self@, lba as int, count as int) ==> result == Err::<Vec<u8>, BlockError>(
                BlockError::Fault,
            ),
    {
        if !self.in_range(lba, count as u64) {
            return Err(BlockError::Fault);
        }
        let total: usize = self.data.len();
        let start: usize = self.position(lba);
        let end: usize = start + count * 512;
        let mut out: Vec<u8> = Vec::new();
        out.extend_from_slice(vstd::slice::slice_subrange(self.data.as_slice(), start, end));
        assert(out@ =~= sectors_at(self@, lba as int, count as int));
        Ok(out)
    }

    /// Writes the whole sectors in `data` starting at `lba`.
    ///
    /// Fails with `Fault`, writing nothing, when `data` is not a whole number
    /// of sectors or the sectors do not all lie on the device.
    pub fn write(&mut self, lba: u64, data: &[u8]) -> (result: Result<(), BlockError>)
        ensures
            result is Ok <==> (data@.len() % 512 == 0 && sectors_in_range(
                old(self)@,
                lba as int,
                data@.len() as int / 512,
            )),
            result is Ok ==> final(self)@ == disk_with(old(self)@, lba * 512, data@),
            result is Err ==> result == Err::<(), BlockError>(BlockError::Fault) && final(self)@ == old(self)@,
    {
        if data.len() % 512 != 0 || !self.in_range(lba, (data.len() / 512) as u64) {
            return Err(BlockError::Fault);
        }
        let start: usize = self.position(lba);
        self.store(start, data);
        Ok(())
    }

    /// Copies `bytes` over the device's bytes from position `pos` on.
    fn store(&mut self, pos: usize, bytes: &[u8])
        requires
            pos + bytes@.len() <= old(self)@.len(),
        ensures
            final(self)@ == disk_with(old(self)@, pos as int, bytes@),
    {
        let n: usize = bytes.len();
        let total: usize = self.data.len();
        let mut i: usize = 0;
        while i < n
            invariant
                i <= n,
                total == self.data@.len(),
                n == bytes@.len(),
                pos + n <= self.data@.len(),
                self.data@.len() == old(self).data@.len(),
                forall|j: int| 0 <= j < pos + i ==> self.data@[j] == disk_with(old(self).data@, pos as int, bytes@)[j],
                forall|j: int| pos + i <= j < self.data@.len() ==> self.data@[j] == old(self).data@[j],
            decreases n - i,
        {
            self.data[pos + i] = bytes[i];
            i += 1;
        }
        assert(self.data@ =~= disk_with(old(self).data@, pos as int, bytes@));
    }

    /// One transfer of up to 255 sectors between drive `drive` and `buffer`.
    ///
    /// A read stores the sectors at the front of `buffer`; a write takes them
    /// from there. The only drive is drive 0. The transfer is refused, and
    /// nothing moves, when the sectors do not lie on the device or `buffer`
    /// is shorter than the transfer.
    pub fn access(
        &mut self,
        direction: ATADirection,
        drive: u8,
        lba: u64,
        count: u8,
        buffer: &mut Vec<u8>,
    ) -> (result: Result<(), BlockError>)
        ensures
            result == access_outcome(old(self)@, drive, lba, count, old(buffer)@.len()),
            result is Err ==> final(self)@ == old(self)@ && final(buffer)@ == old(buffer)@,
            result is Ok && direction == ATADirection::Read ==> final(self)@ == old(self)@ && final(buffer)@ == disk_with(old(buffer)@, 0, sectors_at(old(self)@, lba as int, count as int)),
            result is Ok && direction == ATADirection::Write ==> final(buffer)@ == old(buffer)@
                && final(self)@ == disk_with(
                old(self)@,
                lba * 512,
                old(buffer)@.subrange(0, count * 512),
            ),
    {
        if drive != 0 {
            return Err(BlockError::DeviceNotFound);
        }
        let len: usize = (count as usize) * 512;
        if !self.in_range(lba, count as u64) || buffer.len() < len {
            return Err(BlockError::Fault);
        }
        let total: usize = self.data.len();
        let start: usize = self.position(lba);
        match direction {
            ATADirection::Read => {
                let mut i: usize = 0;
                while i < len
                    invariant
                        i <= len,
                        len == count * 512,
                        total == self.data@.len(),
                        start == lba * 512,
                        start + len <= self.data@.len(),
                        len <= buffer@.len(),
                        buffer@.len() == old(buffer)@.len(),
                        forall|j: int| 0 <= j < i ==> buffer@[j] == self.data@[start + j],
                        forall|j: int| i <= j < buffer@.len() ==> buffer@[j] == old(buffer)@[j],
                    decreases len - i,
                {
                    buffer[i] = self.data[start + i];
                    i += 1;
                }
                assert(buffer@ =~= disk_with(
                    old(buffer)@,
                    0,
                    sectors_at(self@, lba as int, count as int),
                ));
            },
            ATADirection::Write => {
                self.store(start, vstd::slice::slice_subrange(buffer.as_slice(), 0, len));
            },
        }
        Ok(())
    }
}

} // verus!
