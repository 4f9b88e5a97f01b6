//! The records at the start of a FAT32 volume: boot sector, extended boot
//! record and FSInfo sector.

use crate::fat32::layout::{le16, le32, read_le16, read_le32};
use vstd::prelude::*;

verus! {

/// Offset of the extended boot record in the boot sector.
pub const EBR_OFFSET: usize = 0x24;

/// The two signatures that an extended boot record may carry.
pub const EBR_SIGNATURE_A: u8 = 0x28;

pub const EBR_SIGNATURE_B: u8 = 0x29;

/// First signature of the FSInfo sector.
pub const FSINFO_SIGNATURE_1: u32 = 0x41615252;

/// Second signature of the FSInfo sector.
pub const FSINFO_SIGNATURE_2: u32 = 0x61417272;

/// The system identifier `"FAT32   "`.
pub open spec fn fat32_identifier() -> Seq<u8> {
    seq![0x46u8, 0x41u8, 0x54u8, 0x33u8, 0x32u8, 0x20u8, 0x20u8, 0x20u8]
}

/// The first 36 bytes of the boot sector. All numbers are little-endian.
#[derive(Debug, Copy, Clone)]
pub struct BootSector {
    pub boot_jmp: [u8; 3],
    pub oem_identifier: [u8; 8],
    pub bytes_per_sector: u16,
    pub sectors_per_cluster: u8,
    pub reserved_sectors: u16,
    pub num_fats: u8,
    pub num_root_dir_entries: u16,
    pub num_sectors: u16,
    pub media_description_type: u8,
    pub num_sectors_per_fat: u16,
    pub num_sectors_per_track: u16,
    pub num_heads_on_storage: u16,
    pub num_hidden_sectors: u32,
    pub large_sector_count: u32,
}

/// The extended boot record, which follows the boot sector's first 36 bytes.
#[derive(Debug, Copy, Clone)]
pub struct ExtendedBootRecord {
    pub sectors_per_fat: u32,
    pub flags: u16,
    pub fat_version_major: u8,
    pub fat_version_minor: u8,
    pub cluster_num_root_dir: u32,
    pub fsinfo_sector_num: u16,
    pub backup_sector_num: u16,
    pub reserved: [u8; 12],
    pub drive_num: u8,
    pub flags_windows_nt: u8,
    pub signature: u8,
    pub volume_id_serial_num: u32,
    pub volume_label_string: [u8; 11],
    pub system_identifier: [u8; 8],
}

/// The FSInfo sector without its reserved bytes.
#[derive(Debug, Copy, Clone)]
pub struct FSInfoMain {
    pub signature_1: u32,
    pub signature_2: u32,
    pub last_free_cluster: u32,
    pub start_cluster: u32,
}

/// The numbers that place a volume's parts on the device.
#[derive(Debug, Copy, Clone)]
pub struct Geometry {
    pub partition_start_lba: u32,
    pub reserved_sectors: u16,
    pub sectors_per_cluster: u8,
    pub bytes_per_sector: u16,
    pub fat_num: u8,
    pub sectors_per_fat: u32,
    pub root_dir_cluster: u32,
    pub root_dir_num: u16,
    pub total_sectors: u32,
}

/// The volume's sector count: the 16-bit field, or the 32-bit one where the
/// 16-bit field is zero.
pub open spec fn total_sectors_of(sector: Seq<u8>) -> u32 {
    if le16(sector, 19) != 0 {
        le16(sector, 19) as u32
    } else {
        le32(sector, 32) as u32
    }
}

/// The geometry that a boot sector describes.
pub open spec fn geometry_of(sector: Seq<u8>) -> Geometry {
    Geometry {
        partition_start_lba: le32(sector, 28) as u32,
        reserved_sectors: le16(sector, 14) as u16,
        sectors_per_cluster: sector[13],
        bytes_per_sector: le16(sector, 11) as u16,
        fat_num: sector[16],
        sectors_per_fat: le32(sector, 36) as u32,
        root_dir_cluster: le32(sector, 44) as u32,
        root_dir_num: le16(sector, 17) as u16,
        total_sectors: total_sectors_of(sector),
    }
}

/// Copies `N` bytes from `at` on into an array.
pub fn copy_array<const N: usize>(bytes: &[u8], at: usize) -> (out: [u8; N])
    requires
        at + N <= bytes@.len(),
    ensures
        out@ == bytes@.subrange(at as int, at + N),
{
    let total: usize = bytes.len();
    let mut out: [u8; N] = [0u8; N];
    let mut i: usize = 0;
    while i < N
        invariant
            i <= N,
            total == bytes@.len(),
            at + N <= bytes@.len(),
            forall|j: int| 0 <= j < i ==> out@[j] == bytes@[at + j],
        decreases N - i,
    {
        out[i] = bytes[at + i];
        i += 1;
    }
    assert(out@ =~= bytes@.subrange(at as int, at + N));
    out
}

impl BootSector {
    /// Decodes the boot sector's first 36 bytes.
    pub fn parse(sector: &[u8]) -> (boot: BootSector)
        requires
            sector@.len() >= 36,
        ensures
            boot.boot_jmp@ == sector@.subrange(0, 3),
            boot.oem_identifier@ == sector@.subrange(3, 11),
            boot.bytes_per_sector == le16(sector@, 11),
            boot.sectors_per_cluster == sector@[13],
            boot.reserved_sectors == le16(sector@, 14),
            boot.num_fats == sector@[16],
            boot.num_root_dir_entries == le16(sector@, 17),
            boot.num_sectors == le16(sector@, 19),
            boot.media_description_type == sector@[21],
            boot.num_sectors_per_fat == le16(sector@, 22),
            boot.num_sectors_per_track == le16(sector@, 24),
            boot.num_heads_on_storage == le16(sector@, 26),
            boot.num_hidden_sectors == le32(sector@, 28),
            boot.large_sector_count == le32(sector@, 32),
    {
        BootSector {
            boot_jmp: copy_array::<3>(sector, 0),
            oem_identifier: copy_array::<8>(sector, 3),
            bytes_per_sector: read_le16(sector, 11),
            sectors_per_cluster: sector[13],
            reserved_sectors: read_le16(sector, 14),
            num_fats: sector[16],
            num_root_dir_entries: read_le16(sector, 17),
            num_sectors: read_le16(sector, 19),
            media_description_type: sector[21],
            num_sectors_per_fat: read_le16(sector, 22),
            num_sectors_per_track: read_le16(sector, 24),
            num_heads_on_storage: read_le16(sector, 26),
            num_hidden_sectors: read_le32(sector, 28),
            large_sector_count: read_le32(sector, 32),
        }
    }

    /// The volume's sector count: the 16-bit field, or the 32-bit one where
    /// the 16-bit field is zero.
    pub fn total_sectors(&self) -> (total: u32)
        ensures
            total == if self.num_sectors != 0 {
                self.num_sectors as u32
            } else {
                self.large_sector_count
            },
    {
        if self.num_sectors != 0 {
            self.num_sectors as u32
        } else {
            self.large_sector_count
        }
    }
}

impl ExtendedBootRecord {
    /// Decodes the extended boot record from a boot sector.
    pub fn parse(sector: &[u8]) -> (ebr: ExtendedBootRecord)
        requires
            sector@.len() >= 90,
        ensures
            ebr.sectors_per_fat == le32(sector@, 36),
            ebr.flags == le16(sector@, 40),
            ebr.fat_version_major == sector@[42],
            ebr.fat_version_minor == sector@[43],
            ebr.cluster_num_root_dir == le32(sector@, 44),
            ebr.fsinfo_sector_num == le16(sector@, 48),
            ebr.backup_sector_num == le16(sector@, 50),
            ebr.reserved@ == sector@.subrange(52, 64),
            ebr.drive_num == sector@[64],
            ebr.flags_windows_nt == sector@[65],
            ebr.signature == sector@[66],
            ebr.volume_id_serial_num == le32(sector@, 67),
            ebr.volume_label_string@ == sector@.subrange(71, 82),
            ebr.system_identifier@ == sector@.subrange(82, 90),
    {
        ExtendedBootRecord {
            sectors_per_fat: read_le32(sector, 36),
            flags: read_le16(sector, 40),
            fat_version_major: sector[42],
            fat_version_minor: sector[43],
            cluster_num_root_dir: read_le32(sector, 44),
            fsinfo_sector_num: read_le16(sector, 48),
            backup_sector_num: read_le16(sector, 50),
            reserved: copy_array::<12>(sector, 52),
            drive_num: sector[64],
            flags_windows_nt: sector[65],
            signature: sector[66],
            volume_id_serial_num: read_le32(sector, 67),
            volume_label_string: copy_array::<11>(sector, 71),
            system_identifier: copy_array::<8>(sector, 82),
        }
    }

    /// Whether the signature is one of the two that FAT32 allows.
    pub fn has_valid_signature(&self) -> (valid: bool)
        ensures
            valid == (self.signature == 0x28 || self.signature == 0x29),
    {
        self.signature == EBR_SIGNATURE_A || self.signature == EBR_SIGNATURE_B
    }

    /// Whether the system identifier reads `"FAT32   "`.
    pub fn is_fat32(&self) -> (fat32: bool)
        ensures
            fat32 == (self.system_identifier@ == fat32_identifier()),
    {
        let wanted: [u8; 8] = [0x46, 0x41, 0x54, 0x33, 0x32, 0x20, 0x20, 0x20];
        let mut i: usize = 0;
        while i < 8
            invariant
                i <= 8,
                wanted@ == fat32_identifier(),
                forall|j: int| 0 <= j < i ==> self.system_identifier@[j] == wanted@[j],
            decreases 8 - i,
        {
            if wanted[i] != self.system_identifier[i] {
                return false;
            }
            i += 1;
        }
        assert(self.system_identifier@ =~= fat32_identifier());
        true
    }
}

impl FSInfoMain {
    /// Decodes the FSInfo sector.
    pub fn parse(sector: &[u8]) -> (info: FSInfoMain)
        requires
            sector@.len() >= 496,
        ensures
            info.signature_1 == le32(sector@, 0),
            info.signature_2 == le32(sector@, 484),
            info.last_free_cluster == le32(sector@, 488),
            info.start_cluster == le32(sector@, 492),
    {
        FSInfoMain {
            signature_1: read_le32(sector, 0),
            signature_2: read_le32(sector, 484),
            last_free_cluster: read_le32(sector, 488),
            start_cluster: read_le32(sector, 492),
        }
    }

    /// Whether both signatures are in place.
    pub fn is_valid(&self) -> (valid: bool)
        ensures
            valid == (self.signature_1 == FSINFO_SIGNATURE_1 && self.signature_2
                == FSINFO_SIGNATURE_2),
    {
        self.signature_1 == FSINFO_SIGNATURE_1 && self.signature_2 == FSINFO_SIGNATURE_2
    }
}

} // verus!
