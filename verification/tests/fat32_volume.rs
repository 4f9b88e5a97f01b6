use kernel_core::drivers::block::{BlockDevice, BlockError};
use kernel_core::drivers::ide::ATADirection;
use kernel_core::fat32::entry::DirectoryEntry;
use kernel_core::fat32::error::FsError;
use kernel_core::fat32::table::FATChainFollower;
use kernel_core::fat32::volume::FAT32;

fn put_le16(image: &mut [u8], at: usize, value: u16) {
    image[at..at + 2].copy_from_slice(&value.to_le_bytes());
}

fn put_le32(image: &mut [u8], at: usize, value: u32) {
    image[at..at + 4].copy_from_slice(&value.to_le_bytes());
}

/// A small volume: the boot sector at sector 1, the FSInfo sector behind it,
/// two table copies of one sector each, and data clusters of one sector from
/// sector 5 on. The root directory is cluster 2 and empty.
fn blank_image(sectors: usize) -> Vec<u8> {
    let mut image = vec![0u8; sectors * 512];
    let boot = 512;
    put_le16(&mut image, boot + 11, 512);
    image[boot + 13] = 1;
    put_le16(&mut image, boot + 14, 2);
    image[boot + 16] = 2;
    put_le16(&mut image, boot + 19, sectors as u16);
    put_le32(&mut image, boot + 28, 1);
    put_le32(&mut image, boot + 36, 1);
    put_le32(&mut image, boot + 44, 2);
    put_le16(&mut image, boot + 48, 1);
    image[boot + 66] = 0x29;
    image[boot + 82..boot + 90].copy_from_slice(b"FAT32   ");
    let info = 2 * 512;
    put_le32(&mut image, info, 0x41615252);
    put_le32(&mut image, info + 484, 0x61417272);
    for copy in 0..2 {
        let fat = (3 + copy) * 512;
        put_le32(&mut image, fat, 0x0FFF_FFF8);
        put_le32(&mut image, fat + 4, 0xFFFF_FFFF);
        put_le32(&mut image, fat + 8, 0x0FFF_FFFF);
    }
    image
}

fn mounted() -> FAT32 {
    FAT32::new(BlockDevice::from_bytes(blank_image(64))).unwrap()
}

#[test]
fn mount_reads_the_geometry() {
    let fs = mounted();
    let g = fs.geometry();
    assert_eq!(g.bytes_per_sector, 512);
    assert_eq!(g.sectors_per_cluster, 1);
    assert_eq!(g.fat_num, 2);
    assert_eq!(g.sectors_per_fat, 1);
    assert_eq!(g.root_dir_cluster, 2);
    assert_eq!(g.partition_start_lba, 1);
    assert_eq!(g.reserved_sectors, 2);
    assert_eq!(g.total_sectors, 64);
    assert_eq!(fs.fat().table.len(), 128);
    assert_eq!(fs.cluster_lba(2), 5);
    assert_eq!(fs.cluster_lba(7), 10);
}

#[test]
fn mount_rejects_a_wrong_signature() {
    let mut image = blank_image(64);
    image[512 + 66] = 0x27;
    assert!(matches!(
        FAT32::new(BlockDevice::from_bytes(image)),
        Err(FsError::InvalidSignature)
    ));
}

#[test]
fn mount_rejects_a_wrong_identifier() {
    let mut image = blank_image(64);
    image[512 + 82..512 + 90].copy_from_slice(b"FAT16   ");
    assert!(matches!(FAT32::new(BlockDevice::from_bytes(image)), Err(FsError::NotFat32)));
}

#[test]
fn mount_rejects_a_wrong_fsinfo() {
    let mut image = blank_image(64);
    image[2 * 512 + 484] = 0;
    assert!(matches!(FAT32::new(BlockDevice::from_bytes(image)), Err(FsError::InvalidFsInfo)));
}

#[test]
fn mount_faults_on_a_device_without_boot_sector() {
    assert!(matches!(
        FAT32::new(BlockDevice::from_bytes(vec![0u8; 512])),
        Err(FsError::Block(BlockError::Fault))
    ));
}

#[test]
fn create_write_read_in_a_subdirectory() {
    let mut fs = mounted();
    fs.create_directory("", "UUU").unwrap();
    fs.create_file("UUU", "B.TXT").unwrap();
    fs.write_file("UUU/B.TXT", b"hello", 5).unwrap();
    let mut buf = vec![0u8; 5];
    fs.read_file("UUU/B.TXT", &mut buf, 5).unwrap();
    assert_eq!(&buf, b"hello");
}

#[test]
fn traverse_of_a_missing_path_is_not_found() {
    let fs = mounted();
    assert!(matches!(fs.traverse("NOPE/NOTHERE.TXT"), Ok(None)));
}

#[test]
fn parse_filename_rejects_a_long_base() {
    assert_eq!(DirectoryEntry::parse_filename("TOOLONGNAME.TXT"), Err(FsError::NameTooLong));
}

#[test]
fn created_file_is_found_empty() {
    let mut fs = mounted();
    fs.create_directory("", "DIR").unwrap();
    fs.create_file("DIR", "A.TXT").unwrap();
    let (entry, _, _) = fs.traverse("DIR/A.TXT").unwrap().unwrap();
    assert_eq!(entry.file_size, 0);
    assert_ne!(entry.file_attribute, 0x10);
    fs.create_file("", "A.TXT").unwrap();
    let (entry, cluster, offset) = fs.traverse("A.TXT").unwrap().unwrap();
    assert_eq!(entry.file_size, 0);
    assert_eq!(entry.file_attribute, 0x03);
    assert_eq!(cluster, 2);
    assert_eq!(offset, 32);
}

#[test]
fn deleting_twice_is_not_found() {
    let mut fs = mounted();
    fs.create_file("", "A.TXT").unwrap();
    let free_before = fs.fat().count_free();
    fs.delete_file("A.TXT").unwrap();
    assert_eq!(fs.fat().count_free(), free_before + 1);
    let table = fs.fat().table.clone();
    assert_eq!(fs.delete_file("A.TXT"), Err(FsError::NotFound));
    assert_eq!(fs.fat().table, table);
    assert!(matches!(fs.traverse("A.TXT"), Ok(None)));
}

#[test]
fn block_device_transfers_whole_sectors() {
    let mut device = BlockDevice::new(4);
    let mut buffer = vec![7u8; 1024];
    assert_eq!(device.access(ATADirection::Write, 0, 1, 2, &mut buffer), Ok(()));
    assert_eq!(device.read(0, 1).unwrap(), vec![0u8; 512]);
    assert_eq!(device.read(1, 2).unwrap(), vec![7u8; 1024]);
    let mut back = vec![0u8; 600];
    assert_eq!(device.access(ATADirection::Read, 0, 2, 1, &mut back), Ok(()));
    assert_eq!(&back[..512], &[7u8; 512][..]);
    assert_eq!(&back[512..], &[0u8; 88][..]);
    assert_eq!(device.access(ATADirection::Read, 1, 0, 1, &mut back), Err(BlockError::DeviceNotFound));
    assert_eq!(device.access(ATADirection::Read, 0, 3, 2, &mut back), Err(BlockError::Fault));
    assert_eq!(device.read(4, 1), Err(BlockError::Fault));
    assert_eq!(device.write(0, &[1u8; 100]), Err(BlockError::Fault));
    assert_eq!(device.sector_count(), 4);
}

fn image_of(fs: FAT32) -> Vec<u8> {
    fs.into_device().as_bytes().clone()
}

#[test]
fn cluster_addresses_ascend_by_the_cluster_size() {
    let fs = mounted();
    for c1 in 2u32..20 {
        for c2 in (c1 + 1)..20 {
            assert!(fs.cluster_lba(c2) > fs.cluster_lba(c1));
            assert_eq!(fs.cluster_lba(c2) - fs.cluster_lba(c1), (c2 - c1) as u64);
        }
    }
    let mut image = blank_image(64);
    image[512 + 13] = 4;
    let wide = FAT32::new(BlockDevice::from_bytes(image)).unwrap();
    assert_eq!(wide.cluster_lba(2), 5);
    assert_eq!(wide.cluster_lba(3), 9);
    assert_eq!(wide.cluster_lba(10) - wide.cluster_lba(3), 28);
}

#[test]
fn create_file_stores_the_entry_and_both_table_copies() {
    let mut fs = mounted();
    fs.create_file("", "A.TXT").unwrap();
    assert_eq!(fs.fat().table[3], 0xFFFF_FFFF);
    let image = image_of(fs);
    let root = 5 * 512;
    assert_eq!(&image[root..root + 11], b"A       TXT");
    assert_eq!(image[root + 11], 0x03);
    assert_eq!(&image[root + 20..root + 22], &[0, 0]);
    assert_eq!(&image[root + 26..root + 28], &[3, 0]);
    assert_eq!(&image[root + 28..root + 32], &[0, 0, 0, 0]);
    for copy in 0..2 {
        let fat = (3 + copy) * 512;
        assert_eq!(&image[fat + 12..fat + 16], &[0xFF, 0xFF, 0xFF, 0xFF]);
        assert_eq!(&image[fat + 16..fat + 20], &[0, 0, 0, 0]);
    }
}

#[test]
fn create_directory_writes_dot_and_dotdot() {
    let mut fs = mounted();
    fs.create_directory("", "UUU").unwrap();
    fs.create_directory("UUU", "OOO").unwrap();
    let (uuu, _, _) = fs.traverse("UUU").unwrap().unwrap();
    assert_eq!(uuu.file_attribute, 0x10);
    assert_eq!(uuu.get_chain(), 3);
    let (ooo, cluster, offset) = fs.traverse("UUU/OOO").unwrap().unwrap();
    assert_eq!(ooo.get_chain(), 4);
    assert_eq!((cluster, offset), (3, 64));
    // the names `.` and `..` split at their dots into empty parts: as
    // queries they name no entry
    assert!(matches!(fs.traverse("UUU/OOO/."), Ok(None)));
    assert_eq!(fs.traverse("UUU/OOO/..").map(|r| r.is_some()), Err(FsError::InvalidName));
    let image = image_of(fs);
    let cluster4 = (5 + 2) * 512;
    let dot = DirectoryEntry::decode(&image, cluster4);
    assert_eq!(&dot.file_name, b".       ");
    assert_eq!(&dot.file_ext, b"   ");
    assert_eq!(dot.file_attribute, 0x10);
    assert_eq!(dot.get_chain(), 4);
    assert_eq!(dot.file_size, 0);
    let dotdot = DirectoryEntry::decode(&image, cluster4 + 32);
    assert_eq!(&dotdot.file_name, b"..      ");
    assert_eq!(dotdot.file_attribute, 0x10);
    assert_eq!(dotdot.get_chain(), 3);
    assert!(image[cluster4 + 64..cluster4 + 512].iter().all(|b| *b == 0));
    let cluster3 = (5 + 1) * 512;
    assert_eq!(DirectoryEntry::decode(&image, cluster3 + 32).get_chain(), 2);
}

#[test]
fn create_reuses_a_deleted_slot() {
    let mut fs = mounted();
    fs.create_file("", "A.TXT").unwrap();
    fs.create_file("", "B.TXT").unwrap();
    fs.delete_file("A.TXT").unwrap();
    fs.create_file("", "C.TXT").unwrap();
    let (_, cluster, offset) = fs.traverse("C.TXT").unwrap().unwrap();
    assert_eq!((cluster, offset), (2, 0));
    let (_, _, offset) = fs.traverse("B.TXT").unwrap().unwrap();
    assert_eq!(offset, 32);
}

#[test]
fn create_errors() {
    let mut fs = mounted();
    fs.create_file("", "A.TXT").unwrap();
    let before = image_of(mounted_with(&mut fs));
    assert_eq!(fs.create_file("", "A.TXT"), Err(FsError::AlreadyExists));
    assert_eq!(fs.create_directory("", "A.TXT"), Err(FsError::AlreadyExists));
    assert_eq!(fs.create_file("NOPE", "B.TXT"), Err(FsError::NotFound));
    assert_eq!(fs.create_file("A.TXT", "B.TXT"), Err(FsError::NotADirectory));
    assert_eq!(fs.create_file("", "TOOLONGNAME.TXT"), Err(FsError::NameTooLong));
    assert_eq!(fs.create_file("", "A.LONG"), Err(FsError::NameTooLong));
    assert_eq!(fs.create_file("", "A.B.C"), Err(FsError::InvalidName));
    // the directory is looked for before the name is looked at
    assert_eq!(fs.create_file("NOPE", "A.B.C"), Err(FsError::NotFound));
    assert_eq!(fs.create_file("NOPE", "TOOLONGNAME.TXT"), Err(FsError::NotFound));
    assert_eq!(fs.create_file("A.TXT", "A.B.C"), Err(FsError::NotADirectory));
    assert_eq!(fs.create_directory("A.TXT", "TOOLONGNAME"), Err(FsError::NotADirectory));
    assert_eq!(image_of(mounted_with(&mut fs)), before);
    assert_eq!(fs.fat().count_free(), 124);
}

#[test]
fn a_full_directory_refuses_before_the_name_is_looked_at() {
    let mut fs = mounted();
    for i in 0..16 {
        fs.create_file("", &format!("F{}.TXT", i)).unwrap();
    }
    let free = fs.fat().count_free();
    let before = image_of(mounted_with(&mut fs));
    assert_eq!(fs.create_file("", "TOOLONGNAME.TXT"), Err(FsError::NoFreeEntry));
    assert_eq!(fs.create_file("", "A.LONG"), Err(FsError::NoFreeEntry));
    assert_eq!(fs.create_file("", "A.B.C"), Err(FsError::NoFreeEntry));
    assert_eq!(fs.create_directory("", "A.B.C"), Err(FsError::NoFreeEntry));
    assert_eq!(fs.create_file("", "NEW.TXT"), Err(FsError::NoFreeEntry));
    // a name that is there is told first
    assert_eq!(fs.create_file("", "F3.TXT"), Err(FsError::AlreadyExists));
    assert_eq!(fs.fat().count_free(), free);
    assert_eq!(image_of(mounted_with(&mut fs)), before);
    // with a slot free again the name is looked at, and nothing is allocated
    fs.delete_file("F3.TXT").unwrap();
    let free = fs.fat().count_free();
    assert_eq!(fs.create_file("", "TOOLONGNAME.TXT"), Err(FsError::NameTooLong));
    assert_eq!(fs.create_file("", "A.B.C"), Err(FsError::InvalidName));
    assert_eq!(fs.fat().count_free(), free);
}

/// A second volume on a copy of the first volume's device.
fn mounted_with(fs: &mut FAT32) -> FAT32 {
    let mut copy = BlockDevice::new(64);
    let mut buffer = vec![0u8; 512];
    let whole = std::mem::replace(fs, mounted());
    let device = whole.into_device();
    for lba in 0..64u64 {
        buffer.copy_from_slice(&device.read(lba, 1).unwrap());
        copy.write(lba, &buffer).unwrap();
    }
    *fs = FAT32::new(device).unwrap();
    FAT32::new(copy).unwrap()
}

#[test]
fn a_full_directory_has_no_free_entry() {
    let mut fs = mounted();
    for i in 0..16 {
        fs.create_file("", &format!("F{}.TXT", i)).unwrap();
    }
    assert_eq!(fs.create_file("", "LAST.TXT"), Err(FsError::NoFreeEntry));
    fs.delete_file("F7.TXT").unwrap();
    fs.create_file("", "LAST.TXT").unwrap();
    let (_, _, offset) = fs.traverse("LAST.TXT").unwrap().unwrap();
    assert_eq!(offset, 7 * 32);
}

#[test]
fn a_full_table_is_out_of_space() {
    let mut fs = FAT32::new(BlockDevice::from_bytes(blank_image(131))).unwrap();
    fs.create_directory("", "D0").unwrap();
    fs.create_directory("", "D1").unwrap();
    // clusters 2 to 4 are taken; take all others but one
    let mut created = 0;
    for dir in ["D0", "D1"] {
        for i in 0..14 {
            if fs.fat().count_free() == 1 {
                break;
            }
            fs.create_file(dir, &format!("F{}", i)).unwrap();
            created += 1;
        }
    }
    assert_eq!(created, 28);
    while fs.fat().count_free() > 1 {
        fs.allocate_chain(1).unwrap();
    }
    fs.create_file("", "X.TXT").unwrap();
    assert_eq!(fs.fat().count_free(), 0);
    assert_eq!(fs.create_file("", "Y.TXT"), Err(FsError::OutOfSpace));
    assert_eq!(fs.write_file("X.TXT", &[1u8; 513], 513), Err(FsError::OutOfSpace));
    let (entry, _, _) = fs.traverse("X.TXT").unwrap().unwrap();
    assert_eq!(entry.file_size, 0);
    // what fits into the file's own cluster needs no other
    fs.write_file("X.TXT", &[1u8; 512], 512).unwrap();
    assert_eq!(fs.write_file("X.TXT", &[1u8; 1], 1), Err(FsError::OutOfSpace));
    let (entry, _, _) = fs.traverse("X.TXT").unwrap().unwrap();
    assert_eq!(entry.file_size, 512);
}

#[test]
fn traverse_errors() {
    let mut fs = mounted();
    fs.create_file("", "A.TXT").unwrap();
    fs.create_directory("", "DIR").unwrap();
    assert_eq!(fs.traverse("A.TXT/B").map(|r| r.is_some()), Err(FsError::NotADirectory));
    assert_eq!(fs.traverse("A.B.C").map(|r| r.is_some()), Err(FsError::InvalidName));
    assert!(matches!(fs.traverse("DIR/NOPE"), Ok(None)));
    assert!(matches!(fs.traverse(""), Ok(None)));
    assert!(matches!(fs.traverse("/A.TXT"), Ok(None)));
    assert!(matches!(fs.traverse("a.txt"), Ok(None)));
    assert!(matches!(fs.traverse("DIR/"), Ok(None)));
    assert_eq!(fs.internal_object_exists(2, "A.TXT"), Ok(true));
    assert_eq!(fs.internal_object_exists(2, "B.TXT"), Ok(false));
    assert_eq!(fs.internal_object_exists(3, "."), Ok(false));
    assert_eq!(fs.internal_object_exists(3, "A.TXT"), Ok(false));
    assert_eq!(fs.internal_object_exists(1, "A.TXT"), Err(FsError::Block(BlockError::Fault)));
}

#[test]
fn traverse_skips_long_name_entries() {
    let mut image = blank_image(64);
    let root = 5 * 512;
    image[root..root + 11].copy_from_slice(b"A       TXT");
    image[root + 11] = 0x0F;
    image[root + 32..root + 43].copy_from_slice(b"A       TXT");
    image[root + 32 + 11] = 0x20;
    image[root + 32 + 28] = 9;
    let fs = FAT32::new(BlockDevice::from_bytes(image)).unwrap();
    let (entry, cluster, offset) = fs.traverse("A.TXT").unwrap().unwrap();
    assert_eq!((cluster, offset), (2, 32));
    assert_eq!(entry.file_size, 9);
    // a name of three parts is refused only where an entry is compared with it
    assert_eq!(fs.traverse("A.B.C").map(|r| r.is_some()), Err(FsError::InvalidName));
    assert!(matches!(mounted().traverse("A.B.C"), Ok(None)));
}

#[test]
fn traverse_follows_the_directory_chain() {
    let mut image = blank_image(64);
    for copy in 0..2 {
        let fat = (3 + copy) * 512;
        put_le32(&mut image, fat + 8, 7); // root: cluster 2, then cluster 7
        put_le32(&mut image, fat + 28, 0x0FFF_FFFF);
    }
    let root = 5 * 512;
    for slot in 0..16 {
        let at = root + slot * 32;
        image[at..at + 11].copy_from_slice(format!("F{:<7}TXT", slot).as_bytes());
        image[at + 11] = 0x20;
    }
    let second = (5 + 5) * 512;
    image[second..second + 11].copy_from_slice(b"DEEP    BIN");
    image[second + 11] = 0x20;
    let mut fs = FAT32::new(BlockDevice::from_bytes(image)).unwrap();
    let (_, cluster, offset) = fs.traverse("DEEP.BIN").unwrap().unwrap();
    assert_eq!((cluster, offset), (7, 0));
    fs.create_file("", "NEW.TXT").unwrap();
    let (_, cluster, offset) = fs.traverse("NEW.TXT").unwrap().unwrap();
    assert_eq!((cluster, offset), (7, 32));
}

#[test]
fn read_file_errors_and_limits() {
    let mut fs = mounted();
    fs.create_directory("", "DIR").unwrap();
    fs.create_file("", "A.TXT").unwrap();
    fs.write_file("A.TXT", b"0123456789", 10).unwrap();
    let mut buf = vec![0xEEu8; 8];
    assert_eq!(fs.read_file("NOPE", &mut buf, 8), Err(FsError::NotFound));
    assert_eq!(fs.read_file("DIR", &mut buf, 8), Err(FsError::IsADirectory));
    assert_eq!(buf, vec![0xEEu8; 8]);
    fs.read_file("A.TXT", &mut buf, 4).unwrap();
    assert_eq!(&buf, b"0123\xEE\xEE\xEE\xEE");
    fs.read_file("A.TXT", &mut buf, 420).unwrap();
    assert_eq!(&buf, b"01234567");
    let mut large = vec![0xEEu8; 16];
    fs.read_file("A.TXT", &mut large, 16).unwrap();
    assert_eq!(&large, b"0123456789\xEE\xEE\xEE\xEE\xEE\xEE");
    fs.read_file("A.TXT", &mut large, 0).unwrap();
    assert_eq!(&large, b"0123456789\xEE\xEE\xEE\xEE\xEE\xEE");
}

#[test]
fn write_file_appends_across_clusters() {
    let mut fs = mounted();
    fs.create_file("", "BIG.BIN").unwrap();
    let first: Vec<u8> = (0..700u32).map(|i| (i % 251) as u8).collect();
    fs.write_file("BIG.BIN", &first, 700).unwrap();
    let (entry, _, _) = fs.traverse("BIG.BIN").unwrap().unwrap();
    assert_eq!(entry.file_size, 700);
    assert_eq!(fs.fat().chain(entry.get_chain()), vec![3, 4]);
    let second: Vec<u8> = (0..900u32).map(|i| (i % 13) as u8 + 100).collect();
    fs.write_file("BIG.BIN", &second, 900).unwrap();
    let (entry, _, _) = fs.traverse("BIG.BIN").unwrap().unwrap();
    assert_eq!(entry.file_size, 1600);
    assert_eq!(fs.fat().chain(entry.get_chain()), vec![3, 4, 5, 6]);
    let mut back = vec![0u8; 1600];
    fs.read_file("BIG.BIN", &mut back, 1600).unwrap();
    assert_eq!(&back[..700], &first[..]);
    assert_eq!(&back[700..], &second[..]);
}

#[test]
fn write_file_behind_a_full_cluster_goes_on_in_the_next() {
    let mut fs = mounted();
    fs.create_file("", "A.BIN").unwrap();
    fs.write_file("A.BIN", &[7u8; 512], 512).unwrap();
    let (entry, _, _) = fs.traverse("A.BIN").unwrap().unwrap();
    assert_eq!(entry.file_size, 512);
    assert_eq!(fs.fat().chain(entry.get_chain()), vec![3]);
    fs.write_file("A.BIN", b"xy", 2).unwrap();
    let mut back = vec![0u8; 514];
    fs.read_file("A.BIN", &mut back, 514).unwrap();
    assert_eq!(&back[..512], &[7u8; 512][..]);
    assert_eq!(&back[512..], b"xy");
    let (entry, _, _) = fs.traverse("A.BIN").unwrap().unwrap();
    assert_eq!(entry.file_size, 514);
    assert_eq!(fs.fat().chain(entry.get_chain()), vec![3, 4]);
    let image = image_of(fs);
    assert_eq!(&image[6 * 512..7 * 512], &[7u8; 512][..]);
    assert_eq!(&image[7 * 512..7 * 512 + 3], b"xy\0");
}

#[test]
fn write_file_to_a_stored_file_of_one_full_cluster() {
    let mut image = blank_image(64);
    let root = 5 * 512;
    image[root..root + 11].copy_from_slice(b"FULL    BIN");
    image[root + 11] = 0x20;
    image[root + 26..root + 28].copy_from_slice(&[9, 0]);
    put_le32(&mut image, root + 28, 512);
    for copy in 0..2 {
        put_le32(&mut image, (3 + copy) * 512 + 9 * 4, 0x0FFF_FFFF);
    }
    let data = (5 + 7) * 512;
    for i in 0..512 {
        image[data + i] = (i % 200) as u8 + 1;
    }
    let kept: Vec<u8> = image[data..data + 512].to_vec();
    let mut fs = FAT32::new(BlockDevice::from_bytes(image)).unwrap();
    fs.write_file("FULL.BIN", b"tail", 4).unwrap();
    let (entry, _, _) = fs.traverse("FULL.BIN").unwrap().unwrap();
    assert_eq!(entry.file_size, 516);
    assert_eq!(fs.fat().chain(9), vec![9, 3]);
    let mut back = vec![0u8; 516];
    fs.read_file("FULL.BIN", &mut back, 516).unwrap();
    assert_eq!(&back[..512], &kept[..]);
    assert_eq!(&back[512..], b"tail");
}

#[test]
fn write_file_uses_the_clusters_that_the_chain_has() {
    let mut fs = mounted();
    fs.create_file("", "A.BIN").unwrap();
    fs.write_file("A.BIN", &[1u8; 100], 100).unwrap();
    fs.write_file("A.BIN", &[2u8; 412], 412).unwrap();
    let (entry, _, _) = fs.traverse("A.BIN").unwrap().unwrap();
    assert_eq!((entry.file_size, fs.fat().chain(entry.get_chain())), (512, vec![3]));
    fs.write_file("A.BIN", &[3u8; 1024], 1024).unwrap();
    let (entry, _, _) = fs.traverse("A.BIN").unwrap().unwrap();
    assert_eq!((entry.file_size, fs.fat().chain(entry.get_chain())), (1536, vec![3, 4, 5]));
    let mut back = vec![0u8; 1536];
    fs.read_file("A.BIN", &mut back, 1536).unwrap();
    assert_eq!(&back[..100], &[1u8; 100][..]);
    assert_eq!(&back[100..512], &[2u8; 412][..]);
    assert_eq!(&back[512..], &[3u8; 1024][..]);
}

#[test]
fn write_file_takes_no_more_than_it_is_given() {
    let mut fs = mounted();
    fs.create_file("", "A.TXT").unwrap();
    fs.write_file("A.TXT", b"hello world", 5).unwrap();
    fs.write_file("A.TXT", b"!!", 10).unwrap();
    fs.write_file("A.TXT", b"", 0).unwrap();
    let (entry, _, _) = fs.traverse("A.TXT").unwrap().unwrap();
    assert_eq!(entry.file_size, 7);
    let mut back = vec![0u8; 7];
    fs.read_file("A.TXT", &mut back, 7).unwrap();
    assert_eq!(&back, b"hello!!");
}

#[test]
fn write_file_errors_change_nothing() {
    let mut fs = mounted();
    fs.create_directory("", "DIR").unwrap();
    let before = image_of(mounted_with(&mut fs));
    assert_eq!(fs.write_file("NOPE", b"abc", 3), Err(FsError::NotFound));
    assert_eq!(fs.write_file("DIR", b"abc", 3), Err(FsError::IsADirectory));
    assert_eq!(fs.write_file("DIR/X/Y", b"abc", 3), Ok(()).and(Err(FsError::NotFound)));
    assert_eq!(image_of(mounted_with(&mut fs)), before);
}

#[test]
fn write_file_to_a_file_without_cluster_gives_it_one() {
    for halves in [[0xFFu8, 0x0F, 0xFF, 0xFF], [0, 0, 0, 0], [0, 0, 1, 0]] {
        let mut image = blank_image(64);
        let root = 5 * 512;
        image[root..root + 11].copy_from_slice(b"EMPTY   TXT");
        image[root + 11] = 0x20;
        image[root + 20..root + 22].copy_from_slice(&halves[..2]);
        image[root + 26..root + 28].copy_from_slice(&halves[2..]);
        let mut fs = FAT32::new(BlockDevice::from_bytes(image)).unwrap();
        // nothing to store: the file stays without a cluster
        fs.write_file("EMPTY.TXT", b"", 0).unwrap();
        assert_eq!(fs.fat().count_free(), 125);
        fs.write_file("EMPTY.TXT", b"abc", 3).unwrap();
        let (entry, _, _) = fs.traverse("EMPTY.TXT").unwrap().unwrap();
        assert_eq!((entry.file_size, entry.get_chain()), (3, 3));
        assert_eq!(fs.fat().table[3], 0xFFFF_FFFF);
        assert_eq!(fs.fat().table[0], 0x0FFF_FFF8);
        let mut back = vec![0u8; 3];
        fs.read_file("EMPTY.TXT", &mut back, 3).unwrap();
        assert_eq!(&back, b"abc");
        let image = image_of(fs);
        assert_eq!(&image[3 * 512 + 12..3 * 512 + 16], &[0xFF, 0xFF, 0xFF, 0xFF]);
        assert_eq!(&image[root + 20..root + 22], &[0, 0]);
        assert_eq!(&image[root + 26..root + 32], &[3, 0, 3, 0, 0, 0]);
    }
}

#[test]
fn write_file_faults_where_a_cluster_lies_off_the_device() {
    let mut image = blank_image(64);
    let root = 5 * 512;
    image[root..root + 11].copy_from_slice(b"FAR     BIN");
    image[root + 11] = 0x20;
    image[root + 26..root + 28].copy_from_slice(&[100, 0]);
    for copy in 0..2 {
        put_le32(&mut image, (3 + copy) * 512 + 100 * 4, 0x0FFF_FFFF);
    }
    let before = image.clone();
    let mut fs = FAT32::new(BlockDevice::from_bytes(image)).unwrap();
    assert_eq!(fs.write_file("FAR.BIN", b"abc", 3), Err(FsError::Block(BlockError::Fault)));
    assert_eq!(image_of(fs), before);
}

#[test]
fn delete_marks_the_entry_and_frees_the_chain() {
    let mut fs = mounted();
    fs.create_file("", "A.TXT").unwrap();
    fs.write_file("A.TXT", &[1u8; 1200], 1200).unwrap();
    assert_eq!(&fs.fat().table[3..7], &[4, 5, 0xFFFF_FFFF, 0]);
    let free_before = fs.fat().count_free();
    fs.delete_file("A.TXT").unwrap();
    assert_eq!(fs.fat().count_free(), free_before + 3);
    assert_eq!(&fs.fat().table[2..7], &[0x0FFF_FFFF, 0, 0, 0, 0]);
    let image = image_of(fs);
    let root = 5 * 512;
    assert_eq!(image[root], 0xE5);
    assert_eq!(&image[root + 1..root + 11], b"       TXT");
    for copy in 0..2 {
        let fat = (3 + copy) * 512;
        assert_eq!(&image[fat + 8..fat + 24], &[0xFF, 0xFF, 0xFF, 0x0F, 0, 0, 0, 0, 0, 0, 0, 0, 0, 0, 0, 0]);
    }
}

#[test]
fn delete_checks_the_kind_of_object() {
    let mut fs = mounted();
    fs.create_file("", "A.TXT").unwrap();
    fs.create_directory("", "DIR").unwrap();
    fs.create_file("DIR", "IN.TXT").unwrap();
    assert_eq!(fs.delete_file("DIR"), Err(FsError::WrongType));
    assert_eq!(fs.delete_directory("A.TXT"), Err(FsError::WrongType));
    assert_eq!(fs.delete_directory("NOPE"), Err(FsError::NotFound));
    assert_eq!(fs.delete_file("DIR/NOPE"), Err(FsError::NotFound));
    // a directory that holds a file is deleted without its file
    let in_cluster = fs.traverse("DIR/IN.TXT").unwrap().unwrap().0.get_chain();
    fs.delete_directory("DIR").unwrap();
    assert!(matches!(fs.traverse("DIR"), Ok(None)));
    assert_eq!(fs.fat().table[in_cluster as usize], 0xFFFF_FFFF);
    assert_eq!(fs.delete_directory("DIR"), Err(FsError::NotFound));
    fs.delete_file("A.TXT").unwrap();
    assert_eq!(fs.delete_file("A.TXT"), Err(FsError::NotFound));
}

#[test]
fn a_volume_of_other_sector_size_cannot_be_read() {
    let mut image = blank_image(64);
    put_le16(&mut image, 512 + 11, 1024);
    let mut fs = FAT32::new(BlockDevice::from_bytes(image)).unwrap();
    assert_eq!(fs.traverse("A.TXT").map(|r| r.is_some()), Err(FsError::Block(BlockError::Fault)));
    assert_eq!(fs.create_file("", "A.TXT"), Err(FsError::Block(BlockError::Fault)));
    let mut none = blank_image(64);
    none[512 + 13] = 0;
    let fs = FAT32::new(BlockDevice::from_bytes(none)).unwrap();
    assert_eq!(fs.traverse("A.TXT").map(|r| r.is_some()), Err(FsError::Block(BlockError::Fault)));
}

#[test]
fn mount_faults_where_the_table_lies_off_the_device() {
    let mut image = blank_image(64);
    put_le32(&mut image, 512 + 36, 100);
    assert!(matches!(
        FAT32::new(BlockDevice::from_bytes(image)),
        Err(FsError::Block(BlockError::Fault))
    ));
    let mut image = blank_image(64);
    put_le16(&mut image, 512 + 48, 500);
    assert!(matches!(
        FAT32::new(BlockDevice::from_bytes(image)),
        Err(FsError::Block(BlockError::Fault))
    ));
}

#[test]
fn mount_checks_the_signature_before_the_identifier() {
    let mut image = blank_image(64);
    image[512 + 66] = 0;
    image[512 + 82] = b'X';
    image[2 * 512] = 0;
    assert!(matches!(
        FAT32::new(BlockDevice::from_bytes(image.clone())),
        Err(FsError::InvalidSignature)
    ));
    image[512 + 66] = 0x28;
    assert!(matches!(FAT32::new(BlockDevice::from_bytes(image.clone())), Err(FsError::NotFat32)));
    image[512 + 82] = b'F';
    assert!(matches!(FAT32::new(BlockDevice::from_bytes(image)), Err(FsError::InvalidFsInfo)));
}

#[test]
fn mount_uses_the_large_sector_count() {
    let mut image = blank_image(64);
    put_le16(&mut image, 512 + 19, 0);
    put_le32(&mut image, 512 + 32, 70000);
    let fs = FAT32::new(BlockDevice::from_bytes(image)).unwrap();
    assert_eq!(fs.geometry().total_sectors, 70000);
}

#[test]
fn the_session_of_the_kernel() {
    let mut fs = mounted();
    fs.create_directory("", "KEK").unwrap();
    fs.create_directory("KEK", "ABA").unwrap();
    fs.create_file("KEK/ABA", "LOL3.TXT").unwrap();
    fs.create_file("", "LOL.TXT").unwrap();
    let mut buf = vec![0u8; 64];
    fs.read_file("KEK/ABA/LOL3.TXT", &mut buf, 420).unwrap();
    fs.delete_directory("KEK/ABA").unwrap();
    fs.create_file("KEK", "A.TXT").unwrap();
    fs.create_directory("", "UUU").unwrap();
    fs.create_directory("UUU", "OOO").unwrap();
    fs.create_file("UUU", "B.TXT").unwrap();
    fs.create_file("UUU", "AAA.TXT").unwrap();
    fs.create_file("UUU/OOO", "CD.TXT").unwrap();
    fs.create_file("KEK", "B0.TXT").unwrap();
    let str1 = "append from fs wow!";
    fs.write_file("KEK/A.TXT", str1.as_bytes(), str1.len()).unwrap();
    let str2 = " [please hope this appends]";
    fs.write_file("LOL.TXT", str2.as_bytes(), str2.len()).unwrap();
    fs.create_file("UUU/OOO", "LOL.TXT").unwrap();
    fs.write_file("UUU/OOO/LOL.TXT", str2.as_bytes(), str2.len()).unwrap();
    fs.write_file("UUU/OOO/LOL.TXT", str1.as_bytes(), str1.len()).unwrap();
    let mut back = vec![0u8; 64];
    fs.read_file("UUU/OOO/LOL.TXT", &mut back, 64).unwrap();
    assert_eq!(&back[..46], b" [please hope this appends]append from fs wow!");
    // what was written is there after the volume was mounted anew
    let again = FAT32::new(fs.into_device()).unwrap();
    let mut back = vec![0u8; 19];
    again.read_file("KEK/A.TXT", &mut back, 19).unwrap();
    assert_eq!(&back, b"append from fs wow!");
    assert!(matches!(again.traverse("KEK/ABA"), Ok(None)));
}

#[test]
fn chains_are_followed_cluster_by_cluster() {
    let mut fs = mounted();
    fs.create_file("", "A.BIN").unwrap();
    fs.write_file("A.BIN", &[9u8; 600], 600).unwrap();
    let mut follower = FATChainFollower::new(3, fs.fat());
    let (cluster, data) = fs.follow(&mut follower).unwrap().unwrap();
    assert_eq!(cluster, 3);
    assert_eq!(data, vec![9u8; 512]);
    let (cluster, data) = fs.follow(&mut follower).unwrap().unwrap();
    assert_eq!(cluster, 4);
    assert_eq!(&data[..88], &[9u8; 88][..]);
    assert_eq!(&data[88..], &[0u8; 424][..]);
    assert_eq!(fs.follow(&mut follower), Ok(None));
    // a chain that leads off the device faults at that cluster and goes on
    let mut off = FATChainFollower::new(100, fs.fat());
    assert_eq!(fs.follow(&mut off), Err(FsError::Block(BlockError::Fault)));
    assert_eq!(off.current_chain, 0);
    assert_eq!(fs.load_cluster(1), Err(FsError::Block(BlockError::Fault)));
    assert_eq!(fs.load_cluster(2).unwrap().len(), 512);
    assert!(fs.cluster_ready(60));
    assert!(!fs.cluster_ready(61));
}

#[test]
fn objects_and_chains_on_the_volume() {
    let mut fs = mounted();
    assert_eq!(fs.create_object("", "SYS", 0x10), Ok((2, 3)));
    assert_eq!(fs.create_object("SYS", "X.BIN", 0x20), Ok((3, 4)));
    assert_eq!(fs.create_object("", "X.BIN", 0x20), Ok((2, 5)));
    let (entry, cluster, _) = fs.traverse("SYS/X.BIN").unwrap().unwrap();
    assert_eq!((entry.file_attribute, cluster), (0x20, 3));
    assert_eq!(fs.create_object("NOPE", "X.BIN", 0x20), Err(FsError::NotFound));
    assert_eq!(fs.allocate_chain(2), Ok(6));
    assert_eq!(&fs.fat().table[6..9], &[7, 0xFFFF_FFFF, 0]);
    fs.deallocate_chain(6);
    assert_eq!(&fs.fat().table[6..9], &[0, 0, 0]);
    assert_eq!(fs.allocate_chain(1000), Err(FsError::OutOfSpace));
    // the table on the device follows only when it is written
    assert_eq!(fs.allocate_chain(1), Ok(6));
    fs.sync_fat();
    let image = image_of(fs);
    assert_eq!(&image[3 * 512 + 24..3 * 512 + 28], &[0xFF, 0xFF, 0xFF, 0xFF]);
    assert_eq!(&image[4 * 512 + 24..4 * 512 + 28], &[0xFF, 0xFF, 0xFF, 0xFF]);
}

#[test]
fn stored_bytes_lie_where_they_were_put() {
    let mut fs = mounted();
    fs.store_at(7, 500, &[1, 2, 3]);
    let image = image_of(fs);
    let at = (5 + 5) * 512 + 500;
    assert_eq!(&image[at - 1..at + 4], &[0, 1, 2, 3, 0]);
}

#[test]
fn deleting_one_of_two_entries_of_a_name_leaves_the_other() {
    let mut image = blank_image(64);
    let root = 5 * 512;
    for (slot, cluster) in [(0usize, 8u8), (1, 9)] {
        let at = root + slot * 32;
        image[at..at + 11].copy_from_slice(b"TWIN    TXT");
        image[at + 11] = 0x20;
        image[at + 26] = cluster;
        for copy in 0..2 {
            put_le32(&mut image, (3 + copy) * 512 + cluster as usize * 4, 0x0FFF_FFFF);
        }
    }
    let mut fs = FAT32::new(BlockDevice::from_bytes(image)).unwrap();
    assert_eq!(fs.traverse("TWIN.TXT").unwrap().unwrap().2, 0);
    fs.delete_file("TWIN.TXT").unwrap();
    assert_eq!(fs.fat().table[8], 0);
    // the name now leads to the second entry
    assert_eq!(fs.traverse("TWIN.TXT").unwrap().unwrap().2, 32);
    fs.delete_file("TWIN.TXT").unwrap();
    assert_eq!(fs.fat().table[9], 0);
    assert_eq!(fs.delete_file("TWIN.TXT"), Err(FsError::NotFound));
}

#[test]
fn a_new_file_in_a_new_directory_reads_back_what_was_written() {
    for (dir, file, len) in [("DOCS", "N.BIN", 1300usize), ("A", "B", 1), ("D.X", "LONGNAME.TXT", 512)] {
        let mut fs = mounted();
        fs.create_file("", "FIRST.TXT").unwrap();
        fs.create_directory("", dir).unwrap();
        fs.create_file(dir, file).unwrap();
        let data: Vec<u8> = (0..len).map(|i| (i % 253) as u8 + 1).collect();
        let path = format!("{}/{}", dir, file);
        fs.write_file(&path, &data, len).unwrap();
        let mut back = vec![0u8; len + 7];
        fs.read_file(&path, &mut back, len + 7).unwrap();
        assert_eq!(&back[..len], &data[..]);
        assert_eq!(&back[len..], &[0u8; 7]);
    }
}
