use kernel_core::fat32::boot::{BootSector, ExtendedBootRecord, FSInfoMain};
use kernel_core::fat32::entry::DirectoryEntry;
use kernel_core::fat32::layout::{overlay, push_le16, push_le32, read_le16, read_le32};

fn sample_bytes() -> Vec<u8> {
    let mut bytes = Vec::new();
    bytes.extend_from_slice(b"HELLO   TXT");
    bytes.push(0x20); // attribute
    bytes.push(0x01); // reserved
    bytes.push(0x02); // creation time, hundredths
    bytes.extend_from_slice(&0x1234u16.to_le_bytes());
    bytes.extend_from_slice(&0x2345u16.to_le_bytes());
    bytes.extend_from_slice(&0x3456u16.to_le_bytes());
    bytes.extend_from_slice(&0x0001u16.to_le_bytes()); // high cluster word
    bytes.extend_from_slice(&0x4567u16.to_le_bytes());
    bytes.extend_from_slice(&0x5678u16.to_le_bytes());
    bytes.extend_from_slice(&0x0203u16.to_le_bytes()); // low cluster word
    bytes.extend_from_slice(&0x0A0B0C0Du32.to_le_bytes());
    bytes
}

#[test]
fn decode_reads_every_field() {
    let bytes = sample_bytes();
    assert_eq!(bytes.len(), 32);
    let entry = DirectoryEntry::decode(&bytes, 0);
    assert_eq!(&entry.file_name, b"HELLO   ");
    assert_eq!(&entry.file_ext, b"TXT");
    assert_eq!(entry.file_attribute, 0x20);
    assert_eq!(entry.reserved_windows_nt, 0x01);
    assert_eq!(entry.creation_time_100ms, 0x02);
    assert_eq!(entry.creation_time, 0x1234);
    assert_eq!(entry.creation_date, 0x2345);
    assert_eq!(entry.last_accessed_date, 0x3456);
    assert_eq!(entry.high_first_cluster, 0x0001);
    assert_eq!(entry.last_modification_time, 0x4567);
    assert_eq!(entry.last_modification_date, 0x5678);
    assert_eq!(entry.low_first_entry_cluster, 0x0203);
    assert_eq!(entry.file_size, 0x0A0B0C0D);
    assert_eq!(entry.get_chain(), 0x0001_0203);
}

#[test]
fn encode_is_the_inverse_of_decode() {
    let bytes = sample_bytes();
    let entry = DirectoryEntry::decode(&bytes, 0);
    assert_eq!(entry.encode(), bytes);
}

#[test]
fn decode_at_an_offset() {
    let mut bytes = vec![0xAAu8; 64];
    bytes[32..].copy_from_slice(&sample_bytes());
    let entry = DirectoryEntry::decode(&bytes, 32);
    assert_eq!(&entry.file_name, b"HELLO   ");
    assert_eq!(entry.file_size, 0x0A0B0C0D);
}

#[test]
fn fetch_tells_end_deleted_and_live_apart() {
    let mut bytes = sample_bytes();
    let (entry, skip) = DirectoryEntry::fetch(&bytes, 0).unwrap();
    assert!(!skip);
    assert_eq!(&entry.file_ext, b"TXT");
    bytes[0] = 0xE5;
    let (entry, skip) = DirectoryEntry::fetch(&bytes, 0).unwrap();
    assert!(skip);
    assert_eq!(entry.file_name[0], 0xE5);
    bytes[0] = 0x00;
    assert!(DirectoryEntry::fetch(&bytes, 0).is_none());
}

#[test]
fn fetch_beyond_the_bytes_is_the_end() {
    let bytes = sample_bytes();
    assert!(DirectoryEntry::fetch(&bytes, 1).is_none());
    assert!(DirectoryEntry::fetch(&bytes, 32).is_none());
    assert!(DirectoryEntry::fetch(&bytes[..31], 0).is_none());
    assert!(DirectoryEntry::fetch(&[], 0).is_none());
}

#[test]
fn chain_is_packed_from_two_halves() {
    assert_eq!(DirectoryEntry::assemble_chain(0x0012, 0x3456), 0x0012_3456);
    assert_eq!(DirectoryEntry::assemble_chain(0, 2), 2);
    assert_eq!(DirectoryEntry::assemble_chain(0xFFFF, 0xFFFF), 0xFFFF_FFFF);
    assert_eq!(DirectoryEntry::divide_chain(0x0012_3456), (0x0012, 0x3456));
    assert_eq!(DirectoryEntry::divide_chain(2), (0, 2));
    assert_eq!(DirectoryEntry::divide_chain(0xFFFF_FFFF), (0xFFFF, 0xFFFF));
}

#[test]
fn divide_and_assemble_are_inverse() {
    for chain in [0u32, 1, 2, 0xFFFF, 0x1_0000, 0x0FFF_FFF8, 0xDEAD_BEEF, u32::MAX] {
        let (hi, lo) = DirectoryEntry::divide_chain(chain);
        assert_eq!(DirectoryEntry::assemble_chain(hi, lo), chain);
    }
}

#[test]
fn set_chain_stores_both_halves() {
    let mut entry = DirectoryEntry::decode(&sample_bytes(), 0);
    entry.set_chain(0x00AB_CDEF);
    assert_eq!(entry.high_first_cluster, 0x00AB);
    assert_eq!(entry.low_first_entry_cluster, 0xCDEF);
    assert_eq!(entry.get_chain(), 0x00AB_CDEF);
    assert_eq!(entry.file_size, 0x0A0B0C0D);
}

#[test]
fn fresh_entry_is_empty() {
    let entry = DirectoryEntry::fresh(*b"NEW     ", *b"BIN", 0x03, 0x0004_0005);
    assert_eq!(entry.file_size, 0);
    assert_eq!(entry.file_attribute, 0x03);
    assert_eq!(entry.get_chain(), 0x0004_0005);
    let bytes = entry.encode();
    assert_eq!(&bytes[..11], b"NEW     BIN");
    assert_eq!(&bytes[11..20], &[0x03, 0, 0, 0, 0, 0, 0, 0, 0]);
    assert_eq!(&bytes[20..22], &[0x04, 0x00]);
    assert_eq!(&bytes[22..26], &[0, 0, 0, 0]);
    assert_eq!(&bytes[26..28], &[0x05, 0x00]);
    assert_eq!(&bytes[28..32], &[0, 0, 0, 0]);
}

#[test]
fn little_endian_fields() {
    let bytes = [0x78u8, 0x56, 0x34, 0x12, 0xFF];
    assert_eq!(read_le16(&bytes, 0), 0x5678);
    assert_eq!(read_le16(&bytes, 3), 0xFF12);
    assert_eq!(read_le32(&bytes, 0), 0x1234_5678);
    assert_eq!(read_le32(&bytes, 1), 0xFF12_3456);
    let mut out = vec![9u8];
    push_le16(&mut out, 0xABCD);
    push_le32(&mut out, 0x0102_0304);
    assert_eq!(out, vec![9, 0xCD, 0xAB, 0x04, 0x03, 0x02, 0x01]);
    let mut buffer = vec![0u8; 6];
    overlay(&mut buffer, 2, &[7, 8, 9]);
    assert_eq!(buffer, vec![0, 0, 7, 8, 9, 0]);
}

#[test]
fn test_read_bootsector_data_is_ordered() {
    // every field holds the number of its place among the fields
    let mut sector = vec![0u8; 512];
    sector[0..3].copy_from_slice(&[0x00, 0x01, 0x02]);
    sector[3..11].copy_from_slice(&[0x03, 0x04, 0x05, 0x06, 0x07, 0x08, 0x09, 0x0A]);
    sector[11..13].copy_from_slice(&0x0Bu16.to_le_bytes());
    sector[13] = 0x0C;
    sector[14..16].copy_from_slice(&0x0Du16.to_le_bytes());
    sector[16] = 0x0E;
    sector[17..19].copy_from_slice(&0x0Fu16.to_le_bytes());
    sector[19..21].copy_from_slice(&0x10u16.to_le_bytes());
    sector[21] = 0x11;
    sector[22..24].copy_from_slice(&0x12u16.to_le_bytes());
    sector[24..26].copy_from_slice(&0x13u16.to_le_bytes());
    sector[26..28].copy_from_slice(&0x14u16.to_le_bytes());
    sector[28..32].copy_from_slice(&0x15u32.to_le_bytes());
    sector[32..36].copy_from_slice(&0x16u32.to_le_bytes());
    let boot_sector = BootSector::parse(&sector);
    assert!(boot_sector.boot_jmp == [0x00, 0x01, 0x02]);
    assert!(boot_sector.oem_identifier == [0x03, 0x04, 0x05, 0x06, 0x07, 0x08, 0x09, 0x0A]);
    assert!(boot_sector.bytes_per_sector == 0x0B);
    assert!(boot_sector.sectors_per_cluster == 0x0C);
    assert!(boot_sector.reserved_sectors == 0x0D);
    assert!(boot_sector.num_fats == 0x0E);
    assert!(boot_sector.num_root_dir_entries == 0x0F);
    assert!(boot_sector.num_sectors == 0x10);
    assert!(boot_sector.media_description_type == 0x11);
    assert!(boot_sector.num_sectors_per_fat == 0x12);
    assert!(boot_sector.num_sectors_per_track == 0x13);
    assert!(boot_sector.num_heads_on_storage == 0x14);
    assert!(boot_sector.num_hidden_sectors == 0x15);
    assert!(boot_sector.large_sector_count == 0x16);
    assert_eq!(boot_sector.total_sectors(), 0x10);
}

#[test]
fn total_sectors_falls_back_to_the_large_count() {
    let mut sector = vec![0u8; 512];
    sector[32..36].copy_from_slice(&0x0012_3456u32.to_le_bytes());
    assert_eq!(BootSector::parse(&sector).total_sectors(), 0x0012_3456);
}

#[test]
fn extended_boot_record_fields() {
    let mut sector = vec![0u8; 512];
    sector[36..40].copy_from_slice(&0x0000_0123u32.to_le_bytes());
    sector[40..42].copy_from_slice(&0x0045u16.to_le_bytes());
    sector[42] = 6;
    sector[43] = 7;
    sector[44..48].copy_from_slice(&2u32.to_le_bytes());
    sector[48..50].copy_from_slice(&1u16.to_le_bytes());
    sector[50..52].copy_from_slice(&6u16.to_le_bytes());
    sector[64] = 0x80;
    sector[65] = 0x01;
    sector[66] = 0x29;
    sector[67..71].copy_from_slice(&0xCAFE_F00Du32.to_le_bytes());
    sector[71..82].copy_from_slice(b"NO NAME    ");
    sector[82..90].copy_from_slice(b"FAT32   ");
    let ebr = ExtendedBootRecord::parse(&sector);
    assert_eq!(ebr.sectors_per_fat, 0x123);
    assert_eq!(ebr.flags, 0x45);
    assert_eq!((ebr.fat_version_major, ebr.fat_version_minor), (6, 7));
    assert_eq!(ebr.cluster_num_root_dir, 2);
    assert_eq!(ebr.fsinfo_sector_num, 1);
    assert_eq!(ebr.backup_sector_num, 6);
    assert_eq!(ebr.drive_num, 0x80);
    assert_eq!(ebr.flags_windows_nt, 1);
    assert_eq!(ebr.signature, 0x29);
    assert_eq!(ebr.volume_id_serial_num, 0xCAFE_F00D);
    assert_eq!(&ebr.volume_label_string, b"NO NAME    ");
    assert_eq!(&ebr.system_identifier, b"FAT32   ");
    assert!(ebr.has_valid_signature());
    assert!(ebr.is_fat32());
    sector[66] = 0x28;
    assert!(ExtendedBootRecord::parse(&sector).has_valid_signature());
    sector[66] = 0x2A;
    assert!(!ExtendedBootRecord::parse(&sector).has_valid_signature());
    sector[89] = b'!';
    assert!(!ExtendedBootRecord::parse(&sector).is_fat32());
}

#[test]
fn fsinfo_fields() {
    let mut sector = vec![0u8; 512];
    sector[0..4].copy_from_slice(&0x41615252u32.to_le_bytes());
    sector[484..488].copy_from_slice(&0x61417272u32.to_le_bytes());
    sector[488..492].copy_from_slice(&100u32.to_le_bytes());
    sector[492..496].copy_from_slice(&3u32.to_le_bytes());
    let info = FSInfoMain::parse(&sector);
    assert_eq!(info.signature_1, 0x41615252);
    assert_eq!(info.signature_2, 0x61417272);
    assert_eq!(info.last_free_cluster, 100);
    assert_eq!(info.start_cluster, 3);
    assert!(info.is_valid());
    sector[0] = 0;
    assert!(!FSInfoMain::parse(&sector).is_valid());
}
