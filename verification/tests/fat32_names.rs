use kernel_core::fat32::entry::DirectoryEntry;
use kernel_core::fat32::error::FsError;
use kernel_core::fat32::short_name::{bytes_equal, find_byte, split_name, trimmed_width};

fn entry_named(name: &[u8; 8], ext: &[u8; 3]) -> DirectoryEntry {
    DirectoryEntry::fresh(*name, *ext, 0x03, 5)
}

/// Reads the two stored fields back as text, as the directory scan sees
/// them, and renders them as a name.
fn rendered(name: &[u8; 8], ext: &[u8; 3]) -> String {
    let base: String = name[..trimmed_width(name)].iter().map(|b| *b as char).collect();
    let ext: String = ext[..trimmed_width(ext)].iter().map(|b| *b as char).collect();
    if ext.is_empty() {
        base
    } else {
        format!("{}.{}", base, ext)
    }
}

#[test]
fn parse_pads_both_fields() {
    let (name, ext) = DirectoryEntry::parse_filename("A.TXT").unwrap();
    assert_eq!(&name, b"A       ");
    assert_eq!(&ext, b"TXT");
}

#[test]
fn parse_without_extension_leaves_it_blank() {
    let (name, ext) = DirectoryEntry::parse_filename("KERNEL").unwrap();
    assert_eq!(&name, b"KERNEL  ");
    assert_eq!(&ext, b"   ");
}

#[test]
fn parse_takes_full_width_fields() {
    let (name, ext) = DirectoryEntry::parse_filename("ABCDEFGH.XYZ").unwrap();
    assert_eq!(&name, b"ABCDEFGH");
    assert_eq!(&ext, b"XYZ");
}

#[test]
fn parse_of_the_empty_name_is_blank() {
    let (name, ext) = DirectoryEntry::parse_filename("").unwrap();
    assert_eq!(&name, b"        ");
    assert_eq!(&ext, b"   ");
}

#[test]
fn parse_rejects_a_long_extension() {
    assert_eq!(DirectoryEntry::parse_filename("A.TEXT"), Err(FsError::NameTooLong));
}

#[test]
fn parse_rejects_a_base_of_nine_bytes() {
    assert_eq!(DirectoryEntry::parse_filename("ABCDEFGHI"), Err(FsError::NameTooLong));
}

#[test]
fn parse_rejects_three_parts() {
    assert_eq!(DirectoryEntry::parse_filename("A.B.C"), Err(FsError::InvalidName));
}

#[test]
fn parse_reports_the_length_before_the_parts() {
    assert_eq!(DirectoryEntry::parse_filename("TOOLONGNAME.B.C"), Err(FsError::NameTooLong));
    assert_eq!(DirectoryEntry::parse_filename("A.LONG.C"), Err(FsError::NameTooLong));
}

#[test]
fn parse_counts_bytes_not_characters() {
    // four characters of two bytes each fill the name field
    let (name, _) = DirectoryEntry::parse_filename("éééé").unwrap();
    assert_eq!(name, [0xC3, 0xA9, 0xC3, 0xA9, 0xC3, 0xA9, 0xC3, 0xA9]);
    assert_eq!(DirectoryEntry::parse_filename("ééééé"), Err(FsError::NameTooLong));
}

#[test]
fn round_trip_of_valid_names() {
    for original in ["A.TXT", "KERNEL", "ABCDEFGH.XYZ", "B0.TX", "X", ".TXT", "README.MD", "A B.C"] {
        let (name, ext) = DirectoryEntry::parse_filename(original).unwrap();
        assert_eq!(rendered(&name, &ext), original);
        assert_eq!(entry_named(&name, &ext).compare_filename(original), Ok(true));
    }
}

#[test]
fn compare_matches_name_and_extension() {
    let entry = entry_named(b"FOO     ", b"TXT");
    assert_eq!(entry.compare_filename("FOO.TXT"), Ok(true));
    assert_eq!(entry.compare_filename("FOO.TX"), Ok(false));
    assert_eq!(entry.compare_filename("FO.TXT"), Ok(false));
    assert_eq!(entry.compare_filename("FOOO.TXT"), Ok(false));
    assert_eq!(entry.compare_filename("foo.txt"), Ok(false));
}

#[test]
fn compare_without_extension_needs_an_empty_extension() {
    assert_eq!(entry_named(b"FOO     ", b"TXT").compare_filename("FOO"), Ok(false));
    assert_eq!(entry_named(b"FOO     ", b"   ").compare_filename("FOO"), Ok(true));
    assert_eq!(entry_named(b"FOO     ", b"   ").compare_filename("FOO."), Ok(true));
    assert_eq!(entry_named(b"FOO     ", b"   ").compare_filename("FOO.TXT"), Ok(false));
}

#[test]
fn compare_rejects_three_parts() {
    let entry = entry_named(b"FOO     ", b"TXT");
    assert_eq!(entry.compare_filename("FOO.TXT.BAK"), Err(FsError::InvalidName));
    assert_eq!(entry.compare_filename("X.Y.Z"), Err(FsError::InvalidName));
    assert_eq!(entry.matches_name(b"a.b.c"), Err(FsError::InvalidName));
}

#[test]
fn compare_trims_the_spaces_at_the_end_only() {
    let entry = entry_named(b"A B     ", b"T T");
    assert_eq!(entry.compare_filename("A B.T T"), Ok(true));
    assert_eq!(entry.compare_filename("AB.TT"), Ok(false));
    assert_eq!(entry.compare_filename("A B .T T"), Ok(false));
    let led = entry_named(b" AB     ", b" T ");
    assert_eq!(led.compare_filename(" AB. T"), Ok(true));
    assert_eq!(led.compare_filename("AB.T"), Ok(false));
    let blank = entry_named(b"        ", b"   ");
    assert_eq!(blank.compare_filename(""), Ok(true));
    assert_eq!(blank.compare_filename(" "), Ok(false));
}

#[test]
fn trimmed_width_counts_up_to_the_last_other_byte() {
    assert_eq!(trimmed_width(b"FOO     "), 3);
    assert_eq!(trimmed_width(b"F O     "), 3);
    assert_eq!(trimmed_width(b"        "), 0);
    assert_eq!(trimmed_width(b"ABCDEFGH"), 8);
    assert_eq!(trimmed_width(b"  X"), 3);
    assert_eq!(trimmed_width(b""), 0);
}

#[test]
fn round_trip_of_a_name_with_a_space_inside() {
    let (name, ext) = DirectoryEntry::parse_filename("MY DOC.T X").unwrap();
    assert_eq!((&name, &ext), (b"MY DOC  ", b"T X"));
    assert_eq!(entry_named(&name, &ext).compare_filename("MY DOC.T X"), Ok(true));
    assert_eq!(rendered(&name, &ext), "MY DOC.T X");
}

#[test]
fn compare_keeps_what_fits_the_buffer() {
    // each stored byte above 0x7F stands for a character of two bytes: four of
    // them fill the name buffer, and one the extension buffer
    let entry = entry_named(&[0xE9; 8], &[0xE9, 0x41, 0x42]);
    assert_eq!(entry.compare_filename("éééé.éA"), Ok(true));
    assert_eq!(entry.compare_filename("éééééééé.éAB"), Ok(false));
    assert_eq!(entry.compare_filename("éééé.éAB"), Ok(false));
    let late = entry_named(b"ABCDEFG\xE9", b"AB\xE9");
    assert_eq!(late.compare_filename("ABCDEFG.AB"), Ok(true));
}

#[test]
fn split_name_finds_the_parts() {
    let parts = split_name(b"FOO.TXT");
    assert_eq!((parts.base_end, parts.ext_start, parts.ext_end, parts.more), (3, 4, 7, false));
    let parts = split_name(b"FOO");
    assert_eq!((parts.base_end, parts.ext_start, parts.ext_end, parts.more), (3, 3, 3, false));
    let parts = split_name(b"A.B.C");
    assert_eq!((parts.base_end, parts.ext_start, parts.ext_end, parts.more), (1, 2, 3, true));
    let parts = split_name(b"A.");
    assert_eq!((parts.base_end, parts.ext_start, parts.ext_end, parts.more), (1, 2, 2, false));
}

#[test]
fn find_byte_gives_the_first_place() {
    assert_eq!(find_byte(b"ab/cd/e", 0, b'/'), 2);
    assert_eq!(find_byte(b"ab/cd/e", 3, b'/'), 5);
    assert_eq!(find_byte(b"ab/cd/e", 6, b'/'), 7);
    assert_eq!(find_byte(b"", 0, b'/'), 0);
}

#[test]
fn bytes_equal_compares_length_and_bytes() {
    assert!(bytes_equal(b"abc", b"abc"));
    assert!(!bytes_equal(b"abc", b"abd"));
    assert!(!bytes_equal(b"abc", b"ab"));
    assert!(bytes_equal(b"", b""));
}
