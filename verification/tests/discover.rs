use mhrise_save_converter::discover::{
    checksum_text, describe_core_file, is_core_filename, save_file_kind, SaveFileKind,
};
use mhrise_save_converter::format::{ChecksumStatus, Platform};

#[test]
fn finds_core_files_but_ignores_album_files() {
    assert!(is_core_filename("data00-1.bin"));
    assert!(is_core_filename("data001Slot.bin"));
    assert!(is_core_filename("data003Slot.bin"));
    assert!(!is_core_filename("SS1_data001Slot.bin"));
    assert!(!is_core_filename("data01Slot.bin"));
    assert!(!is_core_filename("data001Slot.dat"));
}

#[test]
fn rejects_core_names_with_non_digit_slots() {
    assert!(!is_core_filename("dataa01Slot.bin"));
    assert!(!is_core_filename("data0001Slot.bin"));
    assert!(!is_core_filename("data00-2.bin"));
    assert!(!is_core_filename(""));
}

#[test]
fn classifies_album_files() {
    assert_eq!(save_file_kind("data002Slot.bin"), Some(SaveFileKind::Core));
    assert_eq!(save_file_kind("SS1_data001Slot.bin"), Some(SaveFileKind::Auxiliary));
    assert_eq!(save_file_kind("SS4_album.bin"), Some(SaveFileKind::Auxiliary));
    assert_eq!(save_file_kind("SS7_x"), Some(SaveFileKind::Auxiliary));
    assert_eq!(save_file_kind("SS2_album.bin"), None);
    assert_eq!(save_file_kind("notes.txt"), None);
}

#[test]
fn describes_a_core_file() {
    let mut data = b"DSSS".to_vec();
    data.extend_from_slice(&2u32.to_le_bytes());
    data.extend_from_slice(&4u32.to_le_bytes());
    let hash = murmur3::murmur3_32(&mut std::io::Cursor::new(&data), 0xffff_ffff).unwrap();
    data.extend_from_slice(&hash.to_le_bytes());
    let file = describe_core_file(std::path::PathBuf::from("data001Slot.bin"), &data)
        .expect("core file should be described");
    assert_eq!(file.platform, Platform::Steam);
    assert_eq!(file.checksum, "valid");
    assert_eq!(
        checksum_text(ChecksumStatus::Invalid { stored: 0x1234, calculated: 0xabcdef01 }),
        "invalid (stored=00001234, calculated=abcdef01)"
    );
}
