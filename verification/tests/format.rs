use mhrise_save_converter::format::{
    checksum_status, parse_header, ChecksumStatus, DsssHeader, FormatError, Platform, SaveFlags,
};

#[test]
fn identifies_platform_from_flags() {
    let switch = DsssHeader {
        version: 2,
        flags: SaveFlags::deflate(),
        raw_flags: SaveFlags::deflate().bits(),
    };
    let steam = DsssHeader {
        version: 2,
        flags: SaveFlags::citrus(),
        raw_flags: SaveFlags::citrus().bits(),
    };
    assert_eq!(switch.platform(), Platform::NintendoSwitch);
    assert_eq!(steam.platform(), Platform::Steam);
}

#[test]
fn rejects_non_dsss_data() {
    assert!(matches!(parse_header(b"not-a-save"), Err(FormatError::TooSmall)));
    assert!(matches!(
        parse_header(b"NOPE\x02\0\0\0\0\0\0\0\0\0\0\0\0\0\0\0"),
        Err(FormatError::InvalidMagic)
    ));
}

#[test]
fn platform_covers_both_and_neither_flag() {
    let both = DsssHeader {
        version: 2,
        flags: SaveFlags::from_bits_truncate(0x0c),
        raw_flags: 0x0c,
    };
    let neither = DsssHeader { version: 2, flags: SaveFlags::has_id(), raw_flags: 0x02 };
    assert_eq!(both.platform(), Platform::Unknown);
    assert_eq!(neither.platform(), Platform::Auxiliary);
    assert_eq!(Platform::NintendoSwitch.name(), "Nintendo Switch");
    assert_eq!(Platform::Steam.name(), "Steam");
}

#[test]
fn parses_version_and_truncates_unknown_flags() {
    let mut data = b"DSSS".to_vec();
    data.extend_from_slice(&2u32.to_le_bytes());
    data.extend_from_slice(&0xff08u32.to_le_bytes());
    data.extend_from_slice(&[0; 4]);
    let header = parse_header(&data).expect("header should parse");
    assert_eq!(header.version, 2);
    assert_eq!(header.raw_flags, 0xff08);
    assert_eq!(header.flags.bits(), 0x08);
    assert!(header.flags.contains(SaveFlags::deflate()));
    assert!(!header.flags.contains(SaveFlags::citrus()));
    assert_eq!(header.platform(), Platform::NintendoSwitch);

    data[4] = 3;
    assert!(matches!(parse_header(&data), Err(FormatError::UnsupportedVersion(3))));
}

#[test]
fn checksum_compares_the_closing_hash() {
    let mut data = b"DSSS".to_vec();
    data.extend_from_slice(&2u32.to_le_bytes());
    data.extend_from_slice(&0u32.to_le_bytes());
    let hash = murmur3::murmur3_32(&mut std::io::Cursor::new(&data), 0xffff_ffff).unwrap();
    data.extend_from_slice(&hash.to_le_bytes());
    assert_eq!(checksum_status(&data).expect("checksum should compute"), ChecksumStatus::Valid);

    let last = data.len() - 1;
    data[last] ^= 0x01;
    match checksum_status(&data).expect("checksum should compute") {
        ChecksumStatus::Invalid { stored, calculated } => {
            assert_eq!(calculated, hash);
            assert_eq!(stored, hash ^ 0x0100_0000);
        }
        ChecksumStatus::Valid => panic!("a flipped hash byte must not verify"),
    }
    assert!(matches!(checksum_status(&data[..15]), Err(FormatError::TooSmall)));
}

#[test]
fn format_errors_have_messages() {
    assert_eq!(
        FormatError::TooSmall.message(),
        "file is too small to contain a DSSS header and checksum"
    );
    assert_eq!(FormatError::InvalidMagic.message(), "invalid DSSS magic");
    assert_eq!(FormatError::UnsupportedVersion(7).message(), "unsupported DSSS version 7");
}
