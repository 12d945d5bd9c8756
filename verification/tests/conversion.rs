use mhrise_save_converter::conversion::{
    align_up, convert_auxiliary_bytes, convert_bytes, convert_bytes_with_cipher,
    convert_bytes_with_template, finish_file, pack_payload, pack_payload_with_cipher,
    preflight_report, translate_payload, unpack_deflate, unpack_payload,
    unpack_payload_with_cipher, CipherBytes, CitrusCipher, ConversionError, ConversionOptions,
    ConversionRequest, PreflightSeverity, SaveFile, TargetPlatform,
};
use mhrise_save_converter::discover::SaveFileKind;
use mhrise_save_converter::format::{
    checksum_status, parse_header, ChecksumStatus, Platform, SaveFlags, DSSS_HEADER_LEN,
    FILE_HASH_LEN,
};
use mhrise_save_converter::payload::{Class, Field, FieldValue, NativeClass, SavePayload};
use mhrise_save_converter::payload_model::PayloadError;

const TEST_STEAM_ID: u64 = 76_561_198_382_766_028;

/// A stand-in for the Citrus cipher: a keyed XOR that round-trips.
struct XorCitrus;

impl XorCitrus {
    fn key(steamid64: u64, curve: usize, index: usize) -> u8 {
        (steamid64 as u8) ^ (curve as u8) ^ (index as u8).wrapping_mul(31)
    }
}

impl CitrusCipher for XorCitrus {
    fn decrypt_spec(
        &self,
        _steamid64: u64,
        _curve_index: Option<usize>,
        _encrypted: CipherBytes,
        _decrypted_len: usize,
    ) -> Option<CipherBytes> {
        unreachable!()
    }

    fn encrypt_spec(
        &self,
        _steamid64: u64,
        _curve_index: usize,
        _payload: CipherBytes,
    ) -> Option<CipherBytes> {
        unreachable!()
    }

    fn decrypt(
        &self,
        steamid64: u64,
        curve_index: Option<usize>,
        encrypted: &[u8],
        decrypted_len: usize,
    ) -> Option<Vec<u8>> {
        let curve = curve_index?;
        if encrypted.len() < decrypted_len {
            return None;
        }
        Some(
            encrypted[..decrypted_len]
                .iter()
                .enumerate()
                .map(|(i, b)| b ^ Self::key(steamid64, curve, i))
                .collect(),
        )
    }

    fn encrypt(&self, steamid64: u64, curve_index: usize, payload: &[u8]) -> Option<Vec<u8>> {
        let mut out: Vec<u8> = payload
            .iter()
            .enumerate()
            .map(|(i, b)| b ^ Self::key(steamid64, curve_index, i))
            .collect();
        out.resize(out.len().div_ceil(16) * 16, 0);
        Some(out)
    }
}

fn switch_options() -> ConversionOptions {
    ConversionOptions {
        target: TargetPlatform::NintendoSwitch,
        source_steamid64: None,
        target_steamid64: None,
        source_curve_index: None,
        target_curve_index: None,
        target_reference: None,
        force: false,
    }
}

#[test]
fn platform_containers_roundtrip_preserve_payload() {
    let payload = b"MHRise save payload used for a conversion round trip";
    let switch = pack_payload(payload, TargetPlatform::NintendoSwitch, None, None)
        .expect("Switch packing should succeed");
    let steam = pack_payload_with_cipher(
        payload,
        TargetPlatform::Steam,
        Some(TEST_STEAM_ID),
        Some(0),
        &XorCitrus,
    )
    .expect("Steam packing should succeed");

    assert_eq!(unpack_deflate(&switch).expect("Switch payload should deflate"), payload);
    let steam_header = parse_header(&steam).expect("Steam header should parse");
    assert_eq!(
        unpack_payload_with_cipher(&steam, steam_header, Some(TEST_STEAM_ID), Some(0), &XorCitrus)
            .expect("Steam payload should decrypt"),
        payload
    );
    assert!(matches!(checksum_status(&switch), Ok(ChecksumStatus::Valid)));
    assert!(matches!(checksum_status(&steam), Ok(ChecksumStatus::Valid)));
}

#[test]
fn conversion_rejects_invalid_outer_checksum() {
    let mut switch = pack_payload(b"payload", TargetPlatform::NintendoSwitch, None, None)
        .expect("Switch packing should succeed");
    switch[20] ^= 0xff;

    let error = convert_bytes(
        &switch,
        ConversionOptions {
            target: TargetPlatform::NintendoSwitch,
            source_steamid64: None,
            target_steamid64: None,
            source_curve_index: None,
            target_curve_index: None,
            target_reference: None,
            force: false,
        },
    )
    .expect_err("invalid source checksum should be rejected");

    assert!(error.message().contains("invalid checksum"));
}

#[test]
fn auxiliary_wrapper_roundtrip_realigns_class_stream() {
    let payload = SavePayload {
        entries: vec![NativeClass {
            native_hash: 0x470b_c310,
            class: Class {
                hash: 0x6ca3_b0ec,
                fields: vec![Field {
                    hash: 0x77ea_ad8a,
                    field_type: 8,
                    value: FieldValue::Scalar {
                        size: 8,
                        bytes: 0x1122_3344_5566_7788u64.to_le_bytes().to_vec(),
                    },
                }],
            },
        }],
    };
    let mut switch = Vec::from(&b"DSSS"[..]);
    switch.extend_from_slice(&2u32.to_le_bytes());
    switch.extend_from_slice(&SaveFlags::empty().bits().to_le_bytes());
    switch.extend_from_slice(
        &payload.encode_at_offset(DSSS_HEADER_LEN).expect("Switch auxiliary payload should encode"),
    );
    let switch = finish_file(switch).expect("Switch auxiliary fixture should be valid");
    let steam_id = 76_561_198_382_766_028u64;

    let steam = convert_auxiliary_bytes(&switch, TargetPlatform::Steam, Some(steam_id))
        .expect("Switch auxiliary conversion should succeed");
    assert_eq!(&steam[8..12], &SaveFlags::has_id().bits().to_le_bytes());
    assert_eq!(&steam[16..24], &(steam_id & u32::MAX as u64).to_le_bytes());
    assert_eq!(
        SavePayload::parse_at_offset(&steam[24..steam.len() - FILE_HASH_LEN], 24)
            .expect("Steam auxiliary payload should parse"),
        payload
    );

    let roundtrip = convert_auxiliary_bytes(&steam, TargetPlatform::NintendoSwitch, None)
        .expect("Steam auxiliary conversion should succeed");
    assert_eq!(roundtrip, switch);
}

#[test]
fn cross_platform_conversion_uses_target_template_schema() {
    let source_payload = SavePayload {
        entries: vec![NativeClass {
            native_hash: 1,
            class: Class {
                hash: 10,
                fields: vec![Field {
                    hash: 100,
                    field_type: 8,
                    value: FieldValue::Scalar { size: 4, bytes: 7u32.to_le_bytes().to_vec() },
                }],
            },
        }],
    }
    .encode_at_offset(DSSS_HEADER_LEN)
    .expect("source payload should encode");
    let target_payload = SavePayload {
        entries: vec![NativeClass {
            native_hash: 1,
            class: Class {
                hash: 10,
                fields: vec![
                    Field {
                        hash: 100,
                        field_type: 8,
                        value: FieldValue::Scalar { size: 4, bytes: 9u32.to_le_bytes().to_vec() },
                    },
                    Field {
                        hash: 101,
                        field_type: 8,
                        value: FieldValue::Scalar { size: 4, bytes: 11u32.to_le_bytes().to_vec() },
                    },
                ],
            },
        }],
    }
    .encode_at_offset(align_up(DSSS_HEADER_LEN, 16))
    .expect("target payload should encode");
    let source = pack_payload(&source_payload, TargetPlatform::NintendoSwitch, None, None)
        .expect("Switch source should pack");
    let target = pack_payload_with_cipher(
        &target_payload,
        TargetPlatform::Steam,
        Some(TEST_STEAM_ID),
        Some(0),
        &XorCitrus,
    )
    .expect("Steam template should pack");

    let converted = convert_bytes_with_cipher(
        &source,
        Some(&target),
        ConversionOptions {
            target: TargetPlatform::Steam,
            source_steamid64: None,
            target_steamid64: Some(TEST_STEAM_ID),
            source_curve_index: None,
            target_curve_index: Some(0),
            target_reference: None,
            force: false,
        },
        &XorCitrus,
    )
    .expect("template conversion should succeed");
    let converted_header = parse_header(&converted).expect("converted header should parse");
    let converted_payload = unpack_payload_with_cipher(
        &converted,
        converted_header,
        Some(TEST_STEAM_ID),
        Some(0),
        &XorCitrus,
    )
    .expect("converted payload should decrypt");
    let converted_payload =
        SavePayload::parse(&converted_payload).expect("converted payload should parse");

    assert_eq!(converted_payload.entries[0].class.fields.len(), 2);
    assert_eq!(
        converted_payload.entries[0].class.fields[0].value,
        FieldValue::Scalar { size: 4, bytes: 7u32.to_le_bytes().to_vec() }
    );
    assert_eq!(
        converted_payload.entries[0].class.fields[1].value,
        FieldValue::Scalar { size: 4, bytes: 11u32.to_le_bytes().to_vec() }
    );
}

#[test]
fn switch_resign_keeps_the_payload() {
    let payload = b"same-platform payload";
    let switch = pack_payload(payload, TargetPlatform::NintendoSwitch, None, None).unwrap();
    let converted = convert_bytes(&switch, switch_options()).expect("Switch resign should succeed");
    assert_eq!(unpack_deflate(&converted).unwrap(), payload);
    assert!(matches!(checksum_status(&converted), Ok(ChecksumStatus::Valid)));
    assert_eq!(&converted[0..4], b"DSSS");
    assert_eq!(&converted[8..12], &8u32.to_le_bytes());
}

#[test]
fn switch_container_layout() {
    let payload = b"abc";
    let switch = pack_payload(payload, TargetPlatform::NintendoSwitch, None, None).unwrap();
    let compressed_len = u32::from_le_bytes(switch[28..32].try_into().unwrap()) as usize;
    assert_eq!(u64::from_le_bytes(switch[16..24].try_into().unwrap()), compressed_len as u64 + 0x10);
    assert_eq!(u32::from_le_bytes(switch[24..28].try_into().unwrap()), 1);
    assert_eq!(u64::from_le_bytes(switch[32..40].try_into().unwrap()), 3);
    assert_eq!(switch.len() % 4, 0);
    assert_eq!(switch.len(), (40 + compressed_len).div_ceil(4) * 4 + 4);
}

#[test]
fn conversion_errors_name_their_cause() {
    assert!(matches!(
        convert_bytes(b"short", switch_options()),
        Err(ConversionError::InvalidSourceHeader(_))
    ));
    assert!(matches!(
        pack_payload(b"x", TargetPlatform::Steam, None, Some(1)),
        Err(ConversionError::MissingTargetSteamId)
    ));
    assert!(matches!(
        pack_payload(b"x", TargetPlatform::Steam, Some(1), None),
        Err(ConversionError::MissingTargetCurveIndex)
    ));
    let mut options = switch_options();
    options.target = TargetPlatform::Steam;
    options.target_steamid64 = Some(TEST_STEAM_ID);
    options.target_curve_index = Some(3);
    let switch = pack_payload(b"not a class stream!", TargetPlatform::NintendoSwitch, None, None)
        .unwrap();
    assert!(convert_bytes_with_template(&switch, None, options).is_err());
    assert!(matches!(
        translate_payload(&[], Platform::Steam, None, Platform::NintendoSwitch),
        Err(ConversionError::SwitchNeedsTemplate)
    ));
    let header = parse_header(&switch).unwrap();
    assert!(unpack_payload(&switch, header, None, None).is_ok());
}

#[test]
fn switch_to_steam_without_template_uses_built_in_schema() {
    let source_payload = SavePayload {
        entries: vec![
            NativeClass { native_hash: 0xd6f4_726d, class: Class { hash: 1, fields: vec![] } },
        ],
    }
    .encode_at_offset(DSSS_HEADER_LEN)
    .unwrap();
    let source = pack_payload(&source_payload, TargetPlatform::NintendoSwitch, None, None).unwrap();
    let mut options = switch_options();
    options.target = TargetPlatform::Steam;
    options.target_steamid64 = Some(TEST_STEAM_ID);
    options.target_curve_index = Some(5);
    let converted = convert_bytes_with_cipher(&source, None, options, &XorCitrus)
        .expect("built-in schema conversion should succeed");
    let header = parse_header(&converted).unwrap();
    assert_eq!(header.platform(), Platform::Steam);
    let payload =
        unpack_payload_with_cipher(&converted, header, Some(TEST_STEAM_ID), Some(5), &XorCitrus)
            .unwrap();
    let parsed = SavePayload::parse_at_offset(&payload, 16).unwrap();
    let hashes = parsed.entries.iter().map(|e| e.native_hash).collect::<Vec<_>>();
    assert_eq!(hashes, vec![0xd6f4_726d, 0xbb43_1b76, 0x5a04_dbf9]);
}

#[test]
fn auxiliary_conversion_refuses_unknown_flags() {
    let mut data = Vec::from(&b"DSSS"[..]);
    data.extend_from_slice(&2u32.to_le_bytes());
    data.extend_from_slice(&0x20u32.to_le_bytes());
    let data = finish_file(data).unwrap();
    assert!(matches!(
        convert_auxiliary_bytes(&data, TargetPlatform::NintendoSwitch, None),
        Err(ConversionError::UnsupportedAuxiliaryFlags(0x20))
    ));
    let mut empty = Vec::from(&b"DSSS"[..]);
    empty.extend_from_slice(&2u32.to_le_bytes());
    empty.extend_from_slice(&0u32.to_le_bytes());
    let empty = finish_file(empty).unwrap();
    assert!(matches!(
        convert_auxiliary_bytes(&empty, TargetPlatform::Steam, None),
        Err(ConversionError::MissingTargetSteamId)
    ));
}

#[test]
fn preflight_lists_issues_in_order() {
    let files = vec![
        SaveFile {
            path: std::path::PathBuf::from("data001Slot.bin"),
            kind: SaveFileKind::Core,
            platform: Platform::Steam,
            checksum: "valid".to_owned(),
        },
        SaveFile {
            path: std::path::PathBuf::from("SS1_data001Slot.bin"),
            kind: SaveFileKind::Auxiliary,
            platform: Platform::Auxiliary,
            checksum: "invalid (stored=00000000, calculated=00000001)".to_owned(),
        },
    ];
    let request = ConversionRequest {
        target: TargetPlatform::NintendoSwitch,
        source_steamid64: None,
        target_steamid64: None,
        source_curve_index: None,
        target_curve_index: None,
        target_reference: None,
        force: false,
    };
    let report = preflight_report(&files, false, true, &request, false);
    assert_eq!(report.source_platform, Some(Platform::Steam));
    assert_eq!(report.file_count, 2);
    assert_eq!(report.core_file_count, 1);
    assert_eq!(report.auxiliary_file_count, 1);
    assert!(!report.target_reference_available);
    assert_eq!(
        report.errors(),
        vec![
            "one or more save files have an invalid outer checksum".to_owned(),
            "output directory is not empty; enable overwrite explicitly".to_owned(),
            "Steam source requires a SteamID64".to_owned(),
            "Steam-to-Switch conversion requires a Switch target template".to_owned(),
        ]
    );
    assert!(report.warnings().is_empty());
    assert!(!report.can_convert());
    assert_eq!(report.issues[0].severity, PreflightSeverity::Error);

    let steam_request = ConversionRequest {
        target: TargetPlatform::Steam,
        source_steamid64: None,
        target_steamid64: Some(TEST_STEAM_ID),
        source_curve_index: None,
        target_curve_index: Some(4),
        target_reference: None,
        force: true,
    };
    let clean = vec![SaveFile {
        path: std::path::PathBuf::from("data00-1.bin"),
        kind: SaveFileKind::Core,
        platform: Platform::NintendoSwitch,
        checksum: "valid".to_owned(),
    }];
    let report = preflight_report(&clean, false, true, &steam_request, false);
    assert!(report.can_convert());
    assert_eq!(
        report.warnings(),
        vec!["no Steam template selected; built-in Steam defaults will be used".to_owned()]
    );
}

#[test]
fn deflate_compresses_repetitive_payloads() {
    let payload = vec![0u8; 4096];
    let switch = pack_payload(&payload, TargetPlatform::NintendoSwitch, None, None).unwrap();
    let compressed_len = u32::from_le_bytes(switch[28..32].try_into().unwrap()) as usize;
    assert!(compressed_len < 100);
    assert_eq!(unpack_deflate(&switch).unwrap(), payload);
}

#[test]
fn unpacks_a_known_deflate_stream() {
    let compressed = [0x4b, 0x4c, 0x4a, 0x06, 0x00];
    let mut switch = Vec::from(&b"DSSS"[..]);
    switch.extend_from_slice(&2u32.to_le_bytes());
    switch.extend_from_slice(&8u32.to_le_bytes());
    switch.extend_from_slice(&[0; 4]);
    switch.extend_from_slice(&(compressed.len() as u64 + 0x10).to_le_bytes());
    switch.extend_from_slice(&1u32.to_le_bytes());
    switch.extend_from_slice(&(compressed.len() as u32).to_le_bytes());
    switch.extend_from_slice(&3u64.to_le_bytes());
    switch.extend_from_slice(&compressed);
    let switch = finish_file(switch).unwrap();
    assert_eq!(unpack_deflate(&switch).unwrap(), b"abc");

    let mut wrong_size = switch.clone();
    wrong_size[32] = 4;
    assert!(matches!(
        unpack_deflate(&wrong_size),
        Err(ConversionError::DeflateSizeMismatch { expected: 4, actual: 3 })
    ));
    let mut garbage = switch.clone();
    garbage[40] = 0xff;
    garbage[41] = 0xff;
    assert!(unpack_deflate(&garbage).is_err());
    assert!(matches!(unpack_deflate(&switch[..40]), Err(ConversionError::MissingDeflateMetadata)));
}

#[test]
fn steam_to_steam_conversion_moves_the_payload_to_the_target_account() {
    let payload = b"payload kept across Steam accounts";
    let source = pack_payload_with_cipher(
        payload,
        TargetPlatform::Steam,
        Some(TEST_STEAM_ID),
        Some(1),
        &XorCitrus,
    )
    .expect("Steam packing should succeed");
    let options = ConversionOptions {
        target: TargetPlatform::Steam,
        source_steamid64: Some(TEST_STEAM_ID),
        target_steamid64: Some(TEST_STEAM_ID + 7),
        source_curve_index: Some(1),
        target_curve_index: Some(2),
        target_reference: None,
        force: false,
    };
    let converted = convert_bytes_with_cipher(&source, None, options, &XorCitrus)
        .expect("Steam to Steam conversion should succeed");
    assert_eq!(&converted[0..4], b"DSSS");
    assert_eq!(&converted[4..8], &2u32.to_le_bytes());
    assert_eq!(&converted[8..12], &4u32.to_le_bytes());
    assert_eq!(converted.len() % 4, 0);
    assert!(matches!(checksum_status(&converted), Ok(ChecksumStatus::Valid)));
    let header = parse_header(&converted).expect("converted header should parse");
    assert_eq!(
        unpack_payload_with_cipher(&converted, header, Some(TEST_STEAM_ID + 7), Some(2), &XorCitrus)
            .expect("converted payload should decrypt"),
        payload
    );
}

#[test]
fn steam_conversion_needs_both_target_keys() {
    let payload = b"payload";
    let source = pack_payload_with_cipher(payload, TargetPlatform::Steam, Some(TEST_STEAM_ID), Some(0), &XorCitrus)
        .expect("Steam packing should succeed");
    let options = |target_steamid64: Option<u64>, target_curve_index: Option<usize>| ConversionOptions {
        target: TargetPlatform::Steam,
        source_steamid64: Some(TEST_STEAM_ID),
        target_steamid64,
        source_curve_index: Some(0),
        target_curve_index,
        target_reference: None,
        force: false,
    };
    let missing_id = convert_bytes_with_cipher(&source, None, options(None, Some(0)), &XorCitrus)
        .expect_err("a Steam target needs its SteamID64");
    assert_eq!(missing_id.message(), "cannot pack Steam as target format");
    assert_eq!(
        missing_id.full_message(),
        "cannot pack Steam as target format: Steam target requires --target-steamid64"
    );
    match missing_id {
        ConversionError::PackFailed { source_platform, cause } => {
            assert_eq!(source_platform, Platform::Steam);
            assert!(matches!(*cause, ConversionError::MissingTargetSteamId));
        },
        other => panic!("unexpected error {other:?}"),
    }
    let missing_curve =
        convert_bytes_with_cipher(&source, None, options(Some(TEST_STEAM_ID), None), &XorCitrus)
            .expect_err("a Steam target needs its Curve Index");
    match missing_curve {
        ConversionError::PackFailed { cause, .. } => {
            assert!(matches!(*cause, ConversionError::MissingTargetCurveIndex));
        },
        other => panic!("unexpected error {other:?}"),
    }
}

#[test]
fn conversion_errors_carry_their_values_and_causes() {
    assert_eq!(
        ConversionError::UnsupportedAuxiliaryFlags(0x20).message(),
        "unsupported auxiliary DSSS flags 0x00000020"
    );
    assert_eq!(
        ConversionError::DeflateSizeMismatch { expected: 4, actual: 3 }.message(),
        "Switch DEFLATE size mismatch: expected 4, got 3"
    );
    assert_eq!(
        ConversionError::UnsupportedCoreFormat(Platform::Auxiliary).message(),
        "Auxiliary is not a supported core save format"
    );
    assert_eq!(
        ConversionError::TemplatePlatformMismatch {
            template: Platform::NintendoSwitch,
            requested: Platform::Steam,
        }
        .message(),
        "target template is Nintendo Switch, but requested output is Steam"
    );
    assert_eq!(
        ConversionError::InvalidSourceClassStream(PayloadError::ImpossibleFieldCount {
            class_hash: 0xab,
            field_count: 9,
        })
        .full_message(),
        "invalid source class stream: class 000000ab declares an impossible field count of 9"
    );
    assert_eq!(
        ConversionError::EncodeFailed(PayloadError::UnsupportedArrayType(-3)).full_message(),
        "could not encode translated class stream: unsupported array type -3"
    );
    assert_eq!(ConversionError::InvalidChecksum.full_message(), ConversionError::InvalidChecksum.message());
}
