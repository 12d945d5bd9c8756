use mhrise_save_converter::payload::{Array, ArrayValue, Class, Field, FieldValue, NativeClass, SavePayload};
use mhrise_save_converter::payload_model::{
    PayloadError, ARRAY_TYPE_VALUE, FIELD_TYPE_ARRAY, FIELD_TYPE_STRING,
};

#[test]
fn parses_and_reencodes_nested_payload() {
    let payload = SavePayload {
        entries: vec![NativeClass {
            native_hash: 0x1122_3344,
            class: Class {
                hash: 0x5566_7788,
                fields: vec![
                    Field {
                        hash: 1,
                        field_type: 8,
                        value: FieldValue::Scalar { size: 4, bytes: 42u32.to_le_bytes().to_vec() },
                    },
                    Field {
                        hash: 2,
                        field_type: FIELD_TYPE_STRING,
                        value: FieldValue::String("Rise".encode_utf16().collect()),
                    },
                    Field {
                        hash: 3,
                        field_type: FIELD_TYPE_ARRAY,
                        value: FieldValue::Array(Array {
                            member_type: 4,
                            member_size: 1,
                            array_type: ARRAY_TYPE_VALUE,
                            class_hashes: None,
                            values: vec![ArrayValue::Scalar(vec![1]), ArrayValue::Scalar(vec![2])],
                        }),
                    },
                    Field {
                        hash: 4,
                        field_type: 0x10,
                        value: FieldValue::Scalar { size: 5, bytes: vec![1, 2, 3, 4, 5] },
                    },
                ],
            },
        }],
    };

    for offset in [0, 12, 16] {
        let encoded = payload.encode_at_offset(offset).expect("fixture should encode");
        assert_eq!(
            SavePayload::parse_at_offset(&encoded, offset).expect("fixture should parse"),
            payload
        );
    }
}

#[test]
fn encodes_a_scalar_entry_byte_for_byte() {
    let payload = SavePayload {
        entries: vec![NativeClass {
            native_hash: 0x0403_0201,
            class: Class {
                hash: 0x0807_0605,
                fields: vec![Field {
                    hash: 0x0c0b_0a09,
                    field_type: 8,
                    value: FieldValue::Scalar { size: 4, bytes: vec![0xaa, 0xbb, 0xcc, 0xdd] },
                }],
            },
        }],
    };
    let encoded = payload.encode().expect("scalar entry should encode");
    assert_eq!(encoded.len() >= 12, true);
    assert_eq!(&encoded[0..4], &[0x01, 0x02, 0x03, 0x04]);
    assert_eq!(SavePayload::parse(&encoded).expect("scalar entry should parse"), payload);
}

#[test]
fn rejects_a_truncated_stream() {
    let error = SavePayload::parse(&[1, 2, 3, 4, 5, 6, 7, 8, 9, 10, 11, 12, 13]).expect_err("truncated");
    assert!(matches!(error, PayloadError::UnexpectedEnd | PayloadError::ImpossibleFieldCount { .. }));
}

#[test]
fn an_empty_stream_has_no_entries() {
    let payload = SavePayload::parse(&[]).expect("empty stream should parse");
    assert!(payload.entries.is_empty());
    assert_eq!(SavePayload { entries: vec![] }.encode().expect("empty payload should encode"), Vec::<u8>::new());
}

#[test]
fn trailing_zero_padding_is_ignored() {
    let payload = SavePayload {
        entries: vec![NativeClass {
            native_hash: 0x0403_0201,
            class: Class {
                hash: 0x0807_0605,
                fields: vec![Field {
                    hash: 0x0c0b_0a09,
                    field_type: 8,
                    value: FieldValue::Scalar { size: 1, bytes: vec![0x7f] },
                }],
            },
        }],
    };
    let encoded = payload.encode_at_offset(12).expect("entry should encode");
    for padding in [0usize, 1, 3, 4, 11] {
        let mut padded = encoded.clone();
        padded.resize(encoded.len() + padding, 0);
        assert_eq!(SavePayload::parse_at_offset(&padded, 12).expect("padded stream should parse"), payload);
    }
    let mut too_long = encoded.clone();
    too_long.resize(encoded.len() + 12, 0);
    let reread = SavePayload::parse_at_offset(&too_long, 12).expect("twelve zero bytes read as an empty entry");
    assert_eq!(reread.entries.len(), 2);
}

#[test]
fn a_stream_whose_hashes_equal_the_array_marker_reads_back() {
    let payload = SavePayload {
        entries: vec![NativeClass {
            native_hash: 0xffee_ffee,
            class: Class {
                hash: 0xffee_ffee,
                fields: vec![Field {
                    hash: 0xffee_ffee,
                    field_type: 8,
                    value: FieldValue::Scalar { size: 4, bytes: vec![0xee, 0xff, 0xee, 0xff] },
                }],
            },
        }],
    };
    let encoded = payload.encode_at_offset(12).expect("entry should encode");
    let parsed = SavePayload::parse_at_offset(&encoded, 12).expect("entry should parse");
    assert_eq!(parsed, payload);
    let moved = parsed.encode_at_offset(24).expect("entry should encode again");
    assert_eq!(SavePayload::parse_at_offset(&moved, 24).expect("moved entry should parse"), payload);
}

#[test]
fn encoding_depends_on_the_offset_modulo_sixteen() {
    let small = SavePayload {
        entries: vec![NativeClass {
            native_hash: 1,
            class: Class {
                hash: 2,
                fields: vec![Field {
                    hash: 3,
                    field_type: 0x10,
                    value: FieldValue::Scalar { size: 16, bytes: (0u8..16).collect() },
                }],
            },
        }],
    };
    assert_eq!(small.encode_at_offset(4).unwrap(), small.encode_at_offset(20).unwrap());
    assert_eq!(small.encode_at_offset(0).unwrap(), small.encode_at_offset(32).unwrap());
    let large = SavePayload {
        entries: vec![NativeClass {
            native_hash: 1,
            class: Class {
                hash: 2,
                fields: vec![Field {
                    hash: 3,
                    field_type: 0x10,
                    value: FieldValue::Scalar { size: 32, bytes: vec![7; 32] },
                }],
            },
        }],
    };
    assert_ne!(large.encode_at_offset(0).unwrap(), large.encode_at_offset(16).unwrap());
}
