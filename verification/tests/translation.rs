use mhrise_save_converter::payload::{Class, Field, FieldValue, NativeClass, SavePayload};
use mhrise_save_converter::translation::{merge_onto_template, SAVE_FILE_DETAIL_NATIVE_HASH};

fn scalar(value: u32) -> FieldValue {
    FieldValue::Scalar { size: 4, bytes: value.to_le_bytes().to_vec() }
}

fn field(hash: u32, value: u32) -> Field {
    Field { hash, field_type: 8, value: scalar(value) }
}

#[test]
fn follows_target_schema_and_copies_matching_source_values() {
    let source = SavePayload {
        entries: vec![NativeClass {
            native_hash: 1,
            class: Class { hash: 10, fields: vec![field(100, 1), field(101, 2)] },
        }],
    };
    let target = SavePayload {
        entries: vec![
            NativeClass {
                native_hash: 1,
                class: Class { hash: 10, fields: vec![field(100, 9), field(102, 3)] },
            },
            NativeClass { native_hash: 2, class: Class { hash: 20, fields: vec![field(200, 4)] } },
        ],
    };

    let (merged, report) = merge_onto_template(&source, &target);

    assert_eq!(merged.entries.len(), 2);
    assert_eq!(merged.entries[0].class.fields, vec![field(100, 1), field(102, 3)]);
    assert_eq!(merged.entries[1], target.entries[1]);
    assert_eq!(report.merged_top_level_classes, 1);
    assert_eq!(report.preserved_target_top_level_classes, 1);
    assert_eq!(report.copied_source_fields, 1);
    assert_eq!(report.preserved_target_fields, 1);
}

#[test]
fn preserves_target_file_detail_metadata() {
    let source = SavePayload {
        entries: vec![NativeClass {
            native_hash: SAVE_FILE_DETAIL_NATIVE_HASH,
            class: Class { hash: 10, fields: vec![field(100, 1)] },
        }],
    };
    let target = SavePayload {
        entries: vec![NativeClass {
            native_hash: SAVE_FILE_DETAIL_NATIVE_HASH,
            class: Class { hash: 10, fields: vec![field(100, 9)] },
        }],
    };

    let (merged, report) = merge_onto_template(&source, &target);

    assert_eq!(merged, target);
    assert_eq!(report.preserved_target_top_level_classes, 1);
    assert_eq!(report.copied_source_fields, 0);
}

#[test]
fn merge_counts_every_template_entry_once() {
    let source = SavePayload {
        entries: vec![
            NativeClass { native_hash: 1, class: Class { hash: 10, fields: vec![field(100, 5)] } },
            NativeClass { native_hash: 3, class: Class { hash: 30, fields: vec![] } },
        ],
    };
    let target = SavePayload {
        entries: vec![
            NativeClass { native_hash: 1, class: Class { hash: 10, fields: vec![field(100, 0)] } },
            NativeClass { native_hash: 2, class: Class { hash: 20, fields: vec![] } },
            NativeClass { native_hash: 3, class: Class { hash: 31, fields: vec![] } },
        ],
    };
    let (merged, report) = merge_onto_template(&source, &target);
    assert_eq!(merged.entries.len(), 3);
    for (m, t) in merged.entries.iter().zip(target.entries.iter()) {
        assert_eq!(m.native_hash, t.native_hash);
        assert_eq!(m.class.hash, t.class.hash);
    }
    assert_eq!(merged.entries[0].class.fields, vec![field(100, 5)]);
    assert_eq!(merged.entries[2], target.entries[2]);
    assert_eq!(report.source_top_level_classes, 2);
    assert_eq!(report.target_top_level_classes, 3);
    assert_eq!(report.merged_top_level_classes + report.preserved_target_top_level_classes, 3);
    assert_eq!(report.merged_top_level_classes, 1);
}

#[test]
fn merge_keeps_a_source_class_of_hash_zero() {
    let source = SavePayload {
        entries: vec![NativeClass { native_hash: 7, class: Class { hash: 0, fields: vec![field(1, 1)] } }],
    };
    let target = SavePayload {
        entries: vec![NativeClass { native_hash: 7, class: Class { hash: 0, fields: vec![field(2, 2)] } }],
    };
    let (merged, report) = merge_onto_template(&source, &target);
    assert_eq!(merged.entries[0].class.fields, vec![field(1, 1)]);
    assert_eq!(report.merged_top_level_classes, 1);
    assert_eq!(report.copied_source_fields, 0);
}

#[test]
fn merging_a_payload_onto_itself_changes_nothing() {
    let payload = SavePayload {
        entries: vec![
            NativeClass {
                native_hash: 1,
                class: Class {
                    hash: 10,
                    fields: vec![
                        field(100, 1),
                        field(101, 2),
                        Field {
                            hash: 102,
                            field_type: 0x11,
                            value: FieldValue::Class(Box::new(Class { hash: 11, fields: vec![field(110, 5)] })),
                        },
                    ],
                },
            },
            NativeClass { native_hash: 2, class: Class { hash: 20, fields: vec![field(200, 4)] } },
        ],
    };
    let (merged, report) = merge_onto_template(&payload, &payload);
    assert_eq!(merged, payload);
    assert_eq!(report.merged_top_level_classes, 2);
}
