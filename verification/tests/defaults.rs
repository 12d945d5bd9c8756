use mhrise_save_converter::defaults::{
    can_build_steam_template, steam_template_from_source, SAVE_FILE_DETAIL, SLOT_MARKER,
    SYSTEM_MARKER,
};
use mhrise_save_converter::payload::{Array, Class, Field, FieldValue, NativeClass, SavePayload};

fn native(native_hash: u32, class_hash: u32, fields: Vec<Field>) -> NativeClass {
    NativeClass { native_hash, class: Class { hash: class_hash, fields } }
}

fn empty_entry(native_hash: u32, class_hash: u32) -> NativeClass {
    native(native_hash, class_hash, Vec::new())
}

fn scalar_field(hash: u32, field_type: i32, bytes: Vec<u8>) -> Field {
    Field { hash, field_type, value: FieldValue::Scalar { size: bytes.len() as u32, bytes } }
}

fn u32_field(hash: u32, value: u32) -> Field {
    scalar_field(hash, 0x08, value.to_le_bytes().to_vec())
}

fn s32_field(hash: u32, value: i32) -> Field {
    scalar_field(hash, 0x07, value.to_le_bytes().to_vec())
}

fn empty_dlc_flags() -> Field {
    Field {
        hash: 0x0a50_d2dc,
        field_type: 0x11,
        value: FieldValue::Class(Box::new(Class {
            hash: 0xfdb0_c267,
            fields: vec![Field {
                hash: 0x6829_aab6,
                field_type: -1,
                value: FieldValue::Array(Array {
                    member_type: 0x08,
                    member_size: 4,
                    array_type: 0,
                    class_hashes: None,
                    values: Vec::new(),
                }),
            }],
        })),
    }
}

fn top_class(payload: &SavePayload, native_hash: u32, class_hash: u32) -> Option<&Class> {
    payload
        .entries
        .iter()
        .find(|entry| entry.native_hash == native_hash && entry.class.hash == class_hash)
        .map(|entry| &entry.class)
}

#[test]
fn builds_system_profile_with_steam_only_classes() {
    let mut source = SavePayload {
        entries: vec![
            empty_entry(SYSTEM_MARKER, 1),
            native(0x0b19_f75b, 0xe6a6_9e8a, vec![u32_field(0xef10_b158, 7)]),
            empty_entry(0x4d64_87d4, 0xa0a6_441d),
            empty_entry(SAVE_FILE_DETAIL, 2),
        ],
    };
    source.entries[2].class.fields = vec![
        s32_field(0x1fc1_b1b3, 5),
        empty_dlc_flags(),
        s32_field(0x4f12_7348, 1),
        u32_field(0xef10_b158, 5),
    ];
    source.entries[2].class.fields[1].hash = 0x3811_b01d;

    let target = steam_template_from_source(&source).expect("system profile should translate");

    assert_eq!(target.entries.last().map(|entry| entry.native_hash), Some(SAVE_FILE_DETAIL));
    assert!(target.entries.iter().any(|entry| entry.native_hash == 0x649e_38ff));
    assert!(target.entries.iter().any(|entry| entry.native_hash == 0x8195_71e6));
    let load_info = top_class(&target, 0x0b19_f75b, 0xe6a6_9e8a).unwrap();
    assert_eq!(
        load_info.fields.iter().map(|field| field.hash).collect::<Vec<_>>(),
        vec![0xbba2_0186, 0xef10_b158]
    );
}

#[test]
fn builds_slot_profile_and_reuses_hunter_guid() {
    let guid = (0u8..16).collect::<Vec<_>>();
    let source = SavePayload {
        entries: vec![
            empty_entry(SLOT_MARKER, 1),
            native(0x355c_8c4f, 0xaf6e_a643, vec![scalar_field(0x0a96_0102, 0x10, guid.clone())]),
            native(0x356f_270b, 0x5766_f30b, vec![u32_field(0xef10_b158, 1)]),
            empty_entry(SAVE_FILE_DETAIL, 2),
        ],
    };

    let target = steam_template_from_source(&source).expect("slot profile should translate");

    assert!(target.entries.iter().any(|entry| entry.native_hash == 0xbb43_1b76));
    assert!(target.entries.iter().any(|entry| entry.native_hash == 0x5a04_dbf9));
    let system = top_class(&target, 0x356f_270b, 0x5766_f30b).unwrap();
    let consistency = system.fields.iter().find(|field| field.hash == 0xe40f_c0cd).unwrap();
    match &consistency.value {
        FieldValue::Scalar { bytes, .. } => assert_eq!(bytes.as_slice(), guid.as_slice()),
        _ => panic!("the consistency identifier should be a scalar"),
    }
}

#[test]
fn rejects_unknown_payload_profile() {
    let error = steam_template_from_source(&SavePayload { entries: Vec::new() })
        .expect_err("unknown payload should fail");
    assert!(error.message().contains("neither a recognized system save nor a slot save"));
}

#[test]
fn system_profile_follows_the_steam_order() {
    let source = SavePayload {
        entries: vec![
            empty_entry(SAVE_FILE_DETAIL, 2),
            empty_entry(0x1234_5678, 9),
            empty_entry(SYSTEM_MARKER, 1),
        ],
    };
    let target = steam_template_from_source(&source).expect("system profile should translate");
    let order = target.entries.iter().map(|entry| entry.native_hash).collect::<Vec<_>>();
    assert_eq!(
        order,
        vec![SYSTEM_MARKER, 0x649e_38ff, 0x5a04_dbf9, 0x8195_71e6, 0x1234_5678, SAVE_FILE_DETAIL]
    );
    let options = top_class(&target, 0x5a04_dbf9, 0x609f_5577).expect("system options");
    assert_eq!(options.fields.len(), 8);
    assert_eq!(options.fields[7], u32_field(0xef10_b158, 1001));
    let keys = top_class(&target, 0x8195_71e6, 0xd633_1b34).expect("key configuration");
    assert_eq!(keys.fields.len(), 4);
}

#[test]
fn missing_hunter_guid_becomes_zeros() {
    let source = SavePayload {
        entries: vec![
            empty_entry(SLOT_MARKER, 1),
            native(0x356f_270b, 0x5766_f30b, vec![u32_field(0xef10_b158, 1), u32_field(5, 5)]),
        ],
    };
    let target = steam_template_from_source(&source).expect("slot profile should translate");
    let system = top_class(&target, 0x356f_270b, 0x5766_f30b).unwrap();
    assert_eq!(system.fields[0], scalar_field(0xe40f_c0cd, 0x10, vec![0; 16]));
    assert_eq!(system.fields[1], u32_field(0xef10_b158, 1));
    let quests = top_class(&target, 0xbb43_1b76, 0xef94_546d).expect("external quest data");
    assert_eq!(quests.fields.len(), 5);
}

#[test]
fn incomplete_dlc_system_cannot_be_patched() {
    let source = SavePayload {
        entries: vec![
            empty_entry(SYSTEM_MARKER, 1),
            native(0x4d64_87d4, 0xa0a6_441d, vec![s32_field(0x1fc1_b1b3, 5)]),
        ],
    };
    assert!(!can_build_steam_template(&source));
    let slot = SavePayload { entries: vec![empty_entry(SLOT_MARKER, 1)] };
    assert!(can_build_steam_template(&slot));
}

#[test]
fn key_configuration_names_the_default_layout_in_utf16() {
    let source = SavePayload { entries: vec![empty_entry(SYSTEM_MARKER, 1)] };
    let target = steam_template_from_source(&source).expect("system profile should translate");
    let keys = top_class(&target, 0x8195_71e6, 0xd633_1b34).expect("key configuration");
    let user = match &keys.fields[0].value {
        FieldValue::Class(class) => class,
        _ => panic!("user configuration should be a class"),
    };
    let layout = match &user.fields[1].value {
        FieldValue::Class(class) => class,
        _ => panic!("layout should be a class"),
    };
    assert_eq!(layout.fields[0].value, FieldValue::String("Default".encode_utf16().collect()));
    assert_eq!(layout.fields[0].value, FieldValue::String(vec![68, 101, 102, 97, 117, 108, 116]));
}
