//! The built-in Steam schema: a Switch class stream patched into the shape a
//! Steam save has, for conversions without a Steam template.
use vstd::prelude::*;

use crate::bytes::{push_le_u32, resize_zero, resized, u32_le, zeros};
use crate::payload::{
    clone_class, clone_field, entries_model, entry_model, field_model, fields_model, lemma_fields_model, Array,
    ArrayValue, Class, Field, FieldValue, NativeClass, SavePayload,
};
use crate::payload_model::{
    ArrayModel, ClassModel, ElementModel, EntryModel, FieldModel, ValueModel,
};
use crate::translation::find_entry_from;

verus! {

/// Field type of an array.
pub const ARRAY: i32 = -1;

/// Field type of a boolean.
pub const BOOL: i32 = 0x02;

/// Field type of a byte.
pub const U8: i32 = 0x04;

/// Field type of a signed 32-bit integer.
pub const S32: i32 = 0x07;

/// Field type of an unsigned 32-bit integer.
pub const U32: i32 = 0x08;

/// Field type of a signed 64-bit integer.
pub const S64: i32 = 0x09;

/// Field type of an inline structure.
pub const STRUCT: i32 = 0x10;

/// Field type of a nested class.
pub const CLASS: i32 = 0x11;

/// Field type of a UTF-16 string.
pub const STRING: i32 = 0x0f;

/// Native hash of the entry that marks a system save.
pub const SYSTEM_MARKER: u32 = 0xe2a3_ea98;

/// Native hash of the entry that marks a slot save.
pub const SLOT_MARKER: u32 = 0xd6f4_726d;

/// Native hash of the save-file detail entry, which always comes last.
pub const SAVE_FILE_DETAIL: u32 = 0x85e9_04c1;

/// Hash of the version field that closes most classes.
pub const VERSION_FIELD: u32 = 0xef10_b158;

// ---------------------------------------------------------------------------
// Values of the built-in fields
// ---------------------------------------------------------------------------
/// A scalar field holding `bytes`.
pub open spec fn scalar_field_spec(hash: u32, field_type: i32, bytes: Seq<u8>) -> FieldModel {
    FieldModel {
        hash,
        field_type,
        value: ValueModel::Scalar { size: bytes.len() as u32, bytes },
    }
}

/// A signed 32-bit field.
pub open spec fn s32_field_spec(hash: u32, value: i32) -> FieldModel {
    scalar_field_spec(hash, S32, u32_le(value as u32))
}

/// An unsigned 32-bit field.
pub open spec fn u32_field_spec(hash: u32, value: u32) -> FieldModel {
    scalar_field_spec(hash, U32, u32_le(value))
}

/// A boolean field: one byte, 1 or 0.
pub open spec fn bool_field_spec(hash: u32, value: bool) -> FieldModel {
    scalar_field_spec(hash, BOOL, seq![if value { 1u8 } else { 0u8 }])
}

/// A string field holding UTF-16 code units `units`.
pub open spec fn string_field_spec(hash: u32, units: Seq<u16>) -> FieldModel {
    FieldModel { hash, field_type: STRING, value: ValueModel::String(units) }
}

/// A field holding class `class`.
pub open spec fn class_field_spec(hash: u32, class: ClassModel) -> FieldModel {
    FieldModel { hash, field_type: CLASS, value: ValueModel::Class(class) }
}

/// An array field of scalar values, one per row of `rows`.
pub open spec fn array_field_spec(
    hash: u32,
    member_type: i32,
    member_size: u32,
    rows: Seq<Seq<u8>>,
) -> FieldModel {
    FieldModel {
        hash,
        field_type: ARRAY,
        value: ValueModel::Array(
            ArrayModel {
                member_type,
                member_size,
                array_type: 0,
                class_hashes: None,
                values: Seq::new(rows.len(), |i: int| ElementModel::Scalar(rows[i])),
            },
        ),
    }
}

/// An empty array field of classes.
pub open spec fn empty_class_array_field_spec(hash: u32) -> FieldModel {
    FieldModel {
        hash,
        field_type: ARRAY,
        value: ValueModel::Array(
            ArrayModel {
                member_type: CLASS,
                member_size: 8,
                array_type: 1,
                class_hashes: None,
                values: Seq::empty(),
            },
        ),
    }
}

/// `count` rows of `width` zero bytes.
pub open spec fn zero_rows_spec(count: nat, width: nat) -> Seq<Seq<u8>> {
    Seq::new(count, |_i: int| zeros(width))
}

/// A top-level entry.
pub open spec fn native_spec(native_hash: u32, class_hash: u32, fields: Seq<FieldModel>) -> EntryModel {
    EntryModel { native_hash, class: ClassModel { hash: class_hash, fields } }
}

/// The UTF-16 code units of `chars`: one unit for a character below
/// `0x10000`, a surrogate pair for one above.
pub open spec fn utf16_of(chars: Seq<char>) -> Seq<u16>
    decreases chars.len(),
{
    if chars.len() == 0 {
        Seq::empty()
    } else {
        let c = chars[0] as u32;
        let head = if c < 0x10000 {
            seq![c as u16]
        } else {
            seq![
                (0xd800 + ((c - 0x10000) / 0x400)) as u16,
                (0xdc00 + ((c - 0x10000) % 0x400)) as u16,
            ]
        };
        head + utf16_of(chars.drop_first())
    }
}

// ---------------------------------------------------------------------------
// Building the fields
// ---------------------------------------------------------------------------
/// Calls `str::encode_utf16` and collects the code units.
/// Claimed: they are the UTF-16 encoding of the string's characters.
#[verifier::external_body]
fn encode_utf16(value: &str) -> (r: Vec<u16>)
    ensures
        r@ == utf16_of(value@),
{
    value.encode_utf16().collect()
}

/// The four little-endian bytes of `value`.
fn u32_bytes(value: u32) -> (r: Vec<u8>)
    ensures
        r@ == u32_le(value),
{
    let mut out: Vec<u8> = Vec::new();
    push_le_u32(&mut out, value);
    assert(out@ =~= u32_le(value));
    out
}

/// `width` zero bytes.
fn zero_bytes(width: usize) -> (r: Vec<u8>)
    ensures
        r@ == zeros(width as nat),
{
    let mut out: Vec<u8> = Vec::new();
    resize_zero(&mut out, width);
    assert(resized(Seq::<u8>::empty(), width as int) =~= zeros(width as nat));
    out
}

/// `count` rows of `width` zero bytes.
fn zero_rows(count: usize, width: usize) -> (r: Vec<Vec<u8>>)
    ensures
        r@.len() == count,
        forall|i: int| 0 <= i < count ==> (#[trigger] r@[i])@ == zeros(width as nat),
{
    let mut rows: Vec<Vec<u8>> = Vec::new();
    let mut i: usize = 0;
    while i < count
        invariant
            i <= count,
            rows@.len() == i,
            forall|j: int| 0 <= j < i ==> (#[trigger] rows@[j])@ == zeros(width as nat),
        decreases count - i,
    {
        rows.push(zero_bytes(width));
        i = i + 1;
    }
    rows
}

/// A top-level entry.
fn native(native_hash: u32, class_hash: u32, fields: Vec<Field>) -> (r: NativeClass)
    ensures
        r@ == native_spec(native_hash, class_hash, fields_model(fields@)),
{
    NativeClass { native_hash, class: Class { hash: class_hash, fields } }
}

/// A scalar field holding `bytes`.
fn scalar_field(hash: u32, field_type: i32, bytes: Vec<u8>) -> (r: Field)
    ensures
        r@ == scalar_field_spec(hash, field_type, bytes@),
{
    let size = bytes.len() as u32;
    Field { hash, field_type, value: FieldValue::Scalar { size, bytes } }
}

/// The bytes of a scalar field, if it is one.
fn scalar_bytes(field: &Field) -> (r: Option<&Vec<u8>>)
    ensures
        field@.value is Scalar <==> r is Some,
        r matches Some(b) ==> field@.value->Scalar_bytes == b@,
{
    match &field.value {
        FieldValue::Scalar { bytes, .. } => Some(bytes),
        _ => None,
    }
}

/// A signed 32-bit field.
fn s32_field(hash: u32, value: i32) -> (r: Field)
    ensures
        r@ == s32_field_spec(hash, value),
{
    scalar_field(hash, S32, u32_bytes(value as u32))
}

/// An unsigned 32-bit field.
fn u32_field(hash: u32, value: u32) -> (r: Field)
    ensures
        r@ == u32_field_spec(hash, value),
{
    scalar_field(hash, U32, u32_bytes(value))
}

/// A boolean field.
fn bool_field(hash: u32, value: bool) -> (r: Field)
    ensures
        r@ == bool_field_spec(hash, value),
{
    let byte: u8 = if value {
        1
    } else {
        0
    };
    let bytes = vec![byte];
    assert(bytes@ =~= seq![byte]);
    scalar_field(hash, BOOL, bytes)
}

/// A string field holding the UTF-16 encoding of `value`.
fn string_field(hash: u32, value: &str) -> (r: Field)
    ensures
        r@ == string_field_spec(hash, utf16_of(value@)),
{
    Field { hash, field_type: STRING, value: FieldValue::String(encode_utf16(value)) }
}

/// A field holding `class`.
fn class_field(hash: u32, class: Class) -> (r: Field)
    ensures
        r@ == class_field_spec(hash, class@),
{
    Field { hash, field_type: CLASS, value: FieldValue::Class(Box::new(class)) }
}

/// The views of `rows`.
pub open spec fn rows_view(rows: Seq<Vec<u8>>) -> Seq<Seq<u8>> {
    Seq::new(rows.len(), |i: int| rows[i]@)
}

/// An array field of scalar values, one per row.
fn array_field(hash: u32, member_type: i32, member_size: u32, values: Vec<Vec<u8>>) -> (r: Field)
    ensures
        r@ == array_field_spec(hash, member_type, member_size, rows_view(values@)),
{
    let ghost rows = rows_view(values@);
    let mut scalars: Vec<ArrayValue> = Vec::new();
    let mut values = values;
    let ghost all = values@;
    let mut i: usize = 0;
    let n = values.len();
    while i < n
        invariant
            n == all.len(),
            i <= n,
            values@ == all,
            rows == rows_view(all),
            scalars@.len() == i,
            forall|j: int| 0 <= j < i ==> (#[trigger] scalars@[j])@ == ElementModel::Scalar(rows[j]),
        decreases n - i,
    {
        let row = copy_row(&values[i]);
        scalars.push(ArrayValue::Scalar(row));
        i = i + 1;
    }
    let array = Array {
        member_type,
        member_size,
        array_type: 0,
        class_hashes: None,
        values: scalars,
    };
    proof {
        crate::payload::lemma_elements_model(scalars@);
        assert(array@.values =~= Seq::new(rows.len(), |j: int| ElementModel::Scalar(rows[j])));
    }
    Field { hash, field_type: ARRAY, value: FieldValue::Array(array) }
}

/// A copy of `row`.
fn copy_row(row: &Vec<u8>) -> (r: Vec<u8>)
    ensures
        r@ == row@,
{
    let mut out: Vec<u8> = Vec::new();
    crate::bytes::push_all(&mut out, row.as_slice());
    out
}

/// An empty array field of classes.
fn empty_class_array_field(hash: u32) -> (r: Field)
    ensures
        r@ == empty_class_array_field_spec(hash),
{
    let array = Array {
        member_type: CLASS,
        member_size: 8,
        array_type: 1,
        class_hashes: None,
        values: Vec::new(),
    };
    proof {
        crate::payload::lemma_elements_model(array.values@);
        assert(array@.values =~= Seq::<ElementModel>::empty());
    }
    Field { hash, field_type: ARRAY, value: FieldValue::Array(array) }
}

// ---------------------------------------------------------------------------
// The Steam-only classes
// ---------------------------------------------------------------------------
/// The Steam version checker.
pub open spec fn steam_version_checker_spec() -> EntryModel {
    native_spec(0x649e_38ff, 0xf3a7_e6a4, seq![u32_field_spec(VERSION_FIELD, 827_392_000)])
}

/// The Steam system options.
pub open spec fn steam_system_options_spec() -> EntryModel {
    native_spec(
        0x5a04_dbf9,
        0x609f_5577,
        seq![
            array_field_spec(0x7b7a_a988, S32, 4, zero_rows_spec(5, 4)),
            s32_field_spec(0x66d8_c850, 50),
            s32_field_spec(0x25c4_fa4e, 0),
            s32_field_spec(0x6546_cbdd, 50),
            s32_field_spec(0x7e68_451a, 0),
            bool_field_spec(0x7216_682b, true),
            bool_field_spec(0xafa1_edf9, false),
            u32_field_spec(VERSION_FIELD, 1001),
        ],
    )
}

/// The default key configuration of a Steam save.
pub open spec fn steam_key_config_spec() -> EntryModel {
    let user_config = ClassModel {
        hash: 0x1d7e_2ded,
        fields: seq![
            class_field_spec(
                0x4d37_52f4,
                ClassModel { hash: 0x0d2b_2d0d, fields: seq![empty_class_array_field_spec(0x4d37_52f4)] },
            ),
            class_field_spec(
                0x73a0_7131,
                ClassModel {
                    hash: 0x33ad_5ad6,
                    fields: seq![
                        string_field_spec(0xbcf6_bc33, utf16_of("Default"@)),
                        empty_class_array_field_spec(0x7680_621f),
                    ],
                },
            ),
        ],
    };
    native_spec(
        0x8195_71e6,
        0xd633_1b34,
        seq![
            class_field_spec(0x049b_afc9, user_config),
            class_field_spec(
                0x6482_2a5f,
                ClassModel {
                    hash: 0xbf55_0512,
                    fields: seq![
                        empty_class_array_field_spec(0xe666_5f54),
                        empty_class_array_field_spec(0x912d_f7a2),
                        empty_class_array_field_spec(0x73a0_7131),
                    ],
                },
            ),
            class_field_spec(
                0x953d_1f7b,
                ClassModel { hash: 0x10c1_11cc, fields: seq![empty_class_array_field_spec(0xb998_da40)] },
            ),
            u32_field_spec(VERSION_FIELD, 1004),
        ],
    )
}

/// The external quest data of a Steam slot.
pub open spec fn external_quest_data_spec() -> EntryModel {
    native_spec(
        0xbb43_1b76,
        0xef94_546d,
        seq![
            array_field_spec(0x014d_9d98, BOOL, 1, zero_rows_spec(100, 1)),
            array_field_spec(0x42ff_a9f2, BOOL, 1, zero_rows_spec(100, 1)),
            array_field_spec(0x26bc_7c4a, BOOL, 1, zero_rows_spec(100, 1)),
            array_field_spec(0xba5c_3e3f, S64, 8, zero_rows_spec(100, 8)),
            u32_field_spec(VERSION_FIELD, 1),
        ],
    )
}

/// The character options of a Steam slot.
pub open spec fn steam_character_options_spec() -> EntryModel {
    native_spec(
        0x5a04_dbf9,
        0xd71a_55bd,
        seq![
            array_field_spec(0xf4f5_060e, S32, 4, zero_rows_spec(2, 4)),
            array_field_spec(0xe33a_ee58, S32, 4, zero_rows_spec(11, 4)),
            array_field_spec(0x4371_30de, S32, 4, zero_rows_spec(7, 4)),
            u32_field_spec(VERSION_FIELD, 1000),
        ],
    )
}

/// The DLC flags field of a save that has none.
pub open spec fn empty_dlc_flags_spec() -> FieldModel {
    class_field_spec(
        0x0a50_d2dc,
        ClassModel {
            hash: 0xfdb0_c267,
            fields: seq![array_field_spec(0x6829_aab6, U32, 4, Seq::empty())],
        },
    )
}

/// Builds the Steam version checker.
fn steam_version_checker() -> (r: NativeClass)
    ensures
        r@ == steam_version_checker_spec(),
{
    let fields = vec![u32_field(VERSION_FIELD, 827_392_000)];
    proof {
        lemma_fields_model(fields@);
    }
    let r = native(0x649e_38ff, 0xf3a7_e6a4, fields);
    assert(r@.class.fields =~= steam_version_checker_spec().class.fields);
    r
}

/// Builds the Steam system options.
fn steam_system_options() -> (r: NativeClass)
    ensures
        r@ == steam_system_options_spec(),
{
    let rows = zero_rows(5, 4);
    assert(rows_view(rows@) =~= zero_rows_spec(5, 4));
    let fields = vec![
        array_field(0x7b7a_a988, S32, 4, rows),
        s32_field(0x66d8_c850, 50),
        s32_field(0x25c4_fa4e, 0),
        s32_field(0x6546_cbdd, 50),
        s32_field(0x7e68_451a, 0),
        bool_field(0x7216_682b, true),
        bool_field(0xafa1_edf9, false),
        u32_field(VERSION_FIELD, 1001),
    ];
    proof {
        lemma_fields_model(fields@);
    }
    let r = native(0x5a04_dbf9, 0x609f_5577, fields);
    assert(r@.class.fields =~= steam_system_options_spec().class.fields);
    r
}

/// Builds the default key configuration of a Steam save.
fn steam_key_config() -> (r: NativeClass)
    ensures
        r@ == steam_key_config_spec(),
{
    let inner1 = vec![empty_class_array_field(0x4d37_52f4)];
    let inner2 = vec![string_field(0xbcf6_bc33, "Default"), empty_class_array_field(0x7680_621f)];
    proof {
        lemma_fields_model(inner1@);
        lemma_fields_model(inner2@);
    }
    let c1 = Class { hash: 0x0d2b_2d0d, fields: inner1 };
    let c2 = Class { hash: 0x33ad_5ad6, fields: inner2 };
    let user_fields = vec![class_field(0x4d37_52f4, c1), class_field(0x73a0_7131, c2)];
    proof {
        lemma_fields_model(user_fields@);
    }
    let user_config = Class { hash: 0x1d7e_2ded, fields: user_fields };
    let layouts = vec![
        empty_class_array_field(0xe666_5f54),
        empty_class_array_field(0x912d_f7a2),
        empty_class_array_field(0x73a0_7131),
    ];
    let pads = vec![empty_class_array_field(0xb998_da40)];
    proof {
        lemma_fields_model(layouts@);
        lemma_fields_model(pads@);
    }
    let fields = vec![
        class_field(0x049b_afc9, user_config),
        class_field(0x6482_2a5f, Class { hash: 0xbf55_0512, fields: layouts }),
        class_field(0x953d_1f7b, Class { hash: 0x10c1_11cc, fields: pads }),
        u32_field(VERSION_FIELD, 1004),
    ];
    proof {
        lemma_fields_model(fields@);
    }
    let r = native(0x8195_71e6, 0xd633_1b34, fields);
    proof {
        let spec = steam_key_config_spec();
        assert(fields_model(inner1@) =~= seq![empty_class_array_field_spec(0x4d37_52f4)]);
        assert(fields_model(inner2@) =~= seq![
            string_field_spec(0xbcf6_bc33, utf16_of("Default"@)),
            empty_class_array_field_spec(0x7680_621f),
        ]);
        assert(fields_model(user_fields@) =~= spec.class.fields[0].value->Class_0.fields);
        assert(fields_model(layouts@) =~= spec.class.fields[1].value->Class_0.fields);
        assert(fields_model(pads@) =~= spec.class.fields[2].value->Class_0.fields);
        assert(r@.class.fields =~= spec.class.fields);
    }
    r
}

/// Builds the external quest data of a Steam slot.
fn external_quest_data() -> (r: NativeClass)
    ensures
        r@ == external_quest_data_spec(),
{
    let r1 = zero_rows(100, 1);
    let r2 = zero_rows(100, 1);
    let r3 = zero_rows(100, 1);
    let r4 = zero_rows(100, 8);
    assert(rows_view(r1@) =~= zero_rows_spec(100, 1));
    assert(rows_view(r2@) =~= zero_rows_spec(100, 1));
    assert(rows_view(r3@) =~= zero_rows_spec(100, 1));
    assert(rows_view(r4@) =~= zero_rows_spec(100, 8));
    let fields = vec![
        array_field(0x014d_9d98, BOOL, 1, r1),
        array_field(0x42ff_a9f2, BOOL, 1, r2),
        array_field(0x26bc_7c4a, BOOL, 1, r3),
        array_field(0xba5c_3e3f, S64, 8, r4),
        u32_field(VERSION_FIELD, 1),
    ];
    proof {
        lemma_fields_model(fields@);
    }
    let r = native(0xbb43_1b76, 0xef94_546d, fields);
    assert(r@.class.fields =~= external_quest_data_spec().class.fields);
    r
}

/// Builds the character options of a Steam slot.
fn steam_character_options() -> (r: NativeClass)
    ensures
        r@ == steam_character_options_spec(),
{
    let r1 = zero_rows(2, 4);
    let r2 = zero_rows(11, 4);
    let r3 = zero_rows(7, 4);
    assert(rows_view(r1@) =~= zero_rows_spec(2, 4));
    assert(rows_view(r2@) =~= zero_rows_spec(11, 4));
    assert(rows_view(r3@) =~= zero_rows_spec(7, 4));
    let fields = vec![
        array_field(0xf4f5_060e, S32, 4, r1),
        array_field(0xe33a_ee58, S32, 4, r2),
        array_field(0x4371_30de, S32, 4, r3),
        u32_field(VERSION_FIELD, 1000),
    ];
    proof {
        lemma_fields_model(fields@);
    }
    let r = native(0x5a04_dbf9, 0xd71a_55bd, fields);
    assert(r@.class.fields =~= steam_character_options_spec().class.fields);
    r
}

/// Builds the DLC flags field of a save that has none.
fn empty_dlc_flags() -> (r: Field)
    ensures
        r@ == empty_dlc_flags_spec(),
{
    let rows: Vec<Vec<u8>> = Vec::new();
    assert(rows_view(rows@) =~= Seq::<Seq<u8>>::empty());
    let fields = vec![array_field(0x6829_aab6, U32, 4, rows)];
    proof {
        lemma_fields_model(fields@);
    }
    let class = Class { hash: 0xfdb0_c267, fields };
    assert(class@.fields =~= empty_dlc_flags_spec().value->Class_0.fields);
    class_field(0x0a50_d2dc, class)
}

// ---------------------------------------------------------------------------
// Editing a class stream
// ---------------------------------------------------------------------------
/// The index of the first field of `fs` from `i` on with hash `hash`.
pub open spec fn first_field_with(fs: Seq<FieldModel>, hash: u32, i: int) -> Option<int>
    decreases fs.len() - i,
{
    if i < 0 || i >= fs.len() {
        None
    } else if fs[i].hash == hash {
        Some(i)
    } else {
        first_field_with(fs, hash, i + 1)
    }
}

/// The index of the first entry of `es` from `i` on with native hash `nh`.
pub open spec fn first_entry_with(es: Seq<EntryModel>, nh: u32, i: int) -> Option<int>
    decreases es.len() - i,
{
    if i < 0 || i >= es.len() {
        None
    } else if es[i].native_hash == nh {
        Some(i)
    } else {
        first_entry_with(es, nh, i + 1)
    }
}

/// `fs` with `f` inserted before the first version field (or at the end),
/// unless a field with `f`'s hash is already there.
pub open spec fn insert_before_version_spec(fs: Seq<FieldModel>, f: FieldModel) -> Seq<FieldModel> {
    if first_field_with(fs, f.hash, 0) is Some {
        fs
    } else {
        let at = match first_field_with(fs, VERSION_FIELD, 0) {
            Some(k) => k,
            None => fs.len() as int,
        };
        fs.insert(at, f)
    }
}

/// `fs` with `f` appended, unless a field with `f`'s hash is already there.
pub open spec fn push_if_missing_spec(fs: Seq<FieldModel>, f: FieldModel) -> Seq<FieldModel> {
    if first_field_with(fs, f.hash, 0) is Some {
        fs
    } else {
        fs.push(f)
    }
}

/// `es` with the first entry of `e`'s native hash replaced by `e`, or with
/// `e` appended where there is none.
pub open spec fn upsert_spec(es: Seq<EntryModel>, e: EntryModel) -> Seq<EntryModel> {
    match first_entry_with(es, e.native_hash, 0) {
        Some(k) => es.update(k, e),
        None => es.push(e),
    }
}

/// Moves the first entry of `remaining` with native hash `nh`, if any, to the
/// end of `ordered`.
pub open spec fn take_first_with(ordered: Seq<EntryModel>, remaining: Seq<EntryModel>, nh: u32) -> (
    Seq<EntryModel>,
    Seq<EntryModel>,
) {
    match first_entry_with(remaining, nh, 0) {
        Some(k) => (ordered.push(remaining[k]), remaining.remove(k)),
        None => (ordered, remaining),
    }
}

/// Moves, for each native hash of `order` in turn, the first remaining entry
/// of that hash to the end of `ordered`.
pub open spec fn reorder_pass(
    ordered: Seq<EntryModel>,
    remaining: Seq<EntryModel>,
    order: Seq<u32>,
) -> (Seq<EntryModel>, Seq<EntryModel>)
    decreases order.len(),
{
    if order.len() == 0 {
        (ordered, remaining)
    } else {
        let (o, r) = take_first_with(ordered, remaining, order[0]);
        reorder_pass(o, r, order.drop_first())
    }
}

/// `es` in the order `order` names, the entries it does not name after them,
/// and the save-file detail last.
pub open spec fn reorder_spec(es: Seq<EntryModel>, order: Seq<u32>) -> Seq<EntryModel> {
    let (ordered, remaining) = reorder_pass(Seq::empty(), es, order);
    match first_entry_with(ordered, SAVE_FILE_DETAIL, 0) {
        Some(k) => ordered.remove(k) + remaining + seq![ordered[k]],
        None => ordered + remaining,
    }
}

/// `es` with the fields of the class of entry `k` replaced by `fs`.
pub open spec fn with_class_fields(es: Seq<EntryModel>, k: int, fs: Seq<FieldModel>) -> Seq<
    EntryModel,
> {
    es.update(
        k,
        EntryModel {
            native_hash: es[k].native_hash,
            class: ClassModel { hash: es[k].class.hash, fields: fs },
        },
    )
}

/// The position of the first entry of `payload` with native hash `nh` and class hash `ch`.
fn top_class_index(payload: &SavePayload, nh: u32, ch: u32) -> (r: Option<usize>)
    ensures
        r matches Some(k) ==> k < payload.entries@.len() && find_entry_from(
            payload@.entries,
            nh,
            ch,
            0,
        ) == Some(k as int),
        r is None ==> find_entry_from(payload@.entries, nh, ch, 0) is None,
{
    let ghost em = payload@.entries;
    let mut i: usize = 0;
    while i < payload.entries.len()
        invariant
            i <= payload.entries@.len(),
            em == payload@.entries,
            em == entries_model(payload.entries@),
            find_entry_from(em, nh, ch, 0) == find_entry_from(em, nh, ch, i as int),
        decreases payload.entries@.len() - i,
    {
        assert(em[i as int] == entry_model(payload.entries@[i as int]));
        if payload.entries[i].native_hash == nh && payload.entries[i].class.hash == ch {
            return Some(i);
        }
        i = i + 1;
    }
    None
}

/// The position of the first field of `fields` with hash `hash`.
fn field_index(fields: &Vec<Field>, hash: u32) -> (r: Option<usize>)
    ensures
        r matches Some(k) ==> k < fields@.len() && first_field_with(fields_model(fields@), hash, 0)
            == Some(k as int),
        r is None ==> first_field_with(fields_model(fields@), hash, 0) is None,
{
    proof {
        lemma_fields_model(fields@);
    }
    let ghost fm = fields_model(fields@);
    let mut i: usize = 0;
    while i < fields.len()
        invariant
            i <= fields@.len(),
            fm == fields_model(fields@),
            fm.len() == fields@.len(),
            forall|j: int| 0 <= j < fm.len() ==> #[trigger] fm[j] == field_model(fields@[j]),
            first_field_with(fm, hash, 0) == first_field_with(fm, hash, i as int),
        decreases fields@.len() - i,
    {
        assert(fm[i as int] == field_model(fields@[i as int]));
        if fields[i].hash == hash {
            return Some(i);
        }
        i = i + 1;
    }
    None
}

/// The position of the first entry of `entries` with native hash `nh`.
fn entry_index(entries: &Vec<NativeClass>, nh: u32) -> (r: Option<usize>)
    ensures
        r matches Some(k) ==> k < entries@.len() && first_entry_with(entries_model(entries@), nh, 0)
            == Some(k as int),
        r is None ==> first_entry_with(entries_model(entries@), nh, 0) is None,
{
    let ghost em = entries_model(entries@);
    let mut i: usize = 0;
    while i < entries.len()
        invariant
            i <= entries@.len(),
            em == entries_model(entries@),
            first_entry_with(em, nh, 0) == first_entry_with(em, nh, i as int),
        decreases entries@.len() - i,
    {
        assert(em[i as int] == entry_model(entries@[i as int]));
        if entries[i].native_hash == nh {
            return Some(i);
        }
        i = i + 1;
    }
    None
}

/// The model of `fs` with `f` inserted at `at`.
proof fn lemma_fields_model_insert(fs: Seq<Field>, at: int, f: Field)
    requires
        0 <= at <= fs.len(),
    ensures
        fields_model(fs.insert(at, f)) == fields_model(fs).insert(at, field_model(f)),
{
    lemma_fields_model(fs);
    lemma_fields_model(fs.insert(at, f));
    assert(fields_model(fs.insert(at, f)) =~= fields_model(fs).insert(at, field_model(f)));
}

/// Inserts `field` before the version field of `class`, unless a field with
/// its hash is already there.
fn insert_before_version(class: &mut Class, field: Field)
    ensures
        final(class)@ == (ClassModel {
            hash: old(class)@.hash,
            fields: insert_before_version_spec(old(class)@.fields, field@),
        }),
{
    if field_index(&class.fields, field.hash).is_some() {
        return;
    }
    let index = match field_index(&class.fields, VERSION_FIELD) {
        Some(k) => k,
        None => class.fields.len(),
    };
    proof {
        lemma_fields_model(class.fields@);
        lemma_fields_model_insert(class.fields@, index as int, field);
    }
    class.fields.insert(index, field);
}

/// Appends `field` to `class`, unless a field with its hash is already there.
fn push_if_missing(class: &mut Class, field: Field)
    ensures
        final(class)@ == (ClassModel {
            hash: old(class)@.hash,
            fields: push_if_missing_spec(old(class)@.fields, field@),
        }),
{
    if field_index(&class.fields, field.hash).is_some() {
        return;
    }
    proof {
        lemma_fields_model(class.fields@);
        lemma_fields_model_insert(class.fields@, class.fields@.len() as int, field);
        assert(class.fields@.insert(class.fields@.len() as int, field) =~= class.fields@.push(
            field,
        ));
        assert(fields_model(class.fields@).insert(class.fields@.len() as int, field@)
            =~= fields_model(class.fields@).push(field@));
    }
    class.fields.push(field);
}

/// Replaces the first entry of `entry`'s native hash by `entry`, or appends it.
fn upsert(payload: &mut SavePayload, entry: NativeClass)
    ensures
        final(payload)@.entries == upsert_spec(old(payload)@.entries, entry@),
{
    match entry_index(&payload.entries, entry.native_hash) {
        Some(k) => {
            let ghost before = payload.entries@;
            let ghost e = entry@;
            payload.entries.set(k, entry);
            assert(entries_model(payload.entries@) =~= entries_model(before).update(k as int, e));
        },
        None => {
            let ghost before = payload.entries@;
            let ghost e = entry@;
            payload.entries.push(entry);
            assert(entries_model(payload.entries@) =~= entries_model(before).push(e));
        },
    }
}

/// The models of `es` with entry `k` removed.
proof fn lemma_entries_model_remove(es: Seq<NativeClass>, k: int)
    requires
        0 <= k < es.len(),
    ensures
        entries_model(es.remove(k)) == entries_model(es).remove(k),
{
    assert(entries_model(es.remove(k)) =~= entries_model(es).remove(k));
}

/// Moves the first entry of `remaining` with native hash `nh`, if any, to the
/// end of `ordered`.
fn take_first(ordered: &mut Vec<NativeClass>, remaining: &mut Vec<NativeClass>, nh: u32)
    ensures
        (entries_model(final(ordered)@), entries_model(final(remaining)@)) == take_first_with(
            entries_model(old(ordered)@),
            entries_model(old(remaining)@),
            nh,
        ),
{
    if let Some(index) = entry_index(remaining, nh) {
        let ghost o = ordered@;
        let ghost r = remaining@;
        proof {
            lemma_entries_model_remove(r, index as int);
        }
        let entry = remaining.remove(index);
        ordered.push(entry);
        assert(entries_model(ordered@) =~= entries_model(o).push(entries_model(r)[index as int]));
    }
}

/// Orders the entries of `payload` by `order`: for each native hash of
/// `order` the first entry with it, then the entries `order` does not name,
/// then the save-file detail.
fn reorder(payload: &mut SavePayload, order: &[u32])
    ensures
        final(payload)@.entries == reorder_spec(old(payload)@.entries, order@),
{
    let ghost es = payload@.entries;
    let mut remaining: Vec<NativeClass> = Vec::new();
    std::mem::swap(&mut remaining, &mut payload.entries);
    let mut ordered: Vec<NativeClass> = Vec::new();
    let mut i: usize = 0;
    assert(order@.skip(0) =~= order@);
    assert(entries_model(ordered@) =~= Seq::<EntryModel>::empty());
    while i < order.len()
        invariant
            i <= order@.len(),
            reorder_pass(Seq::empty(), es, order@) == reorder_pass(
                entries_model(ordered@),
                entries_model(remaining@),
                order@.skip(i as int),
            ),
        decreases order@.len() - i,
    {
        assert(order@.skip(i as int)[0] == order@[i as int]);
        assert(order@.skip(i as int).drop_first() =~= order@.skip(i + 1));
        take_first(&mut ordered, &mut remaining, order[i]);
        i = i + 1;
    }
    let ghost o = entries_model(ordered@);
    let ghost r = entries_model(remaining@);
    assert(reorder_pass(o, r, order@.skip(i as int)) == (o, r));
    match entry_index(&ordered, SAVE_FILE_DETAIL) {
        Some(index) => {
            let ghost ov = ordered@;
            proof {
                lemma_entries_model_remove(ov, index as int);
            }
            let detail = ordered.remove(index);
            ordered.append(&mut remaining);
            ordered.push(detail);
            assert(entries_model(ordered@) =~= o.remove(index as int) + r + seq![o[index as int]]);
        },
        None => {
            ordered.append(&mut remaining);
            assert(entries_model(ordered@) =~= o + r);
        },
    }
    payload.entries = ordered;
}

// ---------------------------------------------------------------------------
// The Steam patches
// ---------------------------------------------------------------------------
/// The load flags a Steam system save's load info has.
pub open spec fn load_flags_spec() -> FieldModel {
    array_field_spec(0xbba2_0186, U8, 1, zero_rows_spec(16, 1))
}

/// `es` with the load flags added to the load info class, if there is one.
pub open spec fn patch_load_info_spec(es: Seq<EntryModel>) -> Seq<EntryModel> {
    match find_entry_from(es, 0x0b19_f75b, 0xe6a6_9e8a, 0) {
        Some(k) => with_class_fields(
            es,
            k,
            insert_before_version_spec(es[k].class.fields, load_flags_spec()),
        ),
        None => es,
    }
}

/// The model of `entries` after the class of entry `k` became `class`, of the same hash.
proof fn lemma_entries_model_set_class(entries: Seq<NativeClass>, k: int, class: Class)
    requires
        0 <= k < entries.len(),
        class@.hash == entries[k].class.hash,
    ensures
        entries_model(
            entries.update(k, NativeClass { native_hash: entries[k].native_hash, class }),
        ) == with_class_fields(entries_model(entries), k, class@.fields),
{
    assert(entries_model(entries)[k] == entry_model(entries[k]));
    assert(entries_model(
        entries.update(k, NativeClass { native_hash: entries[k].native_hash, class }),
    ) =~= with_class_fields(entries_model(entries), k, class@.fields));
}

/// Replaces the class of entry `k` by `class`, which has the same hash.
fn set_class(payload: &mut SavePayload, k: usize, class: Class)
    requires
        k < old(payload).entries@.len(),
        class@.hash == old(payload)@.entries[k as int].class.hash,
    ensures
        final(payload)@.entries == with_class_fields(old(payload)@.entries, k as int, class@.fields),
{
    let ghost before = payload.entries@;
    let native_hash = payload.entries[k].native_hash;
    assert(payload@.entries[k as int] == entry_model(before[k as int]));
    payload.entries.set(k, NativeClass { native_hash, class });
    proof {
        lemma_entries_model_set_class(before, k as int, class);
        assert(payload.entries@ == before.update(
            k as int,
            NativeClass { native_hash: before[k as int].native_hash, class },
        ));
    }
}

/// Adds the load flags to the load info class.
fn patch_load_info(payload: &mut SavePayload)
    ensures
        final(payload)@.entries == patch_load_info_spec(old(payload)@.entries),
{
    let k = match top_class_index(payload, 0x0b19_f75b, 0xe6a6_9e8a) {
        Some(k) => k,
        None => return,
    };
    let rows = zero_rows(16, 1);
    assert(rows_view(rows@) =~= zero_rows_spec(16, 1));
    let field = array_field(0xbba2_0186, U8, 1, rows);
    assert(payload@.entries[k as int] == entry_model(payload.entries@[k as int]));
    let mut class = clone_class(&payload.entries[k].class);
    insert_before_version(&mut class, field);
    set_class(payload, k, class);
}

/// The hashes of the DLC system fields a Steam save keeps, in order.
pub open spec fn dlc_hashes() -> Seq<u32> {
    seq![0x1fc1_b1b3, 0x3811_b01d, 0x4f12_7348, VERSION_FIELD]
}

/// For each hash of `hashes` in turn, the first field of `fs` with it, where there is one.
pub open spec fn pick_fields(fs: Seq<FieldModel>, hashes: Seq<u32>) -> Seq<FieldModel>
    decreases hashes.len(),
{
    if hashes.len() == 0 {
        Seq::empty()
    } else {
        let rest = pick_fields(fs, hashes.drop_first());
        match first_field_with(fs, hashes[0], 0) {
            Some(k) => seq![fs[k]] + rest,
            None => rest,
        }
    }
}

/// The available-DLC field of a Steam save: the DLC flags under their Steam
/// hash, or empty flags where the save has none.
pub open spec fn dlc_available_spec(fs: Seq<FieldModel>) -> FieldModel {
    match first_field_with(fs, 0x3811_b01d, 0) {
        Some(k) => FieldModel { hash: 0x0a50_d2dc, field_type: fs[k].field_type, value: fs[k].value },
        None => empty_dlc_flags_spec(),
    }
}

/// The DLC system fields of a Steam save: the kept fields, with the
/// available-DLC field third and the last kept field last.
pub open spec fn dlc_fields_spec(fs: Seq<FieldModel>) -> Seq<FieldModel> {
    let picked = pick_fields(fs, dlc_hashes());
    picked.drop_last().insert(2, dlc_available_spec(fs)).push(picked.last())
}

/// The DLC system class, if there is one, has at least three of the kept fields.
pub open spec fn dlc_system_patchable(es: Seq<EntryModel>) -> bool {
    match find_entry_from(es, 0x4d64_87d4, 0xa0a6_441d, 0) {
        Some(k) => pick_fields(es[k].class.fields, dlc_hashes()).len() >= 3,
        None => true,
    }
}

/// `es` with the DLC system class in its Steam shape, if there is one.
pub open spec fn patch_dlc_system_spec(es: Seq<EntryModel>) -> Seq<EntryModel> {
    match find_entry_from(es, 0x4d64_87d4, 0xa0a6_441d, 0) {
        Some(k) => with_class_fields(es, k, dlc_fields_spec(es[k].class.fields)),
        None => es,
    }
}

/// The DLC system fields of a Steam save, from those of `fields`.
fn dlc_fields(fields: &Vec<Field>) -> (r: Vec<Field>)
    requires
        pick_fields(fields_model(fields@), dlc_hashes()).len() >= 3,
    ensures
        fields_model(r@) == dlc_fields_spec(fields_model(fields@)),
{
    let ghost fs = fields_model(fields@);
    proof {
        lemma_fields_model(fields@);
    }
    let available = match field_index(fields, 0x3811_b01d) {
        Some(j) => {
            let Field { hash: _, field_type, value } = clone_field(&fields[j]);
            Field { hash: 0x0a50_d2dc, field_type, value }
        },
        None => empty_dlc_flags(),
    };
    assert(available@ == dlc_available_spec(fs));
    let hashes: [u32; 4] = [0x1fc1_b1b3, 0x3811_b01d, 0x4f12_7348, VERSION_FIELD];
    assert(hashes@ =~= dlc_hashes());
    let mut picked: Vec<Field> = Vec::new();
    let mut i: usize = 0;
    assert(hashes@.skip(0) =~= hashes@);
    assert(fields_model(picked@) =~= Seq::<FieldModel>::empty());
    while i < 4
        invariant
            i <= 4,
            hashes@ == dlc_hashes(),
            fs == fields_model(fields@),
            fs.len() == fields@.len(),
            forall|j: int| 0 <= j < fs.len() ==> #[trigger] fs[j] == field_model(fields@[j]),
            fields_model(picked@) + pick_fields(fs, hashes@.skip(i as int)) == pick_fields(
                fs,
                dlc_hashes(),
            ),
        decreases 4 - i,
    {
        let ghost before = picked@;
        assert(hashes@.skip(i as int)[0] == hashes@[i as int]);
        assert(hashes@.skip(i as int).drop_first() =~= hashes@.skip(i + 1));
        match field_index(fields, hashes[i]) {
            Some(j) => {
                let f = clone_field(&fields[j]);
                picked.push(f);
                proof {
                    lemma_fields_model(picked@);
                    lemma_fields_model(before);
                    assert(fields_model(picked@) =~= fields_model(before) + seq![fs[j as int]]);
                    assert(fields_model(picked@) + pick_fields(fs, hashes@.skip(i + 1))
                        =~= fields_model(before) + pick_fields(fs, hashes@.skip(i as int)));
                }
            },
            None => {},
        }
        i = i + 1;
    }
    assert(hashes@.skip(4) =~= Seq::<u32>::empty());
    assert(fields_model(picked@) + Seq::<FieldModel>::empty() =~= fields_model(picked@));
    let ghost all = picked@;
    proof {
        lemma_fields_model(all);
    }
    let version = picked.pop();
    picked.insert(2, available);
    match version {
        Some(v) => {
            picked.push(v);
        },
        None => {},
    }
    proof {
        lemma_fields_model(picked@);
        let spec = dlc_fields_spec(fs);
        assert(fields_model(picked@) =~= spec);
    }
    picked
}

/// Puts the DLC system class into its Steam shape.
fn patch_dlc_system(payload: &mut SavePayload)
    requires
        dlc_system_patchable(old(payload)@.entries),
    ensures
        final(payload)@.entries == patch_dlc_system_spec(old(payload)@.entries),
{
    let k = match top_class_index(payload, 0x4d64_87d4, 0xa0a6_441d) {
        Some(k) => k,
        None => return,
    };
    assert(payload@.entries[k as int] == entry_model(payload.entries@[k as int]));
    let fields = dlc_fields(&payload.entries[k].class.fields);
    let class = Class { hash: payload.entries[k].class.hash, fields };
    set_class(payload, k, class);
}

/// The hunter GUID of `es`: the 16 bytes of the hunter's GUID field, or 16
/// zero bytes where it is missing or of another size.
pub open spec fn hunter_id_spec(es: Seq<EntryModel>) -> Seq<u8> {
    match find_entry_from(es, 0x355c_8c4f, 0xaf6e_a643, 0) {
        Some(k) => match first_field_with(es[k].class.fields, 0x0a96_0102, 0) {
            Some(j) => match es[k].class.fields[j].value {
                ValueModel::Scalar { bytes, .. } => if bytes.len() == 16 {
                    bytes
                } else {
                    zeros(16)
                },
                _ => zeros(16),
            },
            None => zeros(16),
        },
        None => zeros(16),
    }
}

/// `es` with the hunter GUID copied into the character system class as its
/// consistency identifier, if there is such a class.
pub open spec fn patch_character_consistency_id_spec(es: Seq<EntryModel>) -> Seq<EntryModel> {
    match find_entry_from(es, 0x356f_270b, 0x5766_f30b, 0) {
        Some(k) => with_class_fields(
            es,
            k,
            insert_before_version_spec(
                es[k].class.fields,
                scalar_field_spec(0xe40f_c0cd, STRUCT, hunter_id_spec(es)),
            ),
        ),
        None => es,
    }
}

/// The hunter GUID of `payload`.
fn hunter_id(payload: &SavePayload) -> (r: Vec<u8>)
    ensures
        r@ == hunter_id_spec(payload@.entries),
{
    let k = match top_class_index(payload, 0x355c_8c4f, 0xaf6e_a643) {
        Some(k) => k,
        None => return zero_bytes(16),
    };
    assert(payload@.entries[k as int] == entry_model(payload.entries@[k as int]));
    let fields = &payload.entries[k].class.fields;
    let j = match field_index(fields, 0x0a96_0102) {
        Some(j) => j,
        None => return zero_bytes(16),
    };
    proof {
        lemma_fields_model(fields@);
    }
    match scalar_bytes(&fields[j]) {
        Some(bytes) => {
            if bytes.len() == 16 {
                copy_row(bytes)
            } else {
                zero_bytes(16)
            }
        },
        None => zero_bytes(16),
    }
}

/// Copies the hunter GUID into the character system class.
fn patch_character_consistency_id(payload: &mut SavePayload)
    ensures
        final(payload)@.entries == patch_character_consistency_id_spec(old(payload)@.entries),
{
    let id = hunter_id(payload);
    let k = match top_class_index(payload, 0x356f_270b, 0x5766_f30b) {
        Some(k) => k,
        None => return,
    };
    assert(payload@.entries[k as int] == entry_model(payload.entries@[k as int]));
    let mut class = clone_class(&payload.entries[k].class);
    insert_before_version(&mut class, scalar_field(0xe40f_c0cd, STRUCT, id));
    set_class(payload, k, class);
}

/// The product fields a Steam telemetry snapshot has, after those of `fs`.
pub open spec fn telemetry_fields_spec(fs: Seq<FieldModel>) -> Seq<FieldModel> {
    let f1 = push_if_missing_spec(fs, empty_class_array_field_spec(0xff28_f5f3));
    let f2 = push_if_missing_spec(f1, empty_class_array_field_spec(0x85b7_7a5a));
    let f3 = push_if_missing_spec(f2, empty_class_array_field_spec(0x503b_7ec1));
    let f4 = push_if_missing_spec(f3, empty_class_array_field_spec(0x698a_e462));
    let f5 = push_if_missing_spec(f4, scalar_field_spec(0x6e23_2145, S64, zeros(8)));
    let f6 = push_if_missing_spec(f5, empty_class_array_field_spec(0x0a36_0ef6));
    let f7 = push_if_missing_spec(f6, empty_class_array_field_spec(0xcb7a_2960));
    let f8 = push_if_missing_spec(f7, empty_class_array_field_spec(0x4627_d929));
    push_if_missing_spec(f8, scalar_field_spec(0x640a_f498, S64, zeros(8)))
}

/// `es` with the Steam telemetry fields added to the product class of the
/// telemetry snapshot, if there is one.
pub open spec fn patch_pc_telemetry_spec(es: Seq<EntryModel>) -> Seq<EntryModel> {
    match find_entry_from(es, 0x1322_883a, 0x8b6c_3ddc, 0) {
        Some(k) => {
            let fs = es[k].class.fields;
            match first_field_with(fs, 0x0d01_1e4c, 0) {
                Some(j) => match fs[j].value {
                    ValueModel::Class(c) => if c.hash == 0x9532_0424 {
                        with_class_fields(
                            es,
                            k,
                            fs.update(
                                j,
                                FieldModel {
                                    hash: fs[j].hash,
                                    field_type: fs[j].field_type,
                                    value: ValueModel::Class(
                                        ClassModel {
                                            hash: c.hash,
                                            fields: telemetry_fields_spec(c.fields),
                                        },
                                    ),
                                },
                            ),
                        )
                    } else {
                        es
                    },
                    _ => es,
                },
                None => es,
            }
        },
        None => es,
    }
}

/// Adds the Steam telemetry fields to a product class.
fn push_telemetry_fields(product: &mut Class)
    ensures
        final(product)@ == (ClassModel {
            hash: old(product)@.hash,
            fields: telemetry_fields_spec(old(product)@.fields),
        }),
{
    push_if_missing(product, empty_class_array_field(0xff28_f5f3));
    push_if_missing(product, empty_class_array_field(0x85b7_7a5a));
    push_if_missing(product, empty_class_array_field(0x503b_7ec1));
    push_if_missing(product, empty_class_array_field(0x698a_e462));
    push_if_missing(product, scalar_field(0x6e23_2145, S64, zero_bytes(8)));
    push_if_missing(product, empty_class_array_field(0x0a36_0ef6));
    push_if_missing(product, empty_class_array_field(0xcb7a_2960));
    push_if_missing(product, empty_class_array_field(0x4627_d929));
    push_if_missing(product, scalar_field(0x640a_f498, S64, zero_bytes(8)));
}

/// The product class held by `field`, if it holds one.
fn product_class(field: &Field) -> (r: Option<Class>)
    ensures
        r matches Some(c) ==> field@.value == ValueModel::Class(c@) && c@.hash == 0x9532_0424,
        r is None ==> !(field@.value matches ValueModel::Class(c) && c.hash == 0x9532_0424),
{
    match &field.value {
        FieldValue::Class(c) => {
            if c.hash == 0x9532_0424 {
                Some(clone_class(c))
            } else {
                None
            }
        },
        _ => None,
    }
}

/// Adds the Steam telemetry fields to the telemetry snapshot's product class.
fn patch_pc_telemetry(payload: &mut SavePayload)
    ensures
        final(payload)@.entries == patch_pc_telemetry_spec(old(payload)@.entries),
{
    let k = match top_class_index(payload, 0x1322_883a, 0x8b6c_3ddc) {
        Some(k) => k,
        None => return,
    };
    assert(payload@.entries[k as int] == entry_model(payload.entries@[k as int]));
    let j = match field_index(&payload.entries[k].class.fields, 0x0d01_1e4c) {
        Some(j) => j,
        None => return,
    };
    proof {
        lemma_fields_model(payload.entries@[k as int].class.fields@);
    }
    let mut product = match product_class(&payload.entries[k].class.fields[j]) {
        Some(c) => c,
        None => return,
    };
    push_telemetry_fields(&mut product);
    let hash = payload.entries[k].class.fields[j].hash;
    let field_type = payload.entries[k].class.fields[j].field_type;
    let mut snapshot = clone_class(&payload.entries[k].class);
    let ghost old_fields = snapshot.fields@;
    proof {
        lemma_fields_model(old_fields);
        assert(fields_model(old_fields)[j as int] == field_model(
            payload.entries@[k as int].class.fields@[j as int],
        ));
    }
    snapshot.fields.set(j, Field { hash, field_type, value: FieldValue::Class(Box::new(product)) });
    proof {
        lemma_fields_model(old_fields);
        lemma_fields_model(snapshot.fields@);
        assert(fields_model(snapshot.fields@) =~= fields_model(old_fields).update(
            j as int,
            field_model(snapshot.fields@[j as int]),
        ));
    }
    set_class(payload, k, snapshot);
}

// ---------------------------------------------------------------------------
// Whole profiles
// ---------------------------------------------------------------------------
/// The order of the entries of a Steam system save.
pub open spec fn steam_system_order() -> Seq<u32> {
    seq![
        0xe2a3_ea98,
        0xb0ca_70c9,
        0x913e_cbe8,
        0x649e_38ff,
        0x0b19_f75b,
        0x4d64_87d4,
        0x5a04_dbf9,
        0x8195_71e6,
        SAVE_FILE_DETAIL,
    ]
}

/// The order of the entries of a Steam slot save.
pub open spec fn steam_slot_order() -> Seq<u32> {
    seq![
        0xd6f4_726d,
        0x1322_883a,
        0x9ccc_3b1e,
        0xadc0_75b6,
        0x20d9_167c,
        0x9381_9625,
        0x8512_ab74,
        0x553d_33b8,
        0x6834_4f29,
        0xb212_9149,
        0xb0ca_70c9,
        0xa812_38c6,
        0xbb43_1b76,
        0x1e32_797d,
        0x355c_8c4f,
        0x8c6f_b4c6,
        0xe58f_b6c9,
        0x1f61_3294,
        0xf2fb_669a,
        0xe825_861b,
        0x356f_270b,
        0xef78_287f,
        0xf5e0_18a4,
        0xcf6c_5091,
        0x81fc_c8f4,
        0xab10_9098,
        0xdc00_f45c,
        0xddb8_e034,
        0x4423_bc21,
        0x5a04_dbf9,
        0x164d_2e71,
        0x51dc_d6fb,
        0xb9c1_5dcf,
        0xaaca_38e3,
        0x22a8_b022,
        0x3da5_b9de,
        0xa21e_01ad,
        0x0386_f39d,
        0xd5f9_1c48,
        SAVE_FILE_DETAIL,
    ]
}

/// A system save patched into the Steam shape.
pub open spec fn system_profile_spec(es: Seq<EntryModel>) -> Seq<EntryModel> {
    let patched = patch_dlc_system_spec(patch_load_info_spec(es));
    let with_checker = upsert_spec(patched, steam_version_checker_spec());
    let with_options = upsert_spec(with_checker, steam_system_options_spec());
    let with_keys = upsert_spec(with_options, steam_key_config_spec());
    reorder_spec(with_keys, steam_system_order())
}

/// A slot save patched into the Steam shape.
pub open spec fn slot_profile_spec(es: Seq<EntryModel>) -> Seq<EntryModel> {
    let patched = patch_pc_telemetry_spec(patch_character_consistency_id_spec(es));
    let with_quests = upsert_spec(patched, external_quest_data_spec());
    let with_options = upsert_spec(with_quests, steam_character_options_spec());
    reorder_spec(with_options, steam_slot_order())
}

/// `es` has an entry with native hash `nh`.
pub open spec fn has_entry(es: Seq<EntryModel>, nh: u32) -> bool {
    first_entry_with(es, nh, 0) is Some
}

/// Where a class does not move: the first match of a key is the same after
/// the fields of another entry changed.
pub proof fn lemma_find_entry_with_class_fields(
    es: Seq<EntryModel>,
    k: int,
    fs: Seq<FieldModel>,
    nh: u32,
    ch: u32,
    i: int,
)
    requires
        0 <= k < es.len(),
        0 <= i,
    ensures
        find_entry_from(with_class_fields(es, k, fs), nh, ch, i) == find_entry_from(es, nh, ch, i),
    decreases es.len() - i,
{
    if i < es.len() {
        lemma_find_entry_with_class_fields(es, k, fs, nh, ch, i + 1);
    }
}

/// Adding the load flags keeps the DLC system class as it was.
proof fn lemma_load_info_keeps_dlc(es: Seq<EntryModel>)
    requires
        dlc_system_patchable(es),
    ensures
        dlc_system_patchable(patch_load_info_spec(es)),
{
    crate::merge_laws::lemma_find_entry_from(es, 0x0b19_f75b, 0xe6a6_9e8a, 0);
    crate::merge_laws::lemma_find_entry_from(es, 0x4d64_87d4, 0xa0a6_441d, 0);
    if let Some(k) = find_entry_from(es, 0x0b19_f75b, 0xe6a6_9e8a, 0) {
        let fs = insert_before_version_spec(es[k].class.fields, load_flags_spec());
        lemma_find_entry_with_class_fields(es, k, fs, 0x4d64_87d4, 0xa0a6_441d, 0);
    }
}

/// Patches a system save into the Steam shape.
fn patch_system(payload: &mut SavePayload)
    requires
        dlc_system_patchable(old(payload)@.entries),
    ensures
        final(payload)@.entries == system_profile_spec(old(payload)@.entries),
{
    proof {
        lemma_load_info_keeps_dlc(payload@.entries);
    }
    patch_load_info(payload);
    patch_dlc_system(payload);
    upsert(payload, steam_version_checker());
    upsert(payload, steam_system_options());
    upsert(payload, steam_key_config());
    let order = vec![
        0xe2a3_ea98,
        0xb0ca_70c9,
        0x913e_cbe8,
        0x649e_38ff,
        0x0b19_f75b,
        0x4d64_87d4,
        0x5a04_dbf9,
        0x8195_71e6,
        SAVE_FILE_DETAIL,
    ];
    assert(order@ =~= steam_system_order());
    reorder(payload, order.as_slice());
}

/// Patches a slot save into the Steam shape.
fn patch_slot(payload: &mut SavePayload)
    ensures
        final(payload)@.entries == slot_profile_spec(old(payload)@.entries),
{
    patch_character_consistency_id(payload);
    patch_pc_telemetry(payload);
    upsert(payload, external_quest_data());
    upsert(payload, steam_character_options());
    let order = vec![
        0xd6f4_726d,
        0x1322_883a,
        0x9ccc_3b1e,
        0xadc0_75b6,
        0x20d9_167c,
        0x9381_9625,
        0x8512_ab74,
        0x553d_33b8,
        0x6834_4f29,
        0xb212_9149,
        0xb0ca_70c9,
        0xa812_38c6,
        0xbb43_1b76,
        0x1e32_797d,
        0x355c_8c4f,
        0x8c6f_b4c6,
        0xe58f_b6c9,
        0x1f61_3294,
        0xf2fb_669a,
        0xe825_861b,
        0x356f_270b,
        0xef78_287f,
        0xf5e0_18a4,
        0xcf6c_5091,
        0x81fc_c8f4,
        0xab10_9098,
        0xdc00_f45c,
        0xddb8_e034,
        0x4423_bc21,
        0x5a04_dbf9,
        0x164d_2e71,
        0x51dc_d6fb,
        0xb9c1_5dcf,
        0xaaca_38e3,
        0x22a8_b022,
        0x3da5_b9de,
        0xa21e_01ad,
        0x0386_f39d,
        0xd5f9_1c48,
        SAVE_FILE_DETAIL,
    ];
    assert(order@ =~= steam_slot_order());
    reorder(payload, order.as_slice());
}

/// Why no Steam schema could be built from a class stream.
#[derive(Debug, Clone, Copy, PartialEq, Eq, Structural)]
pub enum TemplateError {
    /// The stream has neither the system marker nor the slot marker.
    UnknownProfile,
}

impl TemplateError {
    /// This error as a sentence.
    pub fn message(&self) -> (r: String)
        ensures
            r@ == "save payload is neither a recognized system save nor a slot save"@,
    {
        "save payload is neither a recognized system save nor a slot save".to_owned()
    }
}

/// What the Steam schema built from `es` is: the system profile for a system
/// save, the slot profile for a slot save.
pub open spec fn steam_template_spec(es: Seq<EntryModel>) -> Result<Seq<EntryModel>, TemplateError> {
    if has_entry(es, SYSTEM_MARKER) {
        Ok(system_profile_spec(es))
    } else if has_entry(es, SLOT_MARKER) {
        Ok(slot_profile_spec(es))
    } else {
        Err(TemplateError::UnknownProfile)
    }
}

/// The class stream `es` can be patched: a system save's DLC system class,
/// if it has one, has at least three of the fields a Steam save keeps.
pub open spec fn steam_template_defined(es: Seq<EntryModel>) -> bool {
    has_entry(es, SYSTEM_MARKER) ==> dlc_system_patchable(es)
}

/// Whether the Steam schema can be built from `source`: see `steam_template_defined`.
pub fn can_build_steam_template(source: &SavePayload) -> (r: bool)
    ensures
        r == steam_template_defined(source@.entries),
{
    if entry_index(&source.entries, SYSTEM_MARKER).is_none() {
        return true;
    }
    let k = match top_class_index(source, 0x4d64_87d4, 0xa0a6_441d) {
        Some(k) => k,
        None => return true,
    };
    assert(source@.entries[k as int] == entry_model(source.entries@[k as int]));
    let fields = &source.entries[k].class.fields;
    proof {
        lemma_fields_model(fields@);
    }
    let hashes: [u32; 4] = [0x1fc1_b1b3, 0x3811_b01d, 0x4f12_7348, VERSION_FIELD];
    assert(hashes@ =~= dlc_hashes());
    let mut count: usize = 0;
    let mut i: usize = 0;
    let ghost fs = fields_model(fields@);
    assert(hashes@.skip(0) =~= hashes@);
    while i < 4
        invariant
            i <= 4,
            count <= i,
            hashes@ == dlc_hashes(),
            fs == fields_model(fields@),
            count + pick_fields(fs, hashes@.skip(i as int)).len() == pick_fields(
                fs,
                dlc_hashes(),
            ).len(),
        decreases 4 - i,
    {
        assert(hashes@.skip(i as int)[0] == hashes@[i as int]);
        assert(hashes@.skip(i as int).drop_first() =~= hashes@.skip(i + 1));
        if field_index(fields, hashes[i]).is_some() {
            count = count + 1;
        }
        i = i + 1;
    }
    assert(hashes@.skip(4) =~= Seq::<u32>::empty());
    count >= 3
}

/// Builds a Steam schema from a Switch class stream: a system save gets the
/// Steam system classes and order, a slot save the Steam slot classes and
/// order; any other stream is refused.
pub fn steam_template_from_source(source: &SavePayload) -> (r: Result<SavePayload, TemplateError>)
    requires
        steam_template_defined(source@.entries),
    ensures
        r matches Ok(p) ==> steam_template_spec(source@.entries) == Ok::<
            Seq<EntryModel>,
            TemplateError,
        >(p@.entries),
        r matches Err(e) ==> steam_template_spec(source@.entries) == Err::<
            Seq<EntryModel>,
            TemplateError,
        >(e),
{
    let mut target = source.clone();
    if entry_index(&source.entries, SYSTEM_MARKER).is_some() {
        patch_system(&mut target);
    } else if entry_index(&source.entries, SLOT_MARKER).is_some() {
        patch_slot(&mut target);
    } else {
        return Err(TemplateError::UnknownProfile);
    }
    Ok(target)
}

} // verus!
