//! The mathematical model of the RE Engine class stream: what a payload is
//! (`PayloadModel` and the types under it), how it is written as bytes
//! (`w_*`) and how bytes are read back (`r_*`).
use vstd::prelude::*;

use crate::bytes::{le_u16_at, le_u32_at, resized, u16s_le, u32_le, u32s_le};
use crate::text::{decimal, decimal_text, hex8_text, hex_digits, signed_decimal, signed_decimal_text};

verus! {

/// Marks a class array that is followed by a table of class hashes.
pub const ARRAY_MARKER: u32 = 0xffee_ffee;

/// Field type of a nested array.
pub const FIELD_TYPE_ARRAY: i32 = -1;

/// Field type of a UTF-16 string.
pub const FIELD_TYPE_STRING: i32 = 0x0f;

/// Field type of a nested class.
pub const FIELD_TYPE_CLASS: i32 = 0x11;

/// Array type of an array of values.
pub const ARRAY_TYPE_VALUE: i32 = 0;

/// Array type of an array of classes.
pub const ARRAY_TYPE_CLASS: i32 = 1;

/// Why a class stream could not be read or written.
#[derive(Debug, Clone, Copy, PartialEq, Eq)]
pub enum PayloadError {
    /// The data ended before a value was complete.
    UnexpectedEnd,
    /// A position did not fit in `usize`.
    OffsetOverflow,
    /// An aligned position fell before the alignment origin.
    InvalidAlignmentOrigin,
    /// Alignment moved past the end of the data.
    AlignmentOutOfBounds,
    /// A class declares more fields than the remaining data can hold.
    ImpossibleFieldCount { class_hash: u32, field_count: u32 },
    /// An array type other than value (0) or class (1).
    UnsupportedArrayType(i32),
    /// A string declares more code units than the remaining data can hold.
    StringExceedsPayload(u32),
    /// A sized value of size zero.
    ZeroSizedValue,
    /// A sized value whose byte count differs from its declared size.
    SizeMismatch { declared: u32, actual: usize },
    /// A field whose value does not match its field type.
    ValueTypeMismatch(u32),
    /// A class-hash table that does not match its array.
    HashTableMismatch,
    /// An array value that does not match the array's member type.
    ArrayMemberMismatch,
    /// A class with more than `u32::MAX` fields.
    TooManyFields,
    /// An array with more than `u32::MAX` values.
    ArrayTooLarge,
    /// A string with more than `u32::MAX` code units.
    StringTooLong,
}

/// The sentence of a class-stream error.
pub open spec fn payload_error_text(e: PayloadError) -> Seq<char> {
    match e {
        PayloadError::UnexpectedEnd => "unexpected end of payload"@,
        PayloadError::OffsetOverflow => "offset overflow"@,
        PayloadError::InvalidAlignmentOrigin => "invalid alignment origin"@,
        PayloadError::AlignmentOutOfBounds => "alignment exceeds payload bounds"@,
        PayloadError::ImpossibleFieldCount { class_hash, field_count } => "class "@ + hex_digits(
            class_hash as nat,
            8,
        ) + " declares an impossible field count of "@ + decimal(field_count as nat),
        PayloadError::UnsupportedArrayType(t) => "unsupported array type "@ + signed_decimal(t as int),
        PayloadError::StringExceedsPayload(n) => "string length "@ + decimal(n as nat)
            + " exceeds the remaining payload"@,
        PayloadError::ZeroSizedValue => "zero-sized value"@,
        PayloadError::SizeMismatch { declared, actual } => "sized value declares "@ + decimal(
            declared as nat,
        ) + " bytes but contains "@ + decimal(actual as nat),
        PayloadError::ValueTypeMismatch(h) => "field "@ + hex_digits(h as nat, 8)
            + " has a value that does not match its type"@,
        PayloadError::HashTableMismatch => "class-array hash table does not match its values"@,
        PayloadError::ArrayMemberMismatch => "array value does not match its declared member type"@,
        PayloadError::TooManyFields => "too many class fields"@,
        PayloadError::ArrayTooLarge => "array is too large"@,
        PayloadError::StringTooLong => "string is too long"@,
    }
}

impl PayloadError {
    /// This error as a sentence.
    pub fn message(&self) -> (r: String)
        ensures
            r@ == payload_error_text(*self),
    {
        match *self {
            PayloadError::UnexpectedEnd => "unexpected end of payload".to_owned(),
            PayloadError::OffsetOverflow => "offset overflow".to_owned(),
            PayloadError::InvalidAlignmentOrigin => "invalid alignment origin".to_owned(),
            PayloadError::AlignmentOutOfBounds => "alignment exceeds payload bounds".to_owned(),
            PayloadError::ImpossibleFieldCount { class_hash, field_count } => {
                let mut text = String::from_str("class ");
                text.append(hex8_text(class_hash).as_str());
                text.append(" declares an impossible field count of ");
                text.append(decimal_text(field_count as u64).as_str());
                text
            },
            PayloadError::UnsupportedArrayType(t) => {
                let mut text = String::from_str("unsupported array type ");
                text.append(signed_decimal_text(t as i64).as_str());
                text
            },
            PayloadError::StringExceedsPayload(n) => {
                let mut text = String::from_str("string length ");
                text.append(decimal_text(n as u64).as_str());
                text.append(" exceeds the remaining payload");
                text
            },
            PayloadError::ZeroSizedValue => "zero-sized value".to_owned(),
            PayloadError::SizeMismatch { declared, actual } => {
                let mut text = String::from_str("sized value declares ");
                text.append(decimal_text(declared as u64).as_str());
                text.append(" bytes but contains ");
                text.append(decimal_text(actual as u64).as_str());
                text
            },
            PayloadError::ValueTypeMismatch(h) => {
                let mut text = String::from_str("field ");
                text.append(hex8_text(h).as_str());
                text.append(" has a value that does not match its type");
                text
            },
            PayloadError::HashTableMismatch => {
                "class-array hash table does not match its values".to_owned()
            },
            PayloadError::ArrayMemberMismatch => {
                "array value does not match its declared member type".to_owned()
            },
            PayloadError::TooManyFields => "too many class fields".to_owned(),
            PayloadError::ArrayTooLarge => "array is too large".to_owned(),
            PayloadError::StringTooLong => "string is too long".to_owned(),
        }
    }
}

/// A whole class stream: its top-level entries in order.
pub struct PayloadModel {
    pub entries: Seq<EntryModel>,
}

/// A top-level entry: a native-field hash and its class.
pub struct EntryModel {
    pub native_hash: u32,
    pub class: ClassModel,
}

/// A class: its hash and its fields in order.
pub struct ClassModel {
    pub hash: u32,
    pub fields: Seq<FieldModel>,
}

/// A field: its hash, its type code and its value.
pub struct FieldModel {
    pub hash: u32,
    pub field_type: i32,
    pub value: ValueModel,
}

/// The value of a field.
pub enum ValueModel {
    Array(ArrayModel),
    Class(ClassModel),
    String(Seq<u16>),
    Scalar { size: u32, bytes: Seq<u8> },
}

/// An array: its member type and size, array type, optional class-hash table and values.
pub struct ArrayModel {
    pub member_type: i32,
    pub member_size: u32,
    pub array_type: i32,
    pub class_hashes: Option<Seq<u32>>,
    pub values: Seq<ElementModel>,
}

/// One value of an array.
pub enum ElementModel {
    Array(ArrayModel),
    Class(ClassModel),
    String(Seq<u16>),
    Scalar(Seq<u8>),
}

// ---------------------------------------------------------------------------
// Alignment
// ---------------------------------------------------------------------------
/// `x` rounded up to a multiple of four.
pub open spec fn align4_up(x: int) -> int {
    ((x + 3) / 4) * 4
}

/// The position that aligning for a value of `mask + 1` bytes gives: the bits of
/// `mask` are cleared from `abs + mask`.
pub open spec fn sized_align(abs: usize, mask: usize) -> usize {
    ((abs + mask) as usize) & !mask
}

// ---------------------------------------------------------------------------
// Writing
// ---------------------------------------------------------------------------
/// Output `out` (written after `off` bytes of container header) padded with zeros
/// to the next absolute multiple of four.
pub open spec fn w_align4(out: Seq<u8>, off: int) -> Result<Seq<u8>, PayloadError> {
    let abs = off + out.len();
    if abs + 3 > usize::MAX {
        Err(PayloadError::OffsetOverflow)
    } else {
        Ok(resized(out, align4_up(abs) - off))
    }
}

/// Output `out` padded so that a value of `size` bytes starts at its alignment.
pub open spec fn w_align_sized(out: Seq<u8>, off: int, size: int) -> Result<
    Seq<u8>,
    PayloadError,
> {
    let abs = off + out.len();
    if abs > usize::MAX || abs + (size - 1) > usize::MAX {
        Err(PayloadError::OffsetOverflow)
    } else {
        let aligned = sized_align(abs as usize, (size - 1) as usize);
        if aligned < off {
            Err(PayloadError::InvalidAlignmentOrigin)
        } else {
            Ok(resized(out, aligned - off))
        }
    }
}

/// Output after a sized value of declared `size` with content `bytes`.
pub open spec fn w_sized(out: Seq<u8>, off: int, size: u32, bytes: Seq<u8>) -> Result<
    Seq<u8>,
    PayloadError,
> {
    if size == 0 || bytes.len() != size {
        Err(PayloadError::SizeMismatch { declared: size, actual: bytes.len() as usize })
    } else if size != 1 {
        match w_align_sized(out, off, size as int) {
            Ok(o) => Ok(o + bytes),
            Err(e) => Err(e),
        }
    } else {
        Ok(out + bytes)
    }
}

/// Output after a string: alignment, its length and its UTF-16 code units.
pub open spec fn w_string(out: Seq<u8>, off: int, s: Seq<u16>) -> Result<Seq<u8>, PayloadError> {
    match w_align4(out, off) {
        Err(e) => Err(e),
        Ok(o) => if s.len() > u32::MAX {
            Err(PayloadError::StringTooLong)
        } else {
            Ok(o + u32_le(s.len() as u32) + u16s_le(s))
        },
    }
}

/// Output after a class: field count, class hash and fields.
pub closed spec fn w_class(out: Seq<u8>, off: int, c: ClassModel) -> Result<Seq<u8>, PayloadError>
    decreases c, 0int,
{
    if c.fields.len() > u32::MAX {
        Err(PayloadError::TooManyFields)
    } else {
        w_fields(out + u32_le(c.fields.len() as u32) + u32_le(c.hash), off, c.fields)
    }
}

/// Output after each field of `fs` in order.
pub closed spec fn w_fields(out: Seq<u8>, off: int, fs: Seq<FieldModel>) -> Result<
    Seq<u8>,
    PayloadError,
>
    decreases fs, 0int,
{
    if fs.len() == 0 {
        Ok(out)
    } else {
        match w_field(out, off, fs[0]) {
            Ok(o) => w_fields(o, off, fs.drop_first()),
            Err(e) => Err(e),
        }
    }
}

/// Output after a field's value, before the field's closing alignment.
pub closed spec fn w_field_value(out: Seq<u8>, off: int, f: FieldModel) -> Result<
    Seq<u8>,
    PayloadError,
>
    decreases f, 0int,
{
    match f.value {
        ValueModel::Array(a) => if f.field_type == FIELD_TYPE_ARRAY {
            w_array(out, off, a)
        } else {
            Err(PayloadError::ValueTypeMismatch(f.hash))
        },
        ValueModel::Class(c) => if f.field_type == FIELD_TYPE_CLASS {
            w_class(out, off, c)
        } else {
            Err(PayloadError::ValueTypeMismatch(f.hash))
        },
        ValueModel::String(s) => if f.field_type == FIELD_TYPE_STRING {
            w_string(out, off, s)
        } else {
            Err(PayloadError::ValueTypeMismatch(f.hash))
        },
        ValueModel::Scalar { size, bytes } => match w_align4(out, off) {
            Ok(o) => w_sized(o + u32_le(size), off, size, bytes),
            Err(e) => Err(e),
        },
    }
}

/// Output after a field: hash, type, value and alignment to four bytes.
pub closed spec fn w_field(out: Seq<u8>, off: int, f: FieldModel) -> Result<Seq<u8>, PayloadError>
    decreases f, 1int,
{
    match w_field_value(out + u32_le(f.hash) + u32_le(f.field_type as u32), off, f) {
        Ok(o) => w_align4(o, off),
        Err(e) => Err(e),
    }
}

/// Output after an array's header, hash table and values, before its closing alignment.
pub closed spec fn w_array_body(out: Seq<u8>, off: int, a: ArrayModel) -> Result<
    Seq<u8>,
    PayloadError,
>
    decreases a, 0int,
{
    match w_align4(out, off) {
        Err(e) => Err(e),
        Ok(o) => if a.values.len() > u32::MAX {
            Err(PayloadError::ArrayTooLarge)
        } else {
            let header = o + u32_le(a.member_type as u32) + u32_le(a.member_size) + u32_le(
                a.values.len() as u32,
            ) + u32_le(a.array_type as u32);
            match a.class_hashes {
                Some(h) => if a.array_type != ARRAY_TYPE_CLASS || h.len() != a.values.len() {
                    Err(PayloadError::HashTableMismatch)
                } else {
                    w_elements(header + u32_le(ARRAY_MARKER) + u32s_le(h), off, a, a.values)
                },
                None => w_elements(header, off, a, a.values),
            }
        },
    }
}

/// Output after an array and its closing alignment.
pub closed spec fn w_array(out: Seq<u8>, off: int, a: ArrayModel) -> Result<Seq<u8>, PayloadError>
    decreases a, 1int,
{
    match w_array_body(out, off, a) {
        Ok(o) => w_align4(o, off),
        Err(e) => Err(e),
    }
}

/// Output after each value of `vs`, members of array `a`.
pub closed spec fn w_elements(out: Seq<u8>, off: int, a: ArrayModel, vs: Seq<ElementModel>) -> Result<
    Seq<u8>,
    PayloadError,
>
    decreases vs, 0int,
{
    if vs.len() == 0 {
        Ok(out)
    } else {
        match w_element(out, off, a, vs[0]) {
            Ok(o) => w_elements(o, off, a, vs.drop_first()),
            Err(e) => Err(e),
        }
    }
}

/// Output after one value `v` of array `a`.
pub closed spec fn w_element(out: Seq<u8>, off: int, a: ArrayModel, v: ElementModel) -> Result<
    Seq<u8>,
    PayloadError,
>
    decreases v, 0int,
{
    match v {
        ElementModel::Array(inner) => if a.array_type == ARRAY_TYPE_VALUE && a.member_type
            == FIELD_TYPE_ARRAY {
            w_array(out, off, inner)
        } else {
            Err(PayloadError::ArrayMemberMismatch)
        },
        ElementModel::Class(c) => if a.array_type == ARRAY_TYPE_CLASS {
            w_class(out, off, c)
        } else {
            Err(PayloadError::ArrayMemberMismatch)
        },
        ElementModel::String(s) => if a.array_type == ARRAY_TYPE_VALUE && a.member_type
            == FIELD_TYPE_STRING {
            w_string(out, off, s)
        } else {
            Err(PayloadError::ArrayMemberMismatch)
        },
        ElementModel::Scalar(b) => if a.array_type == ARRAY_TYPE_VALUE {
            w_sized(out, off, a.member_size, b)
        } else {
            Err(PayloadError::ArrayMemberMismatch)
        },
    }
}

/// Output after each top-level entry of `es`: native hash, then class.
pub closed spec fn w_entries(out: Seq<u8>, off: int, es: Seq<EntryModel>) -> Result<
    Seq<u8>,
    PayloadError,
>
    decreases es.len(),
{
    if es.len() == 0 {
        Ok(out)
    } else {
        match w_class(out + u32_le(es[0].native_hash), off, es[0].class) {
            Ok(o) => w_entries(o, off, es.drop_first()),
            Err(e) => Err(e),
        }
    }
}

/// The bytes of payload `p` written for a stream that starts `off` bytes into its container.
pub open spec fn encode_spec(p: PayloadModel, off: int) -> Result<Seq<u8>, PayloadError> {
    w_entries(Seq::empty(), off, p.entries)
}


// ---------------------------------------------------------------------------
// The writing functions above, one equation each
// ---------------------------------------------------------------------------
/// What `w_class` writes.
pub proof fn lemma_w_class_def(out: Seq<u8>, off: int, c: ClassModel)
    ensures
        w_class(out, off, c) == if c.fields.len() > u32::MAX {
            Err(PayloadError::TooManyFields)
        } else {
            w_fields(out + u32_le(c.fields.len() as u32) + u32_le(c.hash), off, c.fields)
        },
{
}

/// `w_fields` writes nothing for no fields, and field `i` before the fields after it.
pub proof fn lemma_w_fields_def(out: Seq<u8>, off: int, fs: Seq<FieldModel>, i: int)
    ensures
        w_fields(out, off, Seq::empty()) == Ok::<Seq<u8>, PayloadError>(out),
        0 <= i < fs.len() ==> w_fields(out, off, fs.skip(i)) == match w_field(out, off, fs[i]) {
            Ok(o) => w_fields(o, off, fs.skip(i + 1)),
            Err(e) => Err::<Seq<u8>, PayloadError>(e),
        },
{
    if 0 <= i < fs.len() {
        assert(fs.skip(i)[0] == fs[i]);
        assert(fs.skip(i).drop_first() =~= fs.skip(i + 1));
    }
}

/// What `w_field` and `w_field_value` write.
pub proof fn lemma_w_field_def(out: Seq<u8>, off: int, f: FieldModel)
    ensures
        w_field(out, off, f) == match w_field_value(
            out + u32_le(f.hash) + u32_le(f.field_type as u32),
            off,
            f,
        ) {
            Ok(o) => w_align4(o, off),
            Err(e) => Err(e),
        },
        w_field_value(out, off, f) == match f.value {
            ValueModel::Array(a) => if f.field_type == FIELD_TYPE_ARRAY {
                w_array(out, off, a)
            } else {
                Err(PayloadError::ValueTypeMismatch(f.hash))
            },
            ValueModel::Class(c) => if f.field_type == FIELD_TYPE_CLASS {
                w_class(out, off, c)
            } else {
                Err(PayloadError::ValueTypeMismatch(f.hash))
            },
            ValueModel::String(s) => if f.field_type == FIELD_TYPE_STRING {
                w_string(out, off, s)
            } else {
                Err(PayloadError::ValueTypeMismatch(f.hash))
            },
            ValueModel::Scalar { size, bytes } => match w_align4(out, off) {
                Ok(o) => w_sized(o + u32_le(size), off, size, bytes),
                Err(e) => Err(e),
            },
        },
{
}

/// What `w_array` and `w_array_body` write.
pub proof fn lemma_w_array_def(out: Seq<u8>, off: int, a: ArrayModel)
    ensures
        w_array(out, off, a) == match w_array_body(out, off, a) {
            Ok(o) => w_align4(o, off),
            Err(e) => Err(e),
        },
        w_array_body(out, off, a) == match w_align4(out, off) {
            Err(e) => Err(e),
            Ok(o) => if a.values.len() > u32::MAX {
                Err(PayloadError::ArrayTooLarge)
            } else {
                let header = o + u32_le(a.member_type as u32) + u32_le(a.member_size) + u32_le(
                    a.values.len() as u32,
                ) + u32_le(a.array_type as u32);
                match a.class_hashes {
                    Some(h) => if a.array_type != ARRAY_TYPE_CLASS || h.len() != a.values.len() {
                        Err(PayloadError::HashTableMismatch)
                    } else {
                        w_elements(header + u32_le(ARRAY_MARKER) + u32s_le(h), off, a, a.values)
                    },
                    None => w_elements(header, off, a, a.values),
                }
            },
        },
{
}

/// `w_elements` writes nothing for no values, and value `i` before the values after it.
pub proof fn lemma_w_elements_def(out: Seq<u8>, off: int, a: ArrayModel, vs: Seq<ElementModel>, i: int)
    ensures
        w_elements(out, off, a, Seq::empty()) == Ok::<Seq<u8>, PayloadError>(out),
        0 <= i < vs.len() ==> w_elements(out, off, a, vs.skip(i)) == match w_element(
            out,
            off,
            a,
            vs[i],
        ) {
            Ok(o) => w_elements(o, off, a, vs.skip(i + 1)),
            Err(e) => Err::<Seq<u8>, PayloadError>(e),
        },
{
    if 0 <= i < vs.len() {
        assert(vs.skip(i)[0] == vs[i]);
        assert(vs.skip(i).drop_first() =~= vs.skip(i + 1));
    }
}

/// What `w_element` writes.
pub proof fn lemma_w_element_def(out: Seq<u8>, off: int, a: ArrayModel, v: ElementModel)
    ensures
        w_element(out, off, a, v) == match v {
            ElementModel::Array(inner) => if a.array_type == ARRAY_TYPE_VALUE && a.member_type
                == FIELD_TYPE_ARRAY {
                w_array(out, off, inner)
            } else {
                Err(PayloadError::ArrayMemberMismatch)
            },
            ElementModel::Class(c) => if a.array_type == ARRAY_TYPE_CLASS {
                w_class(out, off, c)
            } else {
                Err(PayloadError::ArrayMemberMismatch)
            },
            ElementModel::String(s) => if a.array_type == ARRAY_TYPE_VALUE && a.member_type
                == FIELD_TYPE_STRING {
                w_string(out, off, s)
            } else {
                Err(PayloadError::ArrayMemberMismatch)
            },
            ElementModel::Scalar(b) => if a.array_type == ARRAY_TYPE_VALUE {
                w_sized(out, off, a.member_size, b)
            } else {
                Err(PayloadError::ArrayMemberMismatch)
            },
        },
{
}

/// `w_entries` writes nothing for no entries, and entry `i` before the entries after it.
#[verifier::rlimit(40)]
pub proof fn lemma_w_entries_def(out: Seq<u8>, off: int, es: Seq<EntryModel>, i: int)
    ensures
        w_entries(out, off, Seq::empty()) == Ok::<Seq<u8>, PayloadError>(out),
        0 <= i < es.len() ==> w_entries(out, off, es.skip(i)) == match w_class(
            out + u32_le(es[i].native_hash),
            off,
            es[i].class,
        ) {
            Ok(o) => w_entries(o, off, es.skip(i + 1)),
            Err(e) => Err::<Seq<u8>, PayloadError>(e),
        },
{
    if 0 <= i < es.len() {
        let rest = es.skip(i);
        assert(rest.len() > 0);
        assert(w_entries(out, off, rest) == match w_class(
            out + u32_le(rest[0].native_hash),
            off,
            rest[0].class,
        ) {
            Ok(o) => w_entries(o, off, rest.drop_first()),
            Err(e) => Err::<Seq<u8>, PayloadError>(e),
        });
        assert(rest[0] == es[i]);
        assert(rest.drop_first() =~= es.skip(i + 1));
    }
}

// ---------------------------------------------------------------------------
// Reading
// ---------------------------------------------------------------------------
/// Position `pos` of data `d` (which starts `off` bytes into its container)
/// moved to the next absolute multiple of four.
pub open spec fn r_align4(d: Seq<u8>, off: int, pos: int) -> Result<int, PayloadError> {
    let abs = off + pos;
    if abs > usize::MAX || abs + 3 > usize::MAX {
        Err(PayloadError::OffsetOverflow)
    } else if align4_up(abs) - off > d.len() {
        Err(PayloadError::AlignmentOutOfBounds)
    } else {
        Ok(align4_up(abs) - off)
    }
}

/// Position `pos` moved to where a value of `size` bytes starts.
pub open spec fn r_align_sized(d: Seq<u8>, off: int, pos: int, size: int) -> Result<
    int,
    PayloadError,
> {
    let abs = off + pos;
    if abs > usize::MAX || abs + (size - 1) > usize::MAX {
        Err(PayloadError::OffsetOverflow)
    } else {
        let aligned = sized_align(abs as usize, (size - 1) as usize);
        if aligned < off {
            Err(PayloadError::InvalidAlignmentOrigin)
        } else if aligned - off > d.len() {
            Err(PayloadError::AlignmentOutOfBounds)
        } else {
            Ok(aligned - off)
        }
    }
}

/// The `n` bytes at `pos`, and the position after them.
pub open spec fn r_bytes(d: Seq<u8>, pos: int, n: int) -> Result<(Seq<u8>, int), PayloadError> {
    if pos + n > usize::MAX {
        Err(PayloadError::OffsetOverflow)
    } else if pos + n > d.len() {
        Err(PayloadError::UnexpectedEnd)
    } else {
        Ok((d.subrange(pos, pos + n), pos + n))
    }
}

/// Whether four bytes remain at `pos`; a `u32` read there succeeds exactly then.
pub open spec fn has4(d: Seq<u8>, pos: int) -> bool {
    pos + 4 <= d.len()
}

/// The `u32` that a peek at `pos` sees, if four bytes remain.
pub open spec fn r_peek_u32(d: Seq<u8>, pos: int) -> Option<u32> {
    if 0 <= pos && pos + 4 <= d.len() {
        Some(le_u32_at(d, pos))
    } else {
        None
    }
}

/// A sized value of declared `size` at `pos`: its bytes and the position after it.
pub open spec fn r_sized(d: Seq<u8>, off: int, pos: int, size: u32) -> Result<
    (Seq<u8>, int),
    PayloadError,
> {
    if size == 0 {
        Err(PayloadError::ZeroSizedValue)
    } else if size != 1 {
        match r_align_sized(d, off, pos, size as int) {
            Ok(p) => r_bytes(d, p, size as int),
            Err(e) => Err(e),
        }
    } else {
        r_bytes(d, pos, 1)
    }
}

/// The `n` little-endian `u16` values at `pos`.
pub open spec fn u16s_at(d: Seq<u8>, pos: int, n: nat) -> Seq<u16> {
    Seq::new(n, |i: int| le_u16_at(d, pos + 2 * i))
}

/// The `n` little-endian `u32` values at `pos`.
pub open spec fn u32s_at(d: Seq<u8>, pos: int, n: nat) -> Seq<u32> {
    Seq::new(n, |i: int| le_u32_at(d, pos + 4 * i))
}

/// A string at `pos`: its code units and the position after it.
pub open spec fn r_string(d: Seq<u8>, off: int, pos: int) -> Result<(Seq<u16>, int), PayloadError> {
    match r_align4(d, off, pos) {
        Err(e) => Err(e),
        Ok(p) => if !has4(d, p) {
            Err(PayloadError::UnexpectedEnd)
        } else {
            let n = le_u32_at(d, p);
            if n > (d.len() - (p + 4)) / 2 {
                Err(PayloadError::StringExceedsPayload(n))
            } else {
                Ok((u16s_at(d, p + 4, n as nat), p + 4 + 2 * n))
            }
        },
    }
}

/// A class at `pos`, and the position after it.
pub open spec fn r_class(d: Seq<u8>, off: int, pos: int) -> Result<(ClassModel, int), PayloadError>
    decreases d.len() - pos, 0int,
{
    if pos < 0 || pos > d.len() || !has4(d, pos) || !has4(d, pos + 4) {
        Err(PayloadError::UnexpectedEnd)
    } else {
        let count = le_u32_at(d, pos);
        let hash = le_u32_at(d, pos + 4);
        if count > (d.len() - (pos + 8)) / 8 {
            Err(PayloadError::ImpossibleFieldCount { class_hash: hash, field_count: count })
        } else {
            match r_fields(d, off, pos + 8, count as int) {
                Ok((fs, p)) => Ok((ClassModel { hash, fields: fs }, p)),
                Err(e) => Err(e),
            }
        }
    }
}

/// `n` fields at `pos`, and the position after them.
pub open spec fn r_fields(d: Seq<u8>, off: int, pos: int, n: int) -> Result<
    (Seq<FieldModel>, int),
    PayloadError,
>
    decreases d.len() - pos, n + 4,
{
    if pos < 0 || pos > d.len() {
        Err(PayloadError::UnexpectedEnd)
    } else if n <= 0 {
        Ok((Seq::empty(), pos))
    } else {
        match r_field(d, off, pos) {
            Err(e) => Err(e),
            Ok((f, p)) => if p <= pos || p > d.len() {
                Err(PayloadError::UnexpectedEnd)
            } else {
                match r_fields(d, off, p, n - 1) {
                    Ok((fs, q)) => Ok((seq![f] + fs, q)),
                    Err(e) => Err(e),
                }
            },
        }
    }
}

/// A field's value of type `ft` at `pos`, and the position after it.
pub open spec fn r_field_value(d: Seq<u8>, off: int, pos: int, ft: i32) -> Result<
    (ValueModel, int),
    PayloadError,
>
    decreases d.len() - pos, 2int,
{
    if pos < 0 || pos > d.len() {
        Err(PayloadError::UnexpectedEnd)
    } else if ft == FIELD_TYPE_ARRAY {
        match r_array(d, off, pos) {
            Ok((a, p)) => Ok((ValueModel::Array(a), p)),
            Err(e) => Err(e),
        }
    } else if ft == FIELD_TYPE_CLASS {
        match r_class(d, off, pos) {
            Ok((c, p)) => Ok((ValueModel::Class(c), p)),
            Err(e) => Err(e),
        }
    } else if ft == FIELD_TYPE_STRING {
        match r_string(d, off, pos) {
            Ok((s, p)) => Ok((ValueModel::String(s), p)),
            Err(e) => Err(e),
        }
    } else {
        match r_align4(d, off, pos) {
            Err(e) => Err(e),
            Ok(p) => if !has4(d, p) {
                Err(PayloadError::UnexpectedEnd)
            } else {
                let size = le_u32_at(d, p);
                match r_sized(d, off, p + 4, size) {
                    Ok((b, q)) => Ok((ValueModel::Scalar { size, bytes: b }, q)),
                    Err(e) => Err(e),
                }
            },
        }
    }
}

/// A field at `pos`, and the position after it and its closing alignment.
pub open spec fn r_field(d: Seq<u8>, off: int, pos: int) -> Result<(FieldModel, int), PayloadError>
    decreases d.len() - pos, 3int,
{
    if pos < 0 || pos > d.len() || !has4(d, pos) || !has4(d, pos + 4) {
        Err(PayloadError::UnexpectedEnd)
    } else {
        let hash = le_u32_at(d, pos);
        let ft = le_u32_at(d, pos + 4) as i32;
        match r_field_value(d, off, pos + 8, ft) {
            Err(e) => Err(e),
            Ok((v, p)) => match r_align4(d, off, p) {
                Ok(q) => Ok((FieldModel { hash, field_type: ft, value: v }, q)),
                Err(e) => Err(e),
            },
        }
    }
}

/// The class-hash table of an array of `n` values with array type `at` whose
/// header ends at `pos`, and the position after it.
pub open spec fn r_hash_table(d: Seq<u8>, pos: int, at: i32, n: nat) -> Result<
    (Option<Seq<u32>>, int),
    PayloadError,
> {
    if at == ARRAY_TYPE_CLASS && r_peek_u32(d, pos) == Some(ARRAY_MARKER) {
        if pos + 4 + 4 * n > d.len() {
            Err(PayloadError::UnexpectedEnd)
        } else {
            Ok((Some(u32s_at(d, pos + 4, n)), pos + 4 + 4 * n))
        }
    } else {
        Ok((None, pos))
    }
}

/// An array at `pos`, without its closing alignment.
pub open spec fn r_array_body(d: Seq<u8>, off: int, pos: int) -> Result<
    (ArrayModel, int),
    PayloadError,
>
    decreases d.len() - pos, 0int,
{
    match r_align4(d, off, pos) {
        Err(e) => Err(e),
        Ok(p) => if p < pos || p + 16 > d.len() || pos < 0 {
            Err(PayloadError::UnexpectedEnd)
        } else {
            let mt = le_u32_at(d, p) as i32;
            let ms = le_u32_at(d, p + 4);
            let n = le_u32_at(d, p + 8);
            let at = le_u32_at(d, p + 12) as i32;
            if at != ARRAY_TYPE_VALUE && at != ARRAY_TYPE_CLASS {
                Err(PayloadError::UnsupportedArrayType(at))
            } else {
                match r_hash_table(d, p + 16, at, n as nat) {
                    Err(e) => Err(e),
                    Ok((hashes, q)) => match r_elements(d, off, q, n as int, at, mt, ms) {
                        Ok((vs, r)) => Ok(
                            (
                                ArrayModel {
                                    member_type: mt,
                                    member_size: ms,
                                    array_type: at,
                                    class_hashes: hashes,
                                    values: vs,
                                },
                                r,
                            ),
                        ),
                        Err(e) => Err(e),
                    },
                }
            }
        },
    }
}

/// An array at `pos`, and the position after it and its closing alignment.
pub open spec fn r_array(d: Seq<u8>, off: int, pos: int) -> Result<(ArrayModel, int), PayloadError>
    decreases d.len() - pos, 1int,
{
    if pos < 0 || pos > d.len() {
        Err(PayloadError::UnexpectedEnd)
    } else {
        match r_array_body(d, off, pos) {
            Ok((a, p)) => match r_align4(d, off, p) {
                Ok(q) => Ok((a, q)),
                Err(e) => Err(e),
            },
            Err(e) => Err(e),
        }
    }
}

/// `n` array values at `pos` of an array with array type `at`, member type
/// `mt` and member size `ms`, and the position after them.
pub open spec fn r_elements(
    d: Seq<u8>,
    off: int,
    pos: int,
    n: int,
    at: i32,
    mt: i32,
    ms: u32,
) -> Result<(Seq<ElementModel>, int), PayloadError>
    decreases d.len() - pos, n + 3,
{
    if pos < 0 || pos > d.len() {
        Err(PayloadError::UnexpectedEnd)
    } else if n <= 0 {
        Ok((Seq::empty(), pos))
    } else {
        match r_element(d, off, pos, at, mt, ms) {
            Err(e) => Err(e),
            Ok((v, p)) => if p <= pos || p > d.len() {
                Err(PayloadError::UnexpectedEnd)
            } else {
                match r_elements(d, off, p, n - 1, at, mt, ms) {
                    Ok((vs, q)) => Ok((seq![v] + vs, q)),
                    Err(e) => Err(e),
                }
            },
        }
    }
}

/// One array value at `pos`, and the position after it.
pub open spec fn r_element(d: Seq<u8>, off: int, pos: int, at: i32, mt: i32, ms: u32) -> Result<
    (ElementModel, int),
    PayloadError,
>
    decreases d.len() - pos, 2int,
{
    if pos < 0 || pos > d.len() {
        Err(PayloadError::UnexpectedEnd)
    } else if at == ARRAY_TYPE_CLASS {
        match r_class(d, off, pos) {
            Ok((c, p)) => Ok((ElementModel::Class(c), p)),
            Err(e) => Err(e),
        }
    } else if mt == FIELD_TYPE_ARRAY {
        match r_array(d, off, pos) {
            Ok((a, p)) => Ok((ElementModel::Array(a), p)),
            Err(e) => Err(e),
        }
    } else if mt == FIELD_TYPE_STRING {
        match r_string(d, off, pos) {
            Ok((s, p)) => Ok((ElementModel::String(s), p)),
            Err(e) => Err(e),
        }
    } else {
        match r_sized(d, off, pos, ms) {
            Ok((b, p)) => Ok((ElementModel::Scalar(b), p)),
            Err(e) => Err(e),
        }
    }
}

/// Whether every byte of `d` from `pos` on is zero.
pub open spec fn all_zero_from(d: Seq<u8>, pos: int) -> bool {
    forall|i: int| pos <= i < d.len() ==> d[i] == 0
}

/// The top-level entries from `pos` to the end of the data; fewer than twelve
/// trailing zero bytes end the stream.
pub closed spec fn r_entries(d: Seq<u8>, off: int, pos: int) -> Result<Seq<EntryModel>, PayloadError>
    decreases d.len() - pos,
{
    if pos < 0 || pos >= d.len() {
        Ok(Seq::empty())
    } else if d.len() - pos < 12 && all_zero_from(d, pos) {
        Ok(Seq::empty())
    } else if !has4(d, pos) {
        Err(PayloadError::UnexpectedEnd)
    } else {
        let native_hash = le_u32_at(d, pos);
        match r_class(d, off, pos + 4) {
            Err(e) => Err(e),
            Ok((c, p)) => if p <= pos || p > d.len() {
                Err(PayloadError::UnexpectedEnd)
            } else {
                match r_entries(d, off, p) {
                    Ok(es) => Ok(seq![EntryModel { native_hash, class: c }] + es),
                    Err(e) => Err(e),
                }
            },
        }
    }
}

/// What `r_entries` reads at `pos`.
pub proof fn lemma_r_entries_def(d: Seq<u8>, off: int, pos: int)
    ensures
        r_entries(d, off, pos) == if pos < 0 || pos >= d.len() {
            Ok(Seq::empty())
        } else if d.len() - pos < 12 && all_zero_from(d, pos) {
            Ok(Seq::empty())
        } else if !has4(d, pos) {
            Err(PayloadError::UnexpectedEnd)
        } else {
            let native_hash = le_u32_at(d, pos);
            match r_class(d, off, pos + 4) {
                Err(e) => Err(e),
                Ok((c, p)) => if p <= pos || p > d.len() {
                    Err(PayloadError::UnexpectedEnd)
                } else {
                    match r_entries(d, off, p) {
                        Ok(es) => Ok(seq![EntryModel { native_hash, class: c }] + es),
                        Err(e) => Err(e),
                    }
                },
            }
        },
{
}

/// The payload that data `d` holds when it starts `off` bytes into its container.
pub open spec fn parse_spec(d: Seq<u8>, off: int) -> Result<PayloadModel, PayloadError> {
    match r_entries(d, off, 0) {
        Ok(es) => Ok(PayloadModel { entries: es }),
        Err(e) => Err(e),
    }
}

} // verus!
