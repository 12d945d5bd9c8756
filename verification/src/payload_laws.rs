//! What writing a class stream and reading it back give: the stream itself,
//! whenever it is unambiguous. A stream is ambiguous only where a value is
//! written under a type that reads as another kind, or where a class array
//! without hash table is followed, or starts, with the table's marker.
use vstd::prelude::*;

use crate::bytes::{
    lemma_le_lengths, lemma_u16_le_roundtrip, lemma_u32_le_roundtrip, le_u32_at, u16_le,
    u16s_le, u32_le, u32s_le, zeros,
};
use crate::payload_model::{
    all_zero_from, align4_up, lemma_r_entries_def, lemma_w_array_def, lemma_w_class_def, lemma_w_element_def,
    lemma_w_elements_def, lemma_w_entries_def, lemma_w_field_def, lemma_w_fields_def, parse_spec,
    encode_spec, r_align4, r_align_sized, r_array, r_array_body, r_class, r_element, r_elements,
    r_entries, r_field, r_field_value, r_fields, r_hash_table, r_peek_u32, r_sized, r_string,
    sized_align, u16s_at, u32s_at, w_align4, w_align_sized, w_array, w_array_body, w_class,
    w_element, w_elements, w_entries, w_field, w_field_value, w_fields, w_sized, w_string, has4,
    ArrayModel, ClassModel, ElementModel, EntryModel, FieldModel, PayloadError, PayloadModel,
    ValueModel, ARRAY_MARKER, ARRAY_TYPE_CLASS, ARRAY_TYPE_VALUE, FIELD_TYPE_ARRAY, FIELD_TYPE_CLASS,
    FIELD_TYPE_STRING,
};

verus! {

// ---------------------------------------------------------------------------
// Unambiguous payloads
// ---------------------------------------------------------------------------
/// Whether class `c` ends with a class array that has no hash table and no
/// values, where a reader looks past the end for the table's marker.
pub open spec fn ends_open_class(c: ClassModel) -> bool
    decreases c, 1int,
{
    c.fields.len() > 0 && ends_open_field(c.fields[c.fields.len() - 1])
}

/// Whether the last of the fields `fs` ends open.
pub open spec fn ends_open_fields(fs: Seq<FieldModel>) -> bool {
    fs.len() > 0 && ends_open_field(fs[fs.len() - 1])
}

/// Whether the value of field `f` ends open.
pub open spec fn ends_open_field(f: FieldModel) -> bool
    decreases f, 0int,
{
    match f.value {
        ValueModel::Array(a) => ends_open_array(a),
        ValueModel::Class(c) => ends_open_class(c),
        _ => false,
    }
}

/// Whether array `a` ends open: it is an empty class array without hash
/// table, or its last value ends open.
pub open spec fn ends_open_array(a: ArrayModel) -> bool
    decreases a, 1int,
{
    if a.values.len() == 0 {
        a.array_type == ARRAY_TYPE_CLASS && a.class_hashes is None
    } else {
        ends_open_element(a.values[a.values.len() - 1])
    }
}

/// Whether the last of the array values `vs` ends open.
pub open spec fn ends_open_elements(vs: Seq<ElementModel>) -> bool {
    vs.len() > 0 && ends_open_element(vs[vs.len() - 1])
}

/// Whether array value `v` ends open.
pub open spec fn ends_open_element(v: ElementModel) -> bool
    decreases v, 0int,
{
    match v {
        ElementModel::Array(inner) => ends_open_array(inner),
        ElementModel::Class(c) => ends_open_class(c),
        _ => false,
    }
}

/// Whether the first `u32` that array value `v` is written with is not the
/// array marker: a class's field count, an array's member type.
pub open spec fn starts_unmarked(v: ElementModel) -> bool {
    match v {
        ElementModel::Class(c) => c.fields.len() != ARRAY_MARKER,
        ElementModel::Array(inner) => inner.member_type as u32 != ARRAY_MARKER,
        _ => true,
    }
}

/// Whether class `c` reads back as itself: its fields are unambiguous.
pub open spec fn unambiguous_class(c: ClassModel) -> bool
    decreases c, 1int,
{
    unambiguous_fields(c.fields)
}

/// Whether every field of `fs` is unambiguous, and no field that ends open
/// is followed by a field whose hash is the array marker.
pub open spec fn unambiguous_fields(fs: Seq<FieldModel>) -> bool
    decreases fs, 0int,
{
    fs.len() == 0 || (unambiguous_field(fs[0]) && unambiguous_fields(fs.drop_first()) && (
    fs.len() > 1 && ends_open_field(fs[0]) ==> fs[1].hash != ARRAY_MARKER))
}

/// Whether field `f` reads back as itself: a plain value does not carry an
/// array, string or class type, and nested values are unambiguous.
pub open spec fn unambiguous_field(f: FieldModel) -> bool
    decreases f, 0int,
{
    match f.value {
        ValueModel::Array(a) => unambiguous_array(a),
        ValueModel::Class(c) => unambiguous_class(c),
        ValueModel::String(_) => true,
        ValueModel::Scalar { .. } => f.field_type != FIELD_TYPE_ARRAY && f.field_type
            != FIELD_TYPE_STRING && f.field_type != FIELD_TYPE_CLASS,
    }
}

/// Whether array `a` reads back as itself: its array type is value (0) or
/// class (1), a class array without hash table does not start with a class
/// whose field count is the array marker, and its values are unambiguous.
pub open spec fn unambiguous_array(a: ArrayModel) -> bool
    decreases a, 1int,
{
    &&& (a.array_type == ARRAY_TYPE_VALUE || a.array_type == ARRAY_TYPE_CLASS)
    &&& a.array_type == ARRAY_TYPE_CLASS && a.class_hashes is None && a.values.len() > 0
        ==> starts_unmarked(a.values[0])
    &&& unambiguous_elements(a, a.values)
}

/// Whether every value of `vs`, members of `a`, is unambiguous, and no value
/// that ends open is followed by one that starts with the array marker.
pub open spec fn unambiguous_elements(a: ArrayModel, vs: Seq<ElementModel>) -> bool
    decreases vs, 0int,
{
    vs.len() == 0 || (unambiguous_element(a, vs[0]) && unambiguous_elements(a, vs.drop_first()) && (
    vs.len() > 1 && ends_open_element(vs[0]) ==> starts_unmarked(vs[1])))
}

/// Whether value `v` of array `a` reads back as itself: a plain value does not
/// sit in an array whose member type is array or string.
pub open spec fn unambiguous_element(a: ArrayModel, v: ElementModel) -> bool
    decreases v, 0int,
{
    match v {
        ElementModel::Array(inner) => unambiguous_array(inner),
        ElementModel::Class(c) => unambiguous_class(c),
        ElementModel::String(_) => true,
        ElementModel::Scalar(_) => a.member_type != FIELD_TYPE_ARRAY && a.member_type
            != FIELD_TYPE_STRING,
    }
}

/// Whether entries `es` read back as themselves: every class is unambiguous,
/// and no class that ends open is followed by an entry whose native hash is
/// the array marker.
pub open spec fn unambiguous_entries(es: Seq<EntryModel>) -> bool {
    forall|i: int|
        0 <= i < es.len() ==> unambiguous_class(#[trigger] es[i].class) && (i + 1 < es.len()
            && ends_open_class(es[i].class) ==> es[i + 1].native_hash != ARRAY_MARKER)
}

/// Whether payload `p` reads back as itself: its entries are unambiguous.
pub open spec fn unambiguous_payload(p: PayloadModel) -> bool {
    unambiguous_entries(p.entries)
}

// ---------------------------------------------------------------------------
// Byte helpers
// ---------------------------------------------------------------------------
/// Whether `o` starts with `pre`.
pub open spec fn extends(o: Seq<u8>, pre: Seq<u8>) -> bool {
    pre.len() <= o.len() && o.subrange(0, pre.len() as int) == pre
}

/// Whether the `u32` at `pos` is not the array marker (or fewer than four bytes remain).
pub open spec fn not_marker_at(d: Seq<u8>, pos: int) -> bool {
    r_peek_u32(d, pos) != Some(ARRAY_MARKER)
}

proof fn lemma_extends_trans(a: Seq<u8>, b: Seq<u8>, c: Seq<u8>)
    requires
        extends(c, b),
        extends(b, a),
    ensures
        extends(c, a),
{
    assert(c.subrange(0, a.len() as int) =~= b.subrange(0, a.len() as int));
}

proof fn lemma_extends_concat(a: Seq<u8>, x: Seq<u8>)
    ensures
        extends(a + x, a),
{
    assert((a + x).subrange(0, a.len() as int) =~= a);
}

/// The four bytes of `u32_le(v)` in `d` read back as `v`.
proof fn lemma_read_u32(d: Seq<u8>, pre: Seq<u8>, v: u32)
    requires
        extends(d, pre + u32_le(v)),
    ensures
        has4(d, pre.len() as int),
        le_u32_at(d, pre.len() as int) == v,
        r_peek_u32(d, pre.len() as int) == Some(v),
{
    let k = pre.len() + 4;
    assert(d =~= (pre + u32_le(v)) + d.subrange(k as int, d.len() as int));
    lemma_u32_le_roundtrip(v, pre, d.subrange(k as int, d.len() as int));
}

/// A zero byte at `pos` means no array marker starts there.
proof fn lemma_zero_not_marker(d: Seq<u8>, pos: int)
    requires
        0 <= pos < d.len(),
        d[pos] == 0,
    ensures
        not_marker_at(d, pos),
{
    if pos + 4 <= d.len() {
        let v = le_u32_at(d, pos);
        let s = d[pos + 1] as int + d[pos + 2] as int * 0x100 + d[pos + 3] as int * 0x1_0000;
        assert(d[pos] as int + d[pos + 1] as int * 0x100 + d[pos + 2] as int * 0x1_0000 + d[pos
            + 3] as int * 0x100_0000 == s * 0x100);
        assert(v as int == s * 0x100);
        assert((s * 0x100) % 0x100 == 0) by (nonlinear_arith);
    }
}

/// Padding to four bytes adds zero to three zero bytes and ends aligned; reading
/// aligns to the same place.
proof fn lemma_align4(out: Seq<u8>, off: int, o: Seq<u8>, d: Seq<u8>)
    requires
        0 <= off,
        w_align4(out, off) == Ok::<Seq<u8>, PayloadError>(o),
        extends(d, o),
        off + d.len() <= usize::MAX,
    ensures
        o == out + zeros((o.len() - out.len()) as nat),
        out.len() <= o.len() <= out.len() + 3,
        (off + o.len()) % 4 == 0,
        (off + out.len()) % 4 == 0 ==> o == out,
        r_align4(d, off, out.len() as int) == Ok::<int, PayloadError>(o.len() as int),
        o.len() > out.len() ==> d[out.len() as int] == 0,
{
    let abs = off + out.len();
    assert(align4_up(abs) >= abs);
    assert(align4_up(abs) <= abs + 3);
    assert(align4_up(abs) % 4 == 0);
    if abs % 4 == 0 {
        assert(align4_up(abs) == abs);
    }
    assert(o =~= out + zeros((o.len() - out.len()) as nat));
    if o.len() > out.len() {
        assert(d[out.len() as int] == o[out.len() as int]);
    }
}

/// Aligning for a sized value adds zero bytes; reading aligns to the same place.
proof fn lemma_align_sized(out: Seq<u8>, off: int, size: int, o: Seq<u8>, d: Seq<u8>)
    requires
        0 <= off,
        1 <= size,
        w_align_sized(out, off, size) == Ok::<Seq<u8>, PayloadError>(o),
        extends(d, o),
        off + d.len() <= usize::MAX,
    ensures
        o == out + zeros((o.len() - out.len()) as nat),
        out.len() <= o.len(),
        r_align_sized(d, off, out.len() as int, size) == Ok::<int, PayloadError>(o.len() as int),
{
    let abs = (off + out.len()) as usize;
    let mask = (size - 1) as usize;
    let y = (abs + mask) as usize;
    assert((y & !mask) + (y & mask) == y && (y & mask) <= mask) by (bit_vector);
    assert(sized_align(abs, mask) >= abs);
    assert(o =~= out + zeros((o.len() - out.len()) as nat));
}

/// `(x as u32) as i32` is `x`.
proof fn lemma_i32_u32_roundtrip(x: i32)
    ensures
        (x as u32) as i32 == x,
{
    assert((x as u32) as i32 == x) by (bit_vector);
}

/// Padding to four bytes, without reading: the padding is zero to three zero bytes.
proof fn lemma_align4_ext(out: Seq<u8>, off: int, o: Seq<u8>)
    requires
        0 <= off,
        w_align4(out, off) == Ok::<Seq<u8>, PayloadError>(o),
    ensures
        o == out + zeros((o.len() - out.len()) as nat),
        out.len() <= o.len() <= out.len() + 3,
        (off + o.len()) % 4 == 0,
        (off + out.len()) % 4 == 0 ==> o == out,
        extends(o, out),
{
    let abs = off + out.len();
    assert(align4_up(abs) >= abs);
    assert(align4_up(abs) <= abs + 3);
    if abs % 4 == 0 {
        assert(align4_up(abs) == abs);
    }
    assert(o =~= out + zeros((o.len() - out.len()) as nat));
    lemma_extends_concat(out, zeros((o.len() - out.len()) as nat));
}

/// A sized value adds at least its bytes after `out`.
proof fn lemma_w_sized_ext(out: Seq<u8>, off: int, size: u32, bytes: Seq<u8>, o: Seq<u8>)
    requires
        0 <= off,
        w_sized(out, off, size, bytes) == Ok::<Seq<u8>, PayloadError>(o),
    ensures
        extends(o, out),
        o.len() >= out.len() + 1,
{
    if size != 1 {
        let oa = w_align_sized(out, off, size as int)->Ok_0;
        let abs = (off + out.len()) as usize;
        let mask = (size - 1) as usize;
        let y = (abs + mask) as usize;
        assert((y & !mask) + (y & mask) == y && (y & mask) <= mask) by (bit_vector);
        assert(oa =~= out + zeros((oa.len() - out.len()) as nat));
        lemma_extends_concat(out, zeros((oa.len() - out.len()) as nat));
        lemma_extends_concat(oa, bytes);
        lemma_extends_trans(out, oa, o);
    } else {
        lemma_extends_concat(out, bytes);
    }
}

/// A string adds at least its length after `out`.
proof fn lemma_w_string_ext(out: Seq<u8>, off: int, st: Seq<u16>, o: Seq<u8>)
    requires
        0 <= off,
        w_string(out, off, st) == Ok::<Seq<u8>, PayloadError>(o),
    ensures
        extends(o, out),
        o.len() >= out.len() + 4,
{
    let oa = w_align4(out, off)->Ok_0;
    lemma_align4_ext(out, off, oa);
    lemma_extends_concat(oa, u32_le(st.len() as u32) + u16s_le(st));
    assert(o =~= oa + (u32_le(st.len() as u32) + u16s_le(st)));
    lemma_extends_trans(out, oa, o);
}

/// A class adds its header, then at least eight bytes per field.
proof fn lemma_w_class_ext(out: Seq<u8>, off: int, c: ClassModel, o: Seq<u8>)
    requires
        0 <= off,
        w_class(out, off, c) == Ok::<Seq<u8>, PayloadError>(o),
    ensures
        c.fields.len() <= u32::MAX,
        extends(o, out + u32_le(c.fields.len() as u32) + u32_le(c.hash)),
        extends(o, out),
        o.len() >= out.len() + 8 + 8 * c.fields.len(),
    decreases c,
{
    lemma_w_class_def(out, off, c);
    let o1 = out + u32_le(c.fields.len() as u32) + u32_le(c.hash);
    lemma_w_fields_ext(o1, off, c.fields, o);
    assert(o1 =~= out + (u32_le(c.fields.len() as u32) + u32_le(c.hash)));
    lemma_extends_concat(out, u32_le(c.fields.len() as u32) + u32_le(c.hash));
    lemma_extends_trans(out, o1, o);
}

/// Fields add at least eight bytes each.
proof fn lemma_w_fields_ext(out: Seq<u8>, off: int, fs: Seq<FieldModel>, o: Seq<u8>)
    requires
        0 <= off,
        w_fields(out, off, fs) == Ok::<Seq<u8>, PayloadError>(o),
    ensures
        extends(o, out),
        o.len() >= out.len() + 8 * fs.len(),
    decreases fs,
{
    lemma_w_fields_def(out, off, fs, 0);
    assert(fs.skip(0) =~= fs);
    if fs.len() == 0 {
        assert(fs =~= Seq::<FieldModel>::empty());
        lemma_extends_concat(out, Seq::empty());
        assert(out + Seq::<u8>::empty() =~= out);
    } else {
        assert(fs.skip(1) =~= fs.drop_first());
        let o1 = w_field(out, off, fs[0])->Ok_0;
        lemma_w_field_ext(out, off, fs[0], o1);
        lemma_w_fields_ext(o1, off, fs.drop_first(), o);
        lemma_extends_trans(out, o1, o);
    }
}

/// A field adds its hash and type, then its value.
proof fn lemma_w_field_ext(out: Seq<u8>, off: int, f: FieldModel, o: Seq<u8>)
    requires
        0 <= off,
        w_field(out, off, f) == Ok::<Seq<u8>, PayloadError>(o),
    ensures
        extends(o, out + u32_le(f.hash) + u32_le(f.field_type as u32)),
        extends(o, out),
        o.len() >= out.len() + 8,
        (off + o.len()) % 4 == 0,
    decreases f,
{
    let o0 = out + u32_le(f.hash) + u32_le(f.field_type as u32);
    lemma_w_field_def(out, off, f);
    lemma_w_field_def(o0, off, f);
    let ov = w_field_value(o0, off, f)->Ok_0;
    match f.value {
        ValueModel::Array(a) => {
            lemma_w_array_ext(o0, off, a, ov);
        },
        ValueModel::Class(c) => {
            lemma_w_class_ext(o0, off, c, ov);
        },
        ValueModel::String(st) => {
            lemma_w_string_ext(o0, off, st, ov);
        },
        ValueModel::Scalar { size, bytes } => {
            let oa = w_align4(o0, off)->Ok_0;
            lemma_align4_ext(o0, off, oa);
            lemma_w_sized_ext(oa + u32_le(size), off, size, bytes, ov);
            lemma_extends_concat(oa, u32_le(size));
            lemma_extends_trans(oa, oa + u32_le(size), ov);
            lemma_extends_trans(o0, oa, ov);
        },
    }
    lemma_align4_ext(ov, off, o);
    lemma_extends_trans(o0, ov, o);
    assert(o0 =~= out + (u32_le(f.hash) + u32_le(f.field_type as u32)));
    lemma_extends_concat(out, u32_le(f.hash) + u32_le(f.field_type as u32));
    lemma_extends_trans(out, o0, o);
}

/// An array adds at least its sixteen-byte header and ends aligned.
proof fn lemma_w_array_ext(out: Seq<u8>, off: int, a: ArrayModel, o: Seq<u8>)
    requires
        0 <= off,
        w_array(out, off, a) == Ok::<Seq<u8>, PayloadError>(o),
    ensures
        extends(o, out),
        o.len() >= out.len() + 16,
        (off + o.len()) % 4 == 0,
    decreases a,
{
    lemma_w_array_def(out, off, a);
    let o1 = w_align4(out, off)->Ok_0;
    lemma_align4_ext(out, off, o1);
    let header = o1 + u32_le(a.member_type as u32) + u32_le(a.member_size) + u32_le(
        a.values.len() as u32,
    ) + u32_le(a.array_type as u32);
    let start = match a.class_hashes {
        Some(h) => header + u32_le(ARRAY_MARKER) + u32s_le(h),
        None => header,
    };
    let ob = w_array_body(out, off, a)->Ok_0;
    lemma_w_elements_ext(start, off, a, a.values, ob);
    assert(header =~= o1 + (u32_le(a.member_type as u32) + u32_le(a.member_size) + u32_le(
        a.values.len() as u32,
    ) + u32_le(a.array_type as u32)));
    lemma_extends_concat(o1, u32_le(a.member_type as u32) + u32_le(a.member_size) + u32_le(
        a.values.len() as u32,
    ) + u32_le(a.array_type as u32));
    match a.class_hashes {
        Some(h) => {
            assert(start =~= header + (u32_le(ARRAY_MARKER) + u32s_le(h)));
            lemma_extends_concat(header, u32_le(ARRAY_MARKER) + u32s_le(h));
            lemma_extends_trans(o1, header, start);
        },
        None => {},
    }
    lemma_extends_trans(o1, start, ob);
    lemma_extends_trans(out, o1, ob);
    lemma_align4_ext(ob, off, o);
    lemma_extends_trans(out, ob, o);
}

/// Array values add at least one byte each.
proof fn lemma_w_elements_ext(out: Seq<u8>, off: int, a: ArrayModel, vs: Seq<ElementModel>, o: Seq<u8>)
    requires
        0 <= off,
        w_elements(out, off, a, vs) == Ok::<Seq<u8>, PayloadError>(o),
    ensures
        extends(o, out),
        o.len() >= out.len() + vs.len(),
    decreases vs,
{
    lemma_w_elements_def(out, off, a, vs, 0);
    assert(vs.skip(0) =~= vs);
    if vs.len() == 0 {
        assert(vs =~= Seq::<ElementModel>::empty());
        lemma_extends_concat(out, Seq::empty());
        assert(out + Seq::<u8>::empty() =~= out);
    } else {
        assert(vs.skip(1) =~= vs.drop_first());
        let o1 = w_element(out, off, a, vs[0])->Ok_0;
        lemma_w_element_ext(out, off, a, vs[0], o1);
        lemma_w_elements_ext(o1, off, a, vs.drop_first(), o);
        lemma_extends_trans(out, o1, o);
    }
}

/// An array value adds at least one byte.
proof fn lemma_w_element_ext(out: Seq<u8>, off: int, a: ArrayModel, v: ElementModel, o: Seq<u8>)
    requires
        0 <= off,
        w_element(out, off, a, v) == Ok::<Seq<u8>, PayloadError>(o),
    ensures
        extends(o, out),
        o.len() >= out.len() + 1,
    decreases v,
{
    lemma_w_element_def(out, off, a, v);
    match v {
        ElementModel::Array(inner) => {
            lemma_w_array_ext(out, off, inner, o);
        },
        ElementModel::Class(c) => {
            lemma_w_class_ext(out, off, c, o);
        },
        ElementModel::String(st) => {
            lemma_w_string_ext(out, off, st, o);
        },
        ElementModel::Scalar(b) => {
            lemma_w_sized_ext(out, off, a.member_size, b, o);
        },
    }
}

/// Entries add at least twelve bytes each.
proof fn lemma_w_entries_ext(out: Seq<u8>, off: int, es: Seq<EntryModel>, o: Seq<u8>)
    requires
        0 <= off,
        w_entries(out, off, es) == Ok::<Seq<u8>, PayloadError>(o),
    ensures
        extends(o, out),
        o.len() >= out.len() + 12 * es.len(),
    decreases es.len(),
{
    lemma_w_entries_def(out, off, es, 0);
    assert(es.skip(0) =~= es);
    if es.len() == 0 {
        assert(es =~= Seq::<EntryModel>::empty());
        lemma_extends_concat(out, Seq::empty());
        assert(out + Seq::<u8>::empty() =~= out);
    } else {
        assert(es.skip(1) =~= es.drop_first());
        let o0 = out + u32_le(es[0].native_hash);
        let o1 = w_class(o0, off, es[0].class)->Ok_0;
        lemma_w_class_ext(o0, off, es[0].class, o1);
        lemma_w_entries_ext(o1, off, es.drop_first(), o);
        lemma_extends_concat(out, u32_le(es[0].native_hash));
        lemma_extends_trans(out, o0, o1);
        lemma_extends_trans(out, o1, o);
    }
}

// ---------------------------------------------------------------------------
// Reading back what was written
// ---------------------------------------------------------------------------
/// The code units written by `u16s_le` read back.
proof fn lemma_read_u16s(d: Seq<u8>, pre: Seq<u8>, st: Seq<u16>)
    requires
        extends(d, pre + u16s_le(st)),
    ensures
        u16s_at(d, pre.len() as int, st.len()) == st,
    decreases st.len(),
{
    if st.len() > 0 {
        let head = u16_le(st[0]);
        let rest = st.drop_first();
        assert(pre + u16s_le(st) =~= (pre + head) + u16s_le(rest));
        lemma_read_u16s(d, pre + head, rest);
        let k = pre.len() + 2;
        assert(d.subrange(0, k as int) =~= pre + head);
        assert(d =~= (pre + head) + d.subrange(k as int, d.len() as int));
        lemma_u16_le_roundtrip(st[0], pre, d.subrange(k as int, d.len() as int));
        let q = pre.len() as int;
        assert forall|i: int| 0 <= i < st.len() implies #[trigger] u16s_at(d, q, st.len())[i]
            == st[i] by {
            if i > 0 {
                assert(u16s_at(d, q + 2, rest.len())[i - 1] == rest[i - 1]);
                assert(q + 2 * i == (q + 2) + 2 * (i - 1));
            }
        }
        assert(u16s_at(d, pre.len() as int, st.len()) =~= st);
    } else {
        assert(u16s_at(d, pre.len() as int, st.len()) =~= st);
    }
}

/// The values written by `u32s_le` read back.
proof fn lemma_read_u32s(d: Seq<u8>, pre: Seq<u8>, h: Seq<u32>)
    requires
        extends(d, pre + u32s_le(h)),
    ensures
        u32s_at(d, pre.len() as int, h.len()) == h,
    decreases h.len(),
{
    if h.len() > 0 {
        let head = u32_le(h[0]);
        let rest = h.drop_first();
        assert(pre + u32s_le(h) =~= (pre + head) + u32s_le(rest));
        lemma_read_u32s(d, pre + head, rest);
        lemma_extends_concat(pre + head, u32s_le(rest));
        lemma_extends_trans(pre + head, pre + u32s_le(h), d);
        lemma_read_u32(d, pre, h[0]);
        let q = pre.len() as int;
        assert(pre.len() + 4 == (pre + head).len());
        assert forall|i: int| 0 <= i < h.len() implies #[trigger] u32s_at(d, q, h.len())[i]
            == h[i] by {
            if i > 0 {
                assert(u32s_at(d, q + 4, rest.len())[i - 1] == rest[i - 1]);
                assert(q + 4 * i == (q + 4) + 4 * (i - 1));
            }
        }
        assert(u32s_at(d, pre.len() as int, h.len()) =~= h);
    } else {
        assert(u32s_at(d, pre.len() as int, h.len()) =~= h);
    }
}

/// A sized value reads back.
proof fn lemma_rt_sized(out: Seq<u8>, off: int, size: u32, bytes: Seq<u8>, d: Seq<u8>, o: Seq<u8>)
    requires
        0 <= off,
        w_sized(out, off, size, bytes) == Ok::<Seq<u8>, PayloadError>(o),
        extends(d, o),
        off + d.len() <= usize::MAX,
    ensures
        r_sized(d, off, out.len() as int, size) == Ok::<(Seq<u8>, int), PayloadError>(
            (bytes, o.len() as int),
        ),
{
    let oa = if size != 1 {
        w_align_sized(out, off, size as int)->Ok_0
    } else {
        out
    };
    if size != 1 {
        lemma_extends_concat(oa, bytes);
        lemma_extends_trans(oa, o, d);
        lemma_align_sized(out, off, size as int, oa, d);
    }
    assert(d.subrange(oa.len() as int, oa.len() + size) =~= bytes) by {
        assert forall|i: int| 0 <= i < size implies d[oa.len() + i] == bytes[i] by {
            assert(d[oa.len() + i] == o[oa.len() + i]);
        }
    }
}

/// A string reads back.
proof fn lemma_rt_string(out: Seq<u8>, off: int, st: Seq<u16>, d: Seq<u8>, o: Seq<u8>)
    requires
        0 <= off,
        w_string(out, off, st) == Ok::<Seq<u8>, PayloadError>(o),
        extends(d, o),
        off + d.len() <= usize::MAX,
    ensures
        r_string(d, off, out.len() as int) == Ok::<(Seq<u16>, int), PayloadError>(
            (st, o.len() as int),
        ),
{
    let oa = w_align4(out, off)->Ok_0;
    lemma_align4_ext(out, off, oa);
    lemma_extends_concat(oa, u32_le(st.len() as u32) + u16s_le(st));
    assert(o =~= oa + (u32_le(st.len() as u32) + u16s_le(st)));
    lemma_extends_trans(oa, o, d);
    lemma_align4(out, off, oa, d);
    let pre = oa + u32_le(st.len() as u32);
    assert(o =~= pre + u16s_le(st));
    lemma_extends_concat(pre, u16s_le(st));
    lemma_extends_trans(pre, o, d);
    lemma_read_u32(d, oa, st.len() as u32);
    lemma_read_u16s(d, pre, st);
    lemma_le_lengths(st, Seq::empty());
}

/// After an array that was written, no array marker starts.
proof fn lemma_array_start(out: Seq<u8>, off: int, a: ArrayModel, o: Seq<u8>, d: Seq<u8>)
    requires
        0 <= off,
        w_array(out, off, a) == Ok::<Seq<u8>, PayloadError>(o),
        extends(d, o),
        off + d.len() <= usize::MAX,
        a.member_type as u32 != ARRAY_MARKER,
    ensures
        not_marker_at(d, out.len() as int),
{
    lemma_w_array_def(out, off, a);
    let o1 = w_align4(out, off)->Ok_0;
    lemma_w_array_ext(out, off, a, o);
    let header = o1 + u32_le(a.member_type as u32);
    let ob = w_array_body(out, off, a)->Ok_0;
    let start = match a.class_hashes {
        Some(h) => o1 + u32_le(a.member_type as u32) + u32_le(a.member_size) + u32_le(
            a.values.len() as u32,
        ) + u32_le(a.array_type as u32) + u32_le(ARRAY_MARKER) + u32s_le(h),
        None => o1 + u32_le(a.member_type as u32) + u32_le(a.member_size) + u32_le(
            a.values.len() as u32,
        ) + u32_le(a.array_type as u32),
    };
    lemma_w_elements_ext(start, off, a, a.values, ob);
    lemma_align4_ext(ob, off, o);
    lemma_extends_trans(start, ob, o);
    lemma_extends_trans(start, o, d);
    assert(d.subrange(0, header.len() as int) =~= header) by {
        assert forall|i: int| 0 <= i < header.len() implies d[i] == header[i] by {
            assert(d[i] == start[i]);
        }
    }
    lemma_align4_ext(out, off, o1);
    if o1.len() > out.len() {
        assert(d[out.len() as int] == header[out.len() as int]);
        assert(header[out.len() as int] == o1[out.len() as int]);
        lemma_zero_not_marker(d, out.len() as int);
    } else {
        lemma_read_u32(d, o1, a.member_type as u32);
    }
}

/// A class that was written reads back.
proof fn lemma_rt_class(out: Seq<u8>, off: int, c: ClassModel, d: Seq<u8>, o: Seq<u8>)
    requires
        0 <= off,
        w_class(out, off, c) == Ok::<Seq<u8>, PayloadError>(o),
        extends(d, o),
        off + d.len() <= usize::MAX,
        unambiguous_class(c),
        ends_open_class(c) ==> not_marker_at(d, o.len() as int),
    ensures
        r_class(d, off, out.len() as int) == Ok::<(ClassModel, int), PayloadError>(
            (c, o.len() as int),
        ),
    decreases c, 0int,
{
    lemma_w_class_def(out, off, c);
    lemma_w_class_ext(out, off, c, o);
    let n = c.fields.len() as u32;
    let pre = out + u32_le(n);
    let o1 = pre + u32_le(c.hash);
    lemma_extends_trans(o1, o, d);
    lemma_extends_concat(pre, u32_le(c.hash));
    lemma_extends_trans(pre, o1, d);
    lemma_read_u32(d, out, n);
    lemma_read_u32(d, pre, c.hash);
    lemma_rt_fields(o1, off, c.fields, d, o);
    assert(out.len() + 8 + 8 * c.fields.len() <= d.len());
}

/// Fields that were written read back.
proof fn lemma_rt_fields(out: Seq<u8>, off: int, fs: Seq<FieldModel>, d: Seq<u8>, o: Seq<u8>)
    requires
        0 <= off,
        w_fields(out, off, fs) == Ok::<Seq<u8>, PayloadError>(o),
        extends(d, o),
        off + d.len() <= usize::MAX,
        unambiguous_fields(fs),
        ends_open_fields(fs) ==> not_marker_at(d, o.len() as int),
    ensures
        r_fields(d, off, out.len() as int, fs.len() as int) == Ok::<
            (Seq<FieldModel>, int),
            PayloadError,
        >((fs, o.len() as int)),
    decreases fs, 0int,
{
    lemma_w_fields_def(out, off, fs, 0);
    assert(fs.skip(0) =~= fs);
    lemma_w_fields_ext(out, off, fs, o);
    if fs.len() == 0 {
        assert(fs =~= Seq::<FieldModel>::empty());
    } else {
        assert(fs.skip(1) =~= fs.drop_first());
        let rest = fs.drop_first();
        let o1 = w_field(out, off, fs[0])->Ok_0;
        lemma_w_field_ext(out, off, fs[0], o1);
        lemma_w_fields_ext(o1, off, rest, o);
        lemma_extends_trans(o1, o, d);
        if rest.len() > 0 {
            lemma_w_fields_def(o1, off, rest, 0);
            assert(rest.skip(0) =~= rest);
            let o2 = w_field(o1, off, rest[0])->Ok_0;
            lemma_w_field_ext(o1, off, rest[0], o2);
            assert(rest.skip(1) =~= rest.drop_first());
            lemma_w_fields_ext(o2, off, rest.drop_first(), o);
            lemma_extends_trans(o2, o, d);
            lemma_extends_trans(o1 + u32_le(rest[0].hash) + u32_le(rest[0].field_type as u32), o2, d);
            assert(o1 + u32_le(rest[0].hash) + u32_le(rest[0].field_type as u32) =~= (o1 + u32_le(
                rest[0].hash,
            )) + u32_le(rest[0].field_type as u32));
            lemma_extends_concat(o1 + u32_le(rest[0].hash), u32_le(rest[0].field_type as u32));
            lemma_extends_trans(o1 + u32_le(rest[0].hash), o1 + u32_le(rest[0].hash) + u32_le(
                rest[0].field_type as u32,
            ), d);
            lemma_read_u32(d, o1, rest[0].hash);
            assert(fs[1] == rest[0]);
            assert(rest[rest.len() - 1] == fs[fs.len() - 1]);
        } else {
            lemma_w_fields_def(o1, off, rest, 0);
            assert(rest =~= Seq::<FieldModel>::empty());
        }
        lemma_rt_field(out, off, fs[0], d, o1);
        lemma_rt_fields(o1, off, rest, d, o);
        assert(seq![fs[0]] + rest =~= fs);
    }
}

/// A field that was written reads back.
proof fn lemma_rt_field(out: Seq<u8>, off: int, f: FieldModel, d: Seq<u8>, o: Seq<u8>)
    requires
        0 <= off,
        w_field(out, off, f) == Ok::<Seq<u8>, PayloadError>(o),
        extends(d, o),
        off + d.len() <= usize::MAX,
        unambiguous_field(f),
        ends_open_field(f) ==> not_marker_at(d, o.len() as int),
    ensures
        r_field(d, off, out.len() as int) == Ok::<(FieldModel, int), PayloadError>(
            (f, o.len() as int),
        ),
    decreases f, 1int,
{
    let pre = out + u32_le(f.hash);
    let o0 = pre + u32_le(f.field_type as u32);
    lemma_w_field_def(out, off, f);
    lemma_w_field_ext(out, off, f, o);
    let ov = w_field_value(o0, off, f)->Ok_0;
    lemma_align4_ext(ov, off, o);
    lemma_extends_trans(ov, o, d);
    lemma_align4(ov, off, o, d);
    lemma_extends_trans(o0, o, d);
    lemma_extends_concat(pre, u32_le(f.field_type as u32));
    lemma_extends_trans(pre, o0, d);
    lemma_read_u32(d, out, f.hash);
    lemma_read_u32(d, pre, f.field_type as u32);
    lemma_i32_u32_roundtrip(f.field_type);
    assert(o0.len() == out.len() + 8);
    assert(ends_open_field(f) ==> not_marker_at(d, ov.len() as int)) by {
        if ends_open_field(f) && o.len() > ov.len() {
            lemma_zero_not_marker(d, ov.len() as int);
        }
    }
    lemma_rt_field_value(o0, off, f, d, ov);
}

/// A field value that was written reads back.
proof fn lemma_rt_field_value(o0: Seq<u8>, off: int, f: FieldModel, d: Seq<u8>, ov: Seq<u8>)
    requires
        0 <= off,
        w_field_value(o0, off, f) == Ok::<Seq<u8>, PayloadError>(ov),
        extends(d, ov),
        off + d.len() <= usize::MAX,
        unambiguous_field(f),
        ends_open_field(f) ==> not_marker_at(d, ov.len() as int),
    ensures
        r_field_value(d, off, o0.len() as int, f.field_type) == Ok::<
            (ValueModel, int),
            PayloadError,
        >((f.value, ov.len() as int)),
    decreases f, 0int,
{
    lemma_w_field_def(o0, off, f);
    match f.value {
        ValueModel::Array(a) => {
            lemma_w_array_ext(o0, off, a, ov);
            lemma_rt_array(o0, off, a, d, ov);
        },
        ValueModel::Class(c) => {
            lemma_w_class_ext(o0, off, c, ov);
            lemma_rt_class(o0, off, c, d, ov);
        },
        ValueModel::String(st) => {
            lemma_w_string_ext(o0, off, st, ov);
            lemma_rt_string(o0, off, st, d, ov);
        },
        ValueModel::Scalar { size, bytes } => {
            let oa = w_align4(o0, off)->Ok_0;
            lemma_align4_ext(o0, off, oa);
            lemma_w_sized_ext(oa + u32_le(size), off, size, bytes, ov);
            lemma_extends_trans(oa + u32_le(size), ov, d);
            lemma_extends_concat(oa, u32_le(size));
            lemma_extends_trans(oa, oa + u32_le(size), d);
            lemma_align4(o0, off, oa, d);
            lemma_read_u32(d, oa, size);
            lemma_rt_sized(oa + u32_le(size), off, size, bytes, d, ov);
        },
    }
}

/// The sixteen-byte array header reads back.
proof fn lemma_read_array_header(d: Seq<u8>, o1: Seq<u8>, mt: i32, ms: u32, n: u32, at: i32)
    requires
        extends(d, o1 + u32_le(mt as u32) + u32_le(ms) + u32_le(n) + u32_le(at as u32)),
    ensures
        o1.len() + 16 <= d.len(),
        le_u32_at(d, o1.len() as int) as i32 == mt,
        le_u32_at(d, o1.len() as int + 4) == ms,
        le_u32_at(d, o1.len() as int + 8) == n,
        le_u32_at(d, o1.len() as int + 12) as i32 == at,
{
    let h1 = o1 + u32_le(mt as u32);
    let h2 = h1 + u32_le(ms);
    let h3 = h2 + u32_le(n);
    let header = h3 + u32_le(at as u32);
    lemma_extends_concat(h3, u32_le(at as u32));
    lemma_extends_trans(h3, header, d);
    lemma_extends_concat(h2, u32_le(n));
    lemma_extends_trans(h2, h3, d);
    lemma_extends_concat(h1, u32_le(ms));
    lemma_extends_trans(h1, h2, d);
    lemma_read_u32(d, o1, mt as u32);
    lemma_read_u32(d, h1, ms);
    lemma_read_u32(d, h2, n);
    lemma_read_u32(d, h3, at as u32);
    lemma_i32_u32_roundtrip(mt);
    lemma_i32_u32_roundtrip(at);
}

/// An array that was written reads back.
proof fn lemma_rt_array(out: Seq<u8>, off: int, a: ArrayModel, d: Seq<u8>, o: Seq<u8>)
    requires
        0 <= off,
        w_array(out, off, a) == Ok::<Seq<u8>, PayloadError>(o),
        extends(d, o),
        off + d.len() <= usize::MAX,
        unambiguous_array(a),
        ends_open_array(a) ==> not_marker_at(d, o.len() as int),
    ensures
        r_array(d, off, out.len() as int) == Ok::<(ArrayModel, int), PayloadError>(
            (a, o.len() as int),
        ),
    decreases a, 1int,
{
    lemma_w_array_def(out, off, a);
    lemma_w_array_ext(out, off, a, o);
    let ob = w_array_body(out, off, a)->Ok_0;
    lemma_align4_ext(ob, off, o);
    lemma_extends_trans(ob, o, d);
    lemma_align4(ob, off, o, d);
    assert(ends_open_array(a) ==> not_marker_at(d, ob.len() as int)) by {
        if ends_open_array(a) && o.len() > ob.len() {
            lemma_zero_not_marker(d, ob.len() as int);
        }
    }
    lemma_rt_array_body(out, off, a, d, ob);
}

/// An array body (header, hash table and values) that was written reads back.
#[verifier::rlimit(60)]
proof fn lemma_rt_array_body(out: Seq<u8>, off: int, a: ArrayModel, d: Seq<u8>, ob: Seq<u8>)
    requires
        0 <= off,
        w_array_body(out, off, a) == Ok::<Seq<u8>, PayloadError>(ob),
        extends(d, ob),
        off + d.len() <= usize::MAX,
        unambiguous_array(a),
        ends_open_array(a) ==> not_marker_at(d, ob.len() as int),
    ensures
        r_array_body(d, off, out.len() as int) == Ok::<(ArrayModel, int), PayloadError>(
            (a, ob.len() as int),
        ),
    decreases a, 0int,
{
    lemma_w_array_def(out, off, a);
    let o1 = w_align4(out, off)->Ok_0;
    lemma_align4_ext(out, off, o1);
    let n = a.values.len() as u32;
    let header = o1 + u32_le(a.member_type as u32) + u32_le(a.member_size) + u32_le(n) + u32_le(
        a.array_type as u32,
    );
    let start = match a.class_hashes {
        Some(h) => header + u32_le(ARRAY_MARKER) + u32s_le(h),
        None => header,
    };
    lemma_w_elements_ext(start, off, a, a.values, ob);
    lemma_extends_trans(start, ob, d);
    match a.class_hashes {
        Some(h) => {
            assert(start =~= (header + u32_le(ARRAY_MARKER)) + u32s_le(h));
            lemma_extends_concat(header + u32_le(ARRAY_MARKER), u32s_le(h));
            lemma_extends_trans(header + u32_le(ARRAY_MARKER), start, d);
            lemma_extends_concat(header, u32_le(ARRAY_MARKER));
            lemma_extends_trans(header, header + u32_le(ARRAY_MARKER), d);
            lemma_read_u32(d, header, ARRAY_MARKER);
            lemma_read_u32s(d, header + u32_le(ARRAY_MARKER), h);
            lemma_le_lengths(Seq::empty(), h);
        },
        None => {},
    }
    lemma_read_array_header(d, o1, a.member_type, a.member_size, n, a.array_type);
    lemma_extends_concat(o1, u32_le(a.member_type as u32) + u32_le(a.member_size) + u32_le(n)
        + u32_le(a.array_type as u32));
    assert(header =~= o1 + (u32_le(a.member_type as u32) + u32_le(a.member_size) + u32_le(n)
        + u32_le(a.array_type as u32)));
    lemma_extends_trans(o1, header, d);
    lemma_align4(out, off, o1, d);
    if a.class_hashes is None && a.array_type == ARRAY_TYPE_CLASS {
        lemma_no_table_no_marker(start, off, a, d, ob);
    }
    lemma_rt_elements(start, off, a, a.values, d, ob);
    assert(r_hash_table(d, header.len() as int, a.array_type, n as nat) == Ok::<
        (Option<Seq<u32>>, int),
        PayloadError,
    >((a.class_hashes, start.len() as int)));
}

/// In a class array, the first value (or what follows an empty array) is no marker.
proof fn lemma_no_table_no_marker(start: Seq<u8>, off: int, a: ArrayModel, d: Seq<u8>, ob: Seq<u8>)
    requires
        0 <= off,
        w_elements(start, off, a, a.values) == Ok::<Seq<u8>, PayloadError>(ob),
        extends(d, ob),
        unambiguous_array(a),
        a.array_type == ARRAY_TYPE_CLASS,
        a.class_hashes is None,
        ends_open_array(a) ==> not_marker_at(d, ob.len() as int),
    ensures
        not_marker_at(d, start.len() as int),
{
    lemma_w_elements_def(start, off, a, a.values, 0);
    assert(a.values.skip(0) =~= a.values);
    if a.values.len() > 0 {
        let e0 = a.values[0];
        let oe = w_element(start, off, a, e0)->Ok_0;
        lemma_w_element_def(start, off, a, e0);
        lemma_w_element_ext(start, off, a, e0, oe);
        assert(a.values.skip(1) =~= a.values.drop_first());
        lemma_w_elements_ext(oe, off, a, a.values.drop_first(), ob);
        lemma_extends_trans(oe, ob, d);
        assert(starts_unmarked(e0));
        match e0 {
            ElementModel::Class(c) => {
                lemma_class_start(start, off, c, d, oe);
            },
            _ => {},
        }
    } else {
        assert(a.values =~= Seq::<ElementModel>::empty());
        assert(ends_open_array(a));
    }
}

/// A class that was written starts with its field count, which is no marker.
proof fn lemma_class_start(out: Seq<u8>, off: int, c: ClassModel, d: Seq<u8>, o: Seq<u8>)
    requires
        0 <= off,
        w_class(out, off, c) == Ok::<Seq<u8>, PayloadError>(o),
        extends(d, o),
        c.fields.len() != ARRAY_MARKER,
    ensures
        not_marker_at(d, out.len() as int),
{
    lemma_w_class_ext(out, off, c, o);
    let n = c.fields.len() as u32;
    lemma_extends_trans(out + u32_le(n) + u32_le(c.hash), o, d);
    lemma_extends_concat(out + u32_le(n), u32_le(c.hash));
    lemma_extends_trans(out + u32_le(n), out + u32_le(n) + u32_le(c.hash), d);
    lemma_read_u32(d, out, n);
}

/// Array values that were written read back.
proof fn lemma_rt_elements(
    out: Seq<u8>,
    off: int,
    a: ArrayModel,
    vs: Seq<ElementModel>,
    d: Seq<u8>,
    o: Seq<u8>,
)
    requires
        0 <= off,
        w_elements(out, off, a, vs) == Ok::<Seq<u8>, PayloadError>(o),
        extends(d, o),
        off + d.len() <= usize::MAX,
        unambiguous_elements(a, vs),
        ends_open_elements(vs) ==> not_marker_at(d, o.len() as int),
    ensures
        r_elements(
            d,
            off,
            out.len() as int,
            vs.len() as int,
            a.array_type,
            a.member_type,
            a.member_size,
        ) == Ok::<(Seq<ElementModel>, int), PayloadError>((vs, o.len() as int)),
    decreases vs, 0int,
{
    lemma_w_elements_def(out, off, a, vs, 0);
    assert(vs.skip(0) =~= vs);
    lemma_w_elements_ext(out, off, a, vs, o);
    if vs.len() == 0 {
        assert(vs =~= Seq::<ElementModel>::empty());
    } else {
        assert(vs.skip(1) =~= vs.drop_first());
        let rest = vs.drop_first();
        let o1 = w_element(out, off, a, vs[0])->Ok_0;
        lemma_w_element_ext(out, off, a, vs[0], o1);
        lemma_w_elements_ext(o1, off, a, rest, o);
        lemma_extends_trans(o1, o, d);
        lemma_w_element_def(out, off, a, vs[0]);
        assert(rest.len() > 0 ==> rest[rest.len() - 1] == vs[vs.len() - 1]);
        if ends_open_element(vs[0]) && rest.len() > 0 {
            lemma_w_elements_def(o1, off, a, rest, 0);
            assert(rest.skip(0) =~= rest);
            let o2 = w_element(o1, off, a, rest[0])->Ok_0;
            lemma_w_element_def(o1, off, a, rest[0]);
            lemma_w_element_ext(o1, off, a, rest[0], o2);
            assert(rest.skip(1) =~= rest.drop_first());
            lemma_w_elements_ext(o2, off, a, rest.drop_first(), o);
            lemma_extends_trans(o2, o, d);
            assert(vs[1] == rest[0]);
            assert(starts_unmarked(rest[0]));
            assert(unambiguous_elements(a, rest));
            assert(unambiguous_element(a, rest[0]));
            assert(unambiguous_element(a, vs[0]));
            match rest[0] {
                ElementModel::Array(inner) => {
                    lemma_array_start(o1, off, inner, o2, d);
                },
                ElementModel::Class(c) => {
                    lemma_class_start(o1, off, c, d, o2);
                },
                _ => {},
            }
        } else if rest.len() == 0 {
            lemma_w_elements_def(o1, off, a, rest, 0);
            assert(rest =~= Seq::<ElementModel>::empty());
        }
        lemma_rt_element(out, off, a, vs[0], d, o1);
        lemma_rt_elements(o1, off, a, rest, d, o);
        assert(seq![vs[0]] + rest =~= vs);
    }
}

/// An array value that was written reads back.
proof fn lemma_rt_element(out: Seq<u8>, off: int, a: ArrayModel, v: ElementModel, d: Seq<u8>, o: Seq<u8>)
    requires
        0 <= off,
        w_element(out, off, a, v) == Ok::<Seq<u8>, PayloadError>(o),
        extends(d, o),
        off + d.len() <= usize::MAX,
        unambiguous_element(a, v),
        ends_open_element(v) ==> not_marker_at(d, o.len() as int),
    ensures
        r_element(d, off, out.len() as int, a.array_type, a.member_type, a.member_size) == Ok::<
            (ElementModel, int),
            PayloadError,
        >((v, o.len() as int)),
    decreases v, 0int,
{
    lemma_w_element_def(out, off, a, v);
    lemma_w_element_ext(out, off, a, v, o);
    match v {
        ElementModel::Array(inner) => {
            lemma_rt_array(out, off, inner, d, o);
        },
        ElementModel::Class(c) => {
            lemma_rt_class(out, off, c, d, o);
        },
        ElementModel::String(st) => {
            lemma_rt_string(out, off, st, d, o);
        },
        ElementModel::Scalar(b) => {
            lemma_rt_sized(out, off, a.member_size, b, d, o);
        },
    }
}

/// The entries after the first of unambiguous entries are unambiguous.
proof fn lemma_unambiguous_entries_rest(es: Seq<EntryModel>)
    requires
        es.len() > 0,
        unambiguous_entries(es),
    ensures
        unambiguous_entries(es.drop_first()),
{
    let rest = es.drop_first();
    assert forall|i: int| 0 <= i < rest.len() implies unambiguous_class(#[trigger] rest[i].class)
        && (i + 1 < rest.len() && ends_open_class(rest[i].class) ==> rest[i + 1].native_hash
        != ARRAY_MARKER) by {
        assert(rest[i] == es[i + 1]);
        assert(unambiguous_class(es[i + 1].class));
        if i + 1 < rest.len() {
            assert(rest[i + 1] == es[i + 2]);
        }
    }
}

/// Entries that were written, up to the end of the data, read back.
proof fn lemma_rt_entries(out: Seq<u8>, off: int, es: Seq<EntryModel>, d: Seq<u8>)
    requires
        0 <= off,
        w_entries(out, off, es) == Ok::<Seq<u8>, PayloadError>(d),
        off + d.len() <= usize::MAX,
        unambiguous_entries(es),
    ensures
        r_entries(d, off, out.len() as int) == Ok::<Seq<EntryModel>, PayloadError>(es),
    decreases es.len(),
{
    lemma_w_entries_def(out, off, es, 0);
    assert(es.skip(0) =~= es);
    lemma_w_entries_ext(out, off, es, d);
    lemma_r_entries_def(d, off, out.len() as int);
    if es.len() == 0 {
        assert(es =~= Seq::<EntryModel>::empty());
    } else {
        assert(es.skip(1) =~= es.drop_first());
        let rest = es.drop_first();
        let o0 = out + u32_le(es[0].native_hash);
        let o1 = w_class(o0, off, es[0].class)->Ok_0;
        lemma_w_class_ext(o0, off, es[0].class, o1);
        lemma_w_entries_ext(o1, off, rest, d);
        lemma_extends_trans(o0, o1, d);
        lemma_read_u32(d, out, es[0].native_hash);
        assert(unambiguous_class(es[0].class));
        assert(rest.len() > 0 ==> rest[0] == es[1]);
        if ends_open_class(es[0].class) {
            lemma_entries_start(o1, off, rest, d);
        }
        lemma_rt_class(o0, off, es[0].class, d, o1);
        lemma_unambiguous_entries_rest(es);
        lemma_rt_entries(o1, off, rest, d);
        assert(seq![EntryModel { native_hash: es[0].native_hash, class: es[0].class }] + rest =~= es);
    }
}

/// After an entry, the next native hash (or the end of the data) is no marker.
proof fn lemma_entries_start(out: Seq<u8>, off: int, es: Seq<EntryModel>, d: Seq<u8>)
    requires
        0 <= off,
        w_entries(out, off, es) == Ok::<Seq<u8>, PayloadError>(d),
        es.len() > 0 ==> es[0].native_hash != ARRAY_MARKER,
    ensures
        not_marker_at(d, out.len() as int),
{
    lemma_w_entries_def(out, off, es, 0);
    assert(es.skip(0) =~= es);
    if es.len() > 0 {
        let o2 = w_class(out + u32_le(es[0].native_hash), off, es[0].class)->Ok_0;
        lemma_w_class_ext(out + u32_le(es[0].native_hash), off, es[0].class, o2);
        assert(es.skip(1) =~= es.drop_first());
        lemma_w_entries_ext(o2, off, es.drop_first(), d);
        lemma_extends_trans(out + u32_le(es[0].native_hash), o2, d);
        lemma_read_u32(d, out, es[0].native_hash);
    } else {
        assert(es =~= Seq::<EntryModel>::empty());
    }
}

/// Writing an unambiguous payload and reading the bytes back, at the same
/// alignment origin, gives the payload again.
pub proof fn lemma_encode_parse_roundtrip(p: PayloadModel, off: int)
    requires
        0 <= off,
        unambiguous_payload(p),
        encode_spec(p, off) is Ok,
        off + encode_spec(p, off)->Ok_0.len() <= usize::MAX,
    ensures
        parse_spec(encode_spec(p, off)->Ok_0, off) == Ok::<PayloadModel, PayloadError>(p),
{
    let d = encode_spec(p, off)->Ok_0;
    lemma_rt_entries(Seq::empty(), off, p.entries, d);
}

/// Entries that were written, followed by fewer than twelve zero bytes up to
/// the end of the data, read back: the zeros end the stream.
#[verifier::rlimit(40)]
proof fn lemma_rt_entries_padded(out: Seq<u8>, off: int, es: Seq<EntryModel>, w: Seq<u8>, k: nat)
    requires
        0 <= off,
        k < 12,
        w_entries(out, off, es) == Ok::<Seq<u8>, PayloadError>(w),
        off + w.len() + k <= usize::MAX,
        unambiguous_entries(es),
    ensures
        r_entries(w + zeros(k), off, out.len() as int) == Ok::<Seq<EntryModel>, PayloadError>(es),
    decreases es.len(),
{
    let d = w + zeros(k);
    lemma_w_entries_def(out, off, es, 0);
    assert(es.skip(0) =~= es);
    lemma_w_entries_ext(out, off, es, w);
    lemma_extends_concat(w, zeros(k));
    lemma_r_entries_def(d, off, out.len() as int);
    if es.len() == 0 {
        assert(es =~= Seq::<EntryModel>::empty());
        assert(w == out);
        assert(all_zero_from(d, out.len() as int));
    } else {
        assert(es.skip(1) =~= es.drop_first());
        let rest = es.drop_first();
        let o0 = out + u32_le(es[0].native_hash);
        let o1 = w_class(o0, off, es[0].class)->Ok_0;
        lemma_w_class_ext(o0, off, es[0].class, o1);
        lemma_w_entries_ext(o1, off, rest, w);
        lemma_extends_trans(o0, o1, w);
        lemma_extends_trans(o0, w, d);
        lemma_extends_trans(o1, w, d);
        lemma_read_u32(d, out, es[0].native_hash);
        assert(unambiguous_class(es[0].class));
        assert(rest.len() > 0 ==> rest[0] == es[1]);
        if ends_open_class(es[0].class) {
            lemma_entries_start(o1, off, rest, w);
        }
        let pos = o1.len() as int;
        if !ends_open_class(es[0].class) {
        } else if rest.len() > 0 {
            assert(pos + 4 <= w.len());
            assert(le_u32_at(d, pos) == le_u32_at(w, pos)) by {
                assert(d[pos] == w[pos] && d[pos + 1] == w[pos + 1] && d[pos + 2] == w[pos + 2]
                    && d[pos + 3] == w[pos + 3]);
            }
        } else {
            lemma_w_entries_def(o1, off, rest, 0);
            assert(rest =~= Seq::<EntryModel>::empty());
            assert(w == o1);
            if k > 0 {
                assert(d[pos] == 0);
                lemma_zero_not_marker(d, pos);
            }
        }
        assert(ends_open_class(es[0].class) ==> not_marker_at(d, pos));
        lemma_rt_class(o0, off, es[0].class, d, o1);
        lemma_unambiguous_entries_rest(es);
        lemma_rt_entries_padded(o1, off, rest, w, k);
        assert(seq![EntryModel { native_hash: es[0].native_hash, class: es[0].class }] + rest =~= es);
    }
}

/// Reading ignores zero padding: an unambiguous payload, written and followed
/// by fewer than twelve zero bytes, reads back as the payload.
pub proof fn lemma_parse_ignores_zero_padding(p: PayloadModel, off: int, padding: nat)
    requires
        0 <= off,
        padding < 12,
        unambiguous_payload(p),
        encode_spec(p, off) is Ok,
        off + encode_spec(p, off)->Ok_0.len() + padding <= usize::MAX,
    ensures
        parse_spec(encode_spec(p, off)->Ok_0 + zeros(padding), off) == Ok::<
            PayloadModel,
            PayloadError,
        >(p),
{
    let w = encode_spec(p, off)->Ok_0;
    lemma_rt_entries_padded(Seq::empty(), off, p.entries, w, padding);
}

} // verus!
