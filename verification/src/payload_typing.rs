//! Every class stream that reads back is well typed, and unambiguous: written
//! again, it reads back as itself.
use vstd::prelude::*;

use crate::payload_model::{
    align4_up, lemma_r_entries_def, encode_spec, parse_spec, r_peek_u32, EntryModel, r_align4, r_array, r_array_body, r_class, r_element,
    r_elements, r_entries, r_field, r_field_value, r_fields, r_hash_table, r_sized, has4,
    ArrayModel, ClassModel, ElementModel, FieldModel, PayloadModel, ValueModel, ARRAY_MARKER, ARRAY_TYPE_CLASS,
    ARRAY_TYPE_VALUE, FIELD_TYPE_ARRAY, FIELD_TYPE_CLASS, FIELD_TYPE_STRING,
};

use crate::payload_laws::{
    ends_open_array, ends_open_class, ends_open_element, ends_open_elements, ends_open_field,
    ends_open_fields, lemma_encode_parse_roundtrip, not_marker_at, starts_unmarked,
    unambiguous_array, unambiguous_class, unambiguous_element, unambiguous_elements,
    unambiguous_entries, unambiguous_field, unambiguous_fields, unambiguous_payload,
};

verus! {

/// Whether every field of class `c` is well typed.
pub open spec fn typed_class(c: ClassModel) -> bool
    decreases c, 1int,
{
    typed_fields(c.fields)
}

/// Whether every field of `fs` is well typed.
pub open spec fn typed_fields(fs: Seq<FieldModel>) -> bool
    decreases fs, 0int,
{
    fs.len() == 0 || (typed_field(fs[0]) && typed_fields(fs.drop_first()))
}

/// Whether field `f` holds the kind of value its type declares: an array for
/// the array type, a class for the class type, a string for the string type,
/// and otherwise a sized value holding exactly its declared nonzero size.
pub open spec fn typed_field(f: FieldModel) -> bool
    decreases f, 0int,
{
    match f.value {
        ValueModel::Array(a) => f.field_type == FIELD_TYPE_ARRAY && typed_array(a),
        ValueModel::Class(c) => f.field_type == FIELD_TYPE_CLASS && typed_class(c),
        ValueModel::String(_) => f.field_type == FIELD_TYPE_STRING,
        ValueModel::Scalar { size, bytes } => f.field_type != FIELD_TYPE_ARRAY && f.field_type
            != FIELD_TYPE_CLASS && f.field_type != FIELD_TYPE_STRING && size != 0 && bytes.len()
            == size,
    }
}

/// Whether array `a` is well typed: a value or class array, a hash table only
/// for a class array and with one hash per value, and well-typed values.
pub open spec fn typed_array(a: ArrayModel) -> bool
    decreases a, 1int,
{
    &&& (a.array_type == ARRAY_TYPE_VALUE || a.array_type == ARRAY_TYPE_CLASS)
    &&& a.class_hashes matches Some(h) ==> a.array_type == ARRAY_TYPE_CLASS && h.len()
        == a.values.len()
    &&& typed_elements(a.array_type, a.member_type, a.member_size, a.values)
}

/// Whether every value of `vs` is well typed for array type `at`, member type
/// `mt` and member size `ms`.
pub open spec fn typed_elements(at: i32, mt: i32, ms: u32, vs: Seq<ElementModel>) -> bool
    decreases vs, 0int,
{
    vs.len() == 0 || (typed_element(at, mt, ms, vs[0]) && typed_elements(at, mt, ms, vs.drop_first()))
}

/// Whether array value `v` is well typed: a class in a class array; in a value
/// array an array or a string where the member type says so, else a sized
/// value holding exactly the nonzero member size.
pub open spec fn typed_element(at: i32, mt: i32, ms: u32, v: ElementModel) -> bool
    decreases v, 0int,
{
    match v {
        ElementModel::Class(c) => at == ARRAY_TYPE_CLASS && typed_class(c),
        ElementModel::Array(inner) => at == ARRAY_TYPE_VALUE && mt == FIELD_TYPE_ARRAY
            && typed_array(inner),
        ElementModel::String(_) => at == ARRAY_TYPE_VALUE && mt == FIELD_TYPE_STRING,
        ElementModel::Scalar(b) => at == ARRAY_TYPE_VALUE && mt != FIELD_TYPE_ARRAY && mt
            != FIELD_TYPE_STRING && ms != 0 && b.len() == ms,
    }
}

/// Whether every top-level class of `p` is well typed.
pub open spec fn typed_payload(p: PayloadModel) -> bool {
    forall|i: int| 0 <= i < p.entries.len() ==> typed_class(#[trigger] p.entries[i].class)
}

proof fn lemma_r_class_typed(d: Seq<u8>, off: int, pos: int)
    ensures
        r_class(d, off, pos) matches Ok((c, _)) ==> typed_class(c),
    decreases d.len() - pos, 0int,
{
    if !(pos < 0 || pos > d.len() || !has4(d, pos) || !has4(d, pos + 4)) {
        let count = crate::bytes::le_u32_at(d, pos);
        if count <= (d.len() - (pos + 8)) / 8 {
            lemma_r_fields_typed(d, off, pos + 8, count as int);
        }
    }
}

proof fn lemma_r_fields_typed(d: Seq<u8>, off: int, pos: int, n: int)
    ensures
        r_fields(d, off, pos, n) matches Ok((fs, _)) ==> typed_fields(fs),
    decreases d.len() - pos, n + 4,
{
    if !(pos < 0 || pos > d.len()) {
        if n <= 0 {
            assert(typed_fields(Seq::<FieldModel>::empty()));
        } else {
            lemma_r_field_typed(d, off, pos);
            if let Ok((f, p)) = r_field(d, off, pos) {
                if !(p <= pos || p > d.len()) {
                    lemma_r_fields_typed(d, off, p, n - 1);
                    if let Ok((fs, q)) = r_fields(d, off, p, n - 1) {
                        let all = seq![f] + fs;
                        assert(all[0] == f);
                        assert(all.drop_first() =~= fs);
                    }
                }
            }
        }
    }
}

proof fn lemma_r_field_typed(d: Seq<u8>, off: int, pos: int)
    ensures
        r_field(d, off, pos) matches Ok((f, _)) ==> typed_field(f),
    decreases d.len() - pos, 3int,
{
    if !(pos < 0 || pos > d.len() || !has4(d, pos) || !has4(d, pos + 4)) {
        let ft = crate::bytes::le_u32_at(d, pos + 4) as i32;
        lemma_r_field_value_typed(d, off, pos + 8, ft);
    }
}

proof fn lemma_r_field_value_typed(d: Seq<u8>, off: int, pos: int, ft: i32)
    ensures
        r_field_value(d, off, pos, ft) matches Ok((v, _)) ==> forall|hash: u32|
            #[trigger] typed_field(FieldModel { hash, field_type: ft, value: v }),
    decreases d.len() - pos, 2int,
{
    if !(pos < 0 || pos > d.len()) {
        if ft == FIELD_TYPE_ARRAY {
            lemma_r_array_typed(d, off, pos);
        } else if ft == FIELD_TYPE_CLASS {
            lemma_r_class_typed(d, off, pos);
        }
    }
}

proof fn lemma_r_array_typed(d: Seq<u8>, off: int, pos: int)
    ensures
        r_array(d, off, pos) matches Ok((a, _)) ==> typed_array(a),
    decreases d.len() - pos, 1int,
{
    if !(pos < 0 || pos > d.len()) {
        lemma_r_array_body_typed(d, off, pos);
    }
}

proof fn lemma_r_array_body_typed(d: Seq<u8>, off: int, pos: int)
    ensures
        r_array_body(d, off, pos) matches Ok((a, _)) ==> typed_array(a),
    decreases d.len() - pos, 0int,
{
    if let Ok(p) = r_align4(d, off, pos) {
        if !(p < pos || p + 16 > d.len() || pos < 0) {
            let mt = crate::bytes::le_u32_at(d, p) as i32;
            let ms = crate::bytes::le_u32_at(d, p + 4);
            let n = crate::bytes::le_u32_at(d, p + 8);
            let at = crate::bytes::le_u32_at(d, p + 12) as i32;
            if at == ARRAY_TYPE_VALUE || at == ARRAY_TYPE_CLASS {
                if let Ok((hashes, q)) = r_hash_table(d, p + 16, at, n as nat) {
                    lemma_r_elements_typed(d, off, q, n as int, at, mt, ms);
                }
            }
        }
    }
}

proof fn lemma_r_elements_typed(d: Seq<u8>, off: int, pos: int, n: int, at: i32, mt: i32, ms: u32)
    requires
        at == ARRAY_TYPE_VALUE || at == ARRAY_TYPE_CLASS,
    ensures
        r_elements(d, off, pos, n, at, mt, ms) matches Ok((vs, _)) ==> typed_elements(
            at,
            mt,
            ms,
            vs,
        ) && (n >= 0 ==> vs.len() == n),
    decreases d.len() - pos, n + 3,
{
    if !(pos < 0 || pos > d.len()) {
        if n <= 0 {
            assert(typed_elements(at, mt, ms, Seq::<ElementModel>::empty()));
        } else {
            lemma_r_element_typed(d, off, pos, at, mt, ms);
            if let Ok((v, p)) = r_element(d, off, pos, at, mt, ms) {
                if !(p <= pos || p > d.len()) {
                    lemma_r_elements_typed(d, off, p, n - 1, at, mt, ms);
                    if let Ok((vs, q)) = r_elements(d, off, p, n - 1, at, mt, ms) {
                        let all = seq![v] + vs;
                        assert(all[0] == v);
                        assert(all.drop_first() =~= vs);
                    }
                }
            }
        }
    }
}

proof fn lemma_r_element_typed(d: Seq<u8>, off: int, pos: int, at: i32, mt: i32, ms: u32)
    requires
        at == ARRAY_TYPE_VALUE || at == ARRAY_TYPE_CLASS,
    ensures
        r_element(d, off, pos, at, mt, ms) matches Ok((v, _)) ==> typed_element(at, mt, ms, v),
    decreases d.len() - pos, 2int,
{
    if !(pos < 0 || pos > d.len()) {
        if at == ARRAY_TYPE_CLASS {
            lemma_r_class_typed(d, off, pos);
        } else if mt == FIELD_TYPE_ARRAY {
            lemma_r_array_typed(d, off, pos);
        }
    }
}

proof fn lemma_r_entries_typed(d: Seq<u8>, off: int, pos: int)
    ensures
        r_entries(d, off, pos) matches Ok(es) ==> forall|i: int|
            0 <= i < es.len() ==> typed_class(#[trigger] es[i].class),
    decreases d.len() - pos,
{
    lemma_r_entries_def(d, off, pos);
    if !(pos < 0 || pos >= d.len()) && !(d.len() - pos < 12
        && crate::payload_model::all_zero_from(d, pos)) && has4(d, pos) {
        lemma_r_class_typed(d, off, pos + 4);
        if let Ok((c, p)) = r_class(d, off, pos + 4) {
            if !(p <= pos || p > d.len()) {
                lemma_r_entries_typed(d, off, p);
                if let Ok(es) = r_entries(d, off, p) {
                    let native_hash = crate::bytes::le_u32_at(d, pos);
                    let all = seq![crate::payload_model::EntryModel { native_hash, class: c }] + es;
                    assert forall|i: int| 0 <= i < all.len() implies typed_class(
                        #[trigger] all[i].class,
                    ) by {
                        if i > 0 {
                            assert(all[i] == es[i - 1]);
                        }
                    }
                }
            }
        }
    }
}

/// Every payload that reads back from bytes is well typed: each value has the
/// kind that its field or array type declares, each class-array hash table
/// has one hash per value, and each sized value holds exactly its declared size.
pub proof fn lemma_parsed_payload_typed(d: Seq<u8>, off: int)
    ensures
        parse_spec(d, off) matches Ok(p) ==> typed_payload(p),
{
    lemma_r_entries_typed(d, off, 0);
}

// ---------------------------------------------------------------------------
// Every stream that reads back reads back again once rewritten
// ---------------------------------------------------------------------------
/// Position `pos` is aligned to four bytes in a stream that starts `off`
/// bytes into its container.
pub open spec fn aligned4(off: int, pos: int) -> bool {
    (off + pos) % 4 == 0
}

/// Aligning to four bytes ends aligned, and leaves an aligned position alone.
proof fn lemma_align4_up(x: int)
    ensures
        align4_up(x) % 4 == 0,
        x % 4 == 0 ==> align4_up(x) == x,
{
    assert(align4_up(x) % 4 == 0 && (x % 4 == 0 ==> align4_up(x) == x)) by (nonlinear_arith)
        requires
            align4_up(x) == ((x + 3) / 4) * 4,
    ;
}

/// A `u32` read where no marker starts is not the marker.
proof fn lemma_read_not_marker(d: Seq<u8>, pos: int)
    requires
        0 <= pos,
        has4(d, pos),
        not_marker_at(d, pos),
    ensures
        crate::bytes::le_u32_at(d, pos) != ARRAY_MARKER,
{
}

proof fn lemma_r_class_reread(d: Seq<u8>, off: int, pos: int)
    requires
        0 <= off,
    ensures
        r_class(d, off, pos) matches Ok((c, p)) ==> unambiguous_class(c) && c.fields.len()
            == crate::bytes::le_u32_at(d, pos) && (ends_open_class(c) ==> not_marker_at(d, p)
            && aligned4(off, p)),
    decreases d.len() - pos, 0int,
{
    if !(pos < 0 || pos > d.len() || !has4(d, pos) || !has4(d, pos + 4)) {
        let count = crate::bytes::le_u32_at(d, pos);
        if count <= (d.len() - (pos + 8)) / 8 {
            lemma_r_fields_reread(d, off, pos + 8, count as int);
        }
    }
}

proof fn lemma_r_fields_reread(d: Seq<u8>, off: int, pos: int, n: int)
    requires
        0 <= off,
    ensures
        r_fields(d, off, pos, n) matches Ok((fs, q)) ==> unambiguous_fields(fs) && (n >= 0
            ==> fs.len() == n) && (ends_open_fields(fs) ==> not_marker_at(d, q) && aligned4(off, q))
            && (fs.len() > 0 ==> has4(d, pos) && fs[0].hash == crate::bytes::le_u32_at(d, pos)),
    decreases d.len() - pos, n + 4,
{
    if !(pos < 0 || pos > d.len()) {
        if n <= 0 {
            assert(unambiguous_fields(Seq::<FieldModel>::empty()));
        } else {
            lemma_r_field_reread(d, off, pos);
            if let Ok((f, p)) = r_field(d, off, pos) {
                if !(p <= pos || p > d.len()) {
                    lemma_r_fields_reread(d, off, p, n - 1);
                    if let Ok((fs, q)) = r_fields(d, off, p, n - 1) {
                        let all = seq![f] + fs;
                        assert(all[0] == f);
                        assert(all.drop_first() =~= fs);
                        if fs.len() > 0 {
                            assert(all[1] == fs[0]);
                            assert(all[all.len() - 1] == fs[fs.len() - 1]);
                            if ends_open_field(f) {
                                lemma_read_not_marker(d, p);
                            }
                        } else {
                            assert(q == p);
                        }
                    }
                }
            }
        }
    }
}

#[verifier::rlimit(40)]
proof fn lemma_r_field_reread(d: Seq<u8>, off: int, pos: int)
    requires
        0 <= off,
    ensures
        r_field(d, off, pos) matches Ok((f, q)) ==> unambiguous_field(f) && (ends_open_field(f)
            ==> not_marker_at(d, q) && aligned4(off, q)) && has4(d, pos) && f.hash
            == crate::bytes::le_u32_at(d, pos),
    decreases d.len() - pos, 3int,
{
    if !(pos < 0 || pos > d.len() || !has4(d, pos) || !has4(d, pos + 4)) {
        let hash = crate::bytes::le_u32_at(d, pos);
        let ft = crate::bytes::le_u32_at(d, pos + 4) as i32;
        lemma_r_field_value_reread(d, off, pos + 8, ft);
        if let Ok((v, p)) = r_field_value(d, off, pos + 8, ft) {
            let f = FieldModel { hash, field_type: ft, value: v };
            assert(unambiguous_field(f));
            if let Ok(q) = r_align4(d, off, p) {
                if ends_open_field(f) {
                    assert(aligned4(off, p));
                    lemma_align4_up(off + p);
                    assert(q == p);
                }
                assert(r_field(d, off, pos) == Ok::<(FieldModel, int), crate::payload_model::PayloadError>((f, q)));
            }
        }
    }
}

proof fn lemma_r_field_value_reread(d: Seq<u8>, off: int, pos: int, ft: i32)
    requires
        0 <= off,
    ensures
        r_field_value(d, off, pos, ft) matches Ok((v, p)) ==> forall|hash: u32|
            #[trigger] unambiguous_field(FieldModel { hash, field_type: ft, value: v }) && (
            ends_open_field(FieldModel { hash, field_type: ft, value: v }) ==> not_marker_at(d, p)
                && aligned4(off, p)),
    decreases d.len() - pos, 2int,
{
    if !(pos < 0 || pos > d.len()) {
        if ft == FIELD_TYPE_ARRAY {
            lemma_r_array_reread(d, off, pos);
        } else if ft == FIELD_TYPE_CLASS {
            lemma_r_class_reread(d, off, pos);
        }
    }
}

proof fn lemma_r_array_reread(d: Seq<u8>, off: int, pos: int)
    requires
        0 <= off,
    ensures
        r_array(d, off, pos) matches Ok((a, q)) ==> unambiguous_array(a) && (ends_open_array(a)
            ==> not_marker_at(d, q) && aligned4(off, q)) && (aligned4(off, pos) ==> has4(d, pos)
            && a.member_type == crate::bytes::le_u32_at(d, pos) as i32),
    decreases d.len() - pos, 1int,
{
    if !(pos < 0 || pos > d.len()) {
        lemma_r_array_body_reread(d, off, pos);
        if let Ok((a, p)) = r_array_body(d, off, pos) {
            lemma_align4_up(off + p);
        }
    }
}

proof fn lemma_r_array_body_reread(d: Seq<u8>, off: int, pos: int)
    requires
        0 <= off,
    ensures
        r_array_body(d, off, pos) matches Ok((a, r)) ==> unambiguous_array(a) && (ends_open_array(
            a,
        ) ==> not_marker_at(d, r) && aligned4(off, r)) && (aligned4(off, pos) ==> has4(d, pos)
            && a.member_type == crate::bytes::le_u32_at(d, pos) as i32),
    decreases d.len() - pos, 0int,
{
    if let Ok(p) = r_align4(d, off, pos) {
        if !(p < pos || p + 16 > d.len() || pos < 0) {
            lemma_align4_up(off + pos);
            let mt = crate::bytes::le_u32_at(d, p) as i32;
            let ms = crate::bytes::le_u32_at(d, p + 4);
            let n = crate::bytes::le_u32_at(d, p + 8);
            let at = crate::bytes::le_u32_at(d, p + 12) as i32;
            if at == ARRAY_TYPE_VALUE || at == ARRAY_TYPE_CLASS {
                if let Ok((hashes, q)) = r_hash_table(d, p + 16, at, n as nat) {
                    lemma_r_elements_reread(d, off, q, n as int, at, mt, ms);
                    if let Ok((vs, r)) = r_elements(d, off, q, n as int, at, mt, ms) {
                        let a = ArrayModel {
                            member_type: mt,
                            member_size: ms,
                            array_type: at,
                            class_hashes: hashes,
                            values: vs,
                        };
                        assert(unambiguous_elements(a, vs));
                        if at == ARRAY_TYPE_CLASS && hashes is None && vs.len() > 0 {
                            assert(q == p + 16);
                            assert(r_peek_u32(d, q) != Some(ARRAY_MARKER));
                            lemma_read_not_marker(d, q);
                            assert(starts_unmarked(vs[0]));
                        }
                        if vs.len() == 0 && at == ARRAY_TYPE_CLASS && hashes is None {
                            assert(q == p + 16);
                            assert(r == q);
                        }
                        assert(unambiguous_array(a));
                    }
                }
            }
        }
    }
}

proof fn lemma_r_elements_reread(
    d: Seq<u8>,
    off: int,
    pos: int,
    n: int,
    at: i32,
    mt: i32,
    ms: u32,
)
    requires
        0 <= off,
        at == ARRAY_TYPE_VALUE || at == ARRAY_TYPE_CLASS,
    ensures
        r_elements(d, off, pos, n, at, mt, ms) matches Ok((vs, q)) ==> (forall|a: ArrayModel|
            a.member_type == mt ==> #[trigger] unambiguous_elements(a, vs)) && (n >= 0 ==> vs.len()
            == n) && (ends_open_elements(vs) ==> not_marker_at(d, q) && aligned4(off, q)) && (
        vs.len() > 0 && at == ARRAY_TYPE_CLASS ==> has4(d, pos) && vs[0] is Class
            && vs[0]->Class_0.fields.len() == crate::bytes::le_u32_at(d, pos)),
    decreases d.len() - pos, n + 3,
{
    if !(pos < 0 || pos > d.len()) {
        if n <= 0 {
            assert forall|a: ArrayModel| a.member_type == mt implies #[trigger] unambiguous_elements(
                a,
                Seq::<ElementModel>::empty(),
            ) by {}
        } else {
            lemma_r_element_reread(d, off, pos, at, mt, ms);
            if let Ok((v, p)) = r_element(d, off, pos, at, mt, ms) {
                if !(p <= pos || p > d.len()) {
                    lemma_r_elements_reread(d, off, p, n - 1, at, mt, ms);
                    if let Ok((vs, q)) = r_elements(d, off, p, n - 1, at, mt, ms) {
                        let all = seq![v] + vs;
                        assert(all[0] == v);
                        assert(all.drop_first() =~= vs);
                        if vs.len() > 0 {
                            assert(all[1] == vs[0]);
                            assert(all[all.len() - 1] == vs[vs.len() - 1]);
                            if ends_open_element(v) {
                                lemma_r_element_reread(d, off, p, at, mt, ms);
                                if at == ARRAY_TYPE_CLASS {
                                    lemma_read_not_marker(d, p);
                                } else if mt == FIELD_TYPE_ARRAY {
                                    lemma_read_not_marker(d, p);
                                    let u = crate::bytes::le_u32_at(d, p);
                                    assert((u as i32) as u32 == u) by (bit_vector);
                                }
                                assert(starts_unmarked(vs[0]));
                            }
                        } else {
                            assert(q == p);
                        }
                        assert forall|a: ArrayModel| a.member_type == mt implies #[trigger] unambiguous_elements(
                            a,
                            all,
                        ) by {
                            assert(unambiguous_elements(a, vs));
                            assert(unambiguous_element(a, v));
                        }
                    }
                }
            }
        }
    }
}

proof fn lemma_r_element_reread(d: Seq<u8>, off: int, pos: int, at: i32, mt: i32, ms: u32)
    requires
        0 <= off,
        at == ARRAY_TYPE_VALUE || at == ARRAY_TYPE_CLASS,
    ensures
        r_element(d, off, pos, at, mt, ms) matches Ok((v, p)) ==> (forall|a: ArrayModel|
            a.member_type == mt ==> #[trigger] unambiguous_element(a, v)) && (ends_open_element(v)
            ==> not_marker_at(d, p) && aligned4(off, p)) && (at == ARRAY_TYPE_CLASS ==> has4(d, pos)
            && v is Class && v->Class_0.fields.len() == crate::bytes::le_u32_at(d, pos)) && (at
            != ARRAY_TYPE_CLASS && mt == FIELD_TYPE_ARRAY && aligned4(off, pos) ==> has4(d, pos)
            && v is Array && v->Array_0.member_type == crate::bytes::le_u32_at(d, pos) as i32),
    decreases d.len() - pos, 2int,
{
    if !(pos < 0 || pos > d.len()) {
        if at == ARRAY_TYPE_CLASS {
            lemma_r_class_reread(d, off, pos);
        } else if mt == FIELD_TYPE_ARRAY {
            lemma_r_array_reread(d, off, pos);
        }
    }
}

proof fn lemma_r_entries_reread(d: Seq<u8>, off: int, pos: int)
    requires
        0 <= off,
    ensures
        r_entries(d, off, pos) matches Ok(es) ==> unambiguous_entries(es) && (es.len() > 0
            ==> 0 <= pos && has4(d, pos) && es[0].native_hash == crate::bytes::le_u32_at(d, pos)),
    decreases d.len() - pos,
{
    lemma_r_entries_def(d, off, pos);
    if !(pos < 0 || pos >= d.len()) && !(d.len() - pos < 12
        && crate::payload_model::all_zero_from(d, pos)) && has4(d, pos) {
        lemma_r_class_reread(d, off, pos + 4);
        if let Ok((c, p)) = r_class(d, off, pos + 4) {
            if !(p <= pos || p > d.len()) {
                lemma_r_entries_reread(d, off, p);
                if let Ok(es) = r_entries(d, off, p) {
                    let native_hash = crate::bytes::le_u32_at(d, pos);
                    let all = seq![EntryModel { native_hash, class: c }] + es;
                    if es.len() > 0 && ends_open_class(c) {
                        lemma_read_not_marker(d, p);
                    }
                    assert forall|i: int| 0 <= i < all.len() implies unambiguous_class(
                        #[trigger] all[i].class,
                    ) && (i + 1 < all.len() && ends_open_class(all[i].class) ==> all[i
                        + 1].native_hash != ARRAY_MARKER) by {
                        if i > 0 {
                            assert(all[i] == es[i - 1]);
                            assert(unambiguous_class(es[i - 1].class));
                            if i + 1 < all.len() {
                                assert(all[i + 1] == es[i]);
                            }
                        } else if i + 1 < all.len() {
                            assert(all[1] == es[0]);
                        }
                    }
                }
            }
        }
    }
}

/// Every stream that reads back is unambiguous: written again, at any
/// alignment, it reads back as itself.
pub proof fn lemma_parsed_unambiguous(d: Seq<u8>, off: int)
    requires
        0 <= off,
    ensures
        parse_spec(d, off) matches Ok(p) ==> unambiguous_payload(p),
{
    lemma_r_entries_reread(d, off, 0);
}

/// A stream read at one offset and written at another reads back there as
/// the same stream.
pub proof fn lemma_reencoded_stream_reads_back(d: Seq<u8>, off: int, new_off: int)
    requires
        0 <= off,
        0 <= new_off,
        parse_spec(d, off) is Ok,
        encode_spec(parse_spec(d, off)->Ok_0, new_off) is Ok,
        new_off + encode_spec(parse_spec(d, off)->Ok_0, new_off)->Ok_0.len() <= usize::MAX,
    ensures
        parse_spec(encode_spec(parse_spec(d, off)->Ok_0, new_off)->Ok_0, new_off) == parse_spec(
            d,
            off,
        ),
{
    lemma_parsed_unambiguous(d, off);
    lemma_encode_parse_roundtrip(parse_spec(d, off)->Ok_0, new_off);
}

} // verus!
