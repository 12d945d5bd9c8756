//! Where a class stream starts matters only modulo sixteen, while no sized
//! value is longer than sixteen bytes.
use vstd::prelude::*;

use crate::bytes::{u32_le, u32s_le};
use crate::payload_model::{
    align4_up, encode_spec, lemma_w_array_def, lemma_w_class_def, lemma_w_element_def,
    lemma_w_elements_def, lemma_w_entries_def, lemma_w_field_def, lemma_w_fields_def,
    sized_align, w_align4, w_align_sized, w_array, w_array_body, w_class, w_element, w_elements,
    w_entries, w_field, w_field_value, w_fields, w_sized, w_string, ArrayModel, ClassModel,
    ElementModel, EntryModel, FieldModel, PayloadModel, ValueModel, ARRAY_MARKER,
};

verus! {

/// Whether no sized value in class `c` is longer than sixteen bytes.
pub open spec fn small_class(c: ClassModel) -> bool
    decreases c, 1int,
{
    small_fields(c.fields)
}

/// Whether no sized value in the fields `fs` is longer than sixteen bytes.
pub open spec fn small_fields(fs: Seq<FieldModel>) -> bool
    decreases fs, 0int,
{
    fs.len() == 0 || (small_field(fs[0]) && small_fields(fs.drop_first()))
}

/// Whether no sized value in field `f` is longer than sixteen bytes.
pub open spec fn small_field(f: FieldModel) -> bool
    decreases f, 0int,
{
    match f.value {
        ValueModel::Array(a) => small_array(a),
        ValueModel::Class(c) => small_class(c),
        ValueModel::String(_) => true,
        ValueModel::Scalar { size, .. } => size <= 16,
    }
}

/// Whether no sized value in array `a` is longer than sixteen bytes.
pub open spec fn small_array(a: ArrayModel) -> bool
    decreases a, 1int,
{
    small_elements(a, a.values)
}

/// Whether no sized value among the values `vs` of array `a` is longer than sixteen bytes.
pub open spec fn small_elements(a: ArrayModel, vs: Seq<ElementModel>) -> bool
    decreases vs, 0int,
{
    vs.len() == 0 || (small_element(a, vs[0]) && small_elements(a, vs.drop_first()))
}

/// Whether no sized value in value `v` of array `a` is longer than sixteen bytes.
pub open spec fn small_element(a: ArrayModel, v: ElementModel) -> bool
    decreases v, 0int,
{
    match v {
        ElementModel::Array(inner) => small_array(inner),
        ElementModel::Class(c) => small_class(c),
        ElementModel::String(_) => true,
        ElementModel::Scalar(_) => a.member_size <= 16,
    }
}

/// Whether no sized value in payload `p` is longer than sixteen bytes.
pub open spec fn small_payload(p: PayloadModel) -> bool {
    forall|i: int| 0 <= i < p.entries.len() ==> small_class(#[trigger] p.entries[i].class)
}

proof fn lemma_align4_shift(out: Seq<u8>, off: int)
    requires
        0 <= off,
        w_align4(out, off + 16) is Ok,
    ensures
        w_align4(out, off) == w_align4(out, off + 16),
{
    let abs = off + out.len();
    assert(align4_up(abs + 16) == align4_up(abs) + 16) by (nonlinear_arith)
        requires
            align4_up(abs + 16) == ((abs + 16 + 3) / 4) * 4,
            align4_up(abs) == ((abs + 3) / 4) * 4,
    ;
}

proof fn lemma_align_sized_shift(out: Seq<u8>, off: int, size: int)
    requires
        0 <= off,
        1 <= size <= 16,
        w_align_sized(out, off + 16, size) is Ok,
    ensures
        w_align_sized(out, off, size) == w_align_sized(out, off + 16, size),
{
    let abs = off + out.len();
    let mask = (size - 1) as usize;
    let y = (abs + mask) as usize;
    let z = (abs + 16 + mask) as usize;
    assert(z == y + 16);
    assert(((y + 16) as usize) & !mask == ((y & !mask) + 16) as usize) by (bit_vector)
        requires
            mask < 16,
    ;
    assert((y & !mask) <= y) by (bit_vector);
    assert(sized_align((abs + 16) as usize, mask) == sized_align(abs as usize, mask) + 16);
}

proof fn lemma_sized_shift(out: Seq<u8>, off: int, size: u32, bytes: Seq<u8>)
    requires
        0 <= off,
        size <= 16,
        w_sized(out, off + 16, size, bytes) is Ok,
    ensures
        w_sized(out, off, size, bytes) == w_sized(out, off + 16, size, bytes),
{
    if size != 0 && bytes.len() == size && size != 1 {
        lemma_align_sized_shift(out, off, size as int);
    }
}

proof fn lemma_string_shift(out: Seq<u8>, off: int, s: Seq<u16>)
    requires
        0 <= off,
        w_string(out, off + 16, s) is Ok,
    ensures
        w_string(out, off, s) == w_string(out, off + 16, s),
{
    lemma_align4_shift(out, off);
}

proof fn lemma_class_shift(out: Seq<u8>, off: int, c: ClassModel)
    requires
        0 <= off,
        small_class(c),
        w_class(out, off + 16, c) is Ok,
    ensures
        w_class(out, off, c) == w_class(out, off + 16, c),
    decreases c, 2int,
{
    lemma_w_class_def(out, off, c);
    lemma_w_class_def(out, off + 16, c);
    if c.fields.len() <= u32::MAX {
        lemma_fields_shift(out + u32_le(c.fields.len() as u32) + u32_le(c.hash), off, c.fields);
    }
}

proof fn lemma_fields_shift(out: Seq<u8>, off: int, fs: Seq<FieldModel>)
    requires
        0 <= off,
        small_fields(fs),
        w_fields(out, off + 16, fs) is Ok,
    ensures
        w_fields(out, off, fs) == w_fields(out, off + 16, fs),
    decreases fs, 1int,
{
    lemma_w_fields_def(out, off, fs, 0);
    lemma_w_fields_def(out, off + 16, fs, 0);
    assert(fs.skip(0) =~= fs);
    if fs.len() > 0 {
        assert(fs.skip(1) =~= fs.drop_first());
        lemma_field_shift(out, off, fs[0]);
        if let Ok(o) = w_field(out, off + 16, fs[0]) {
            lemma_fields_shift(o, off, fs.drop_first());
        }
    } else {
        assert(fs =~= Seq::<FieldModel>::empty());
    }
}

proof fn lemma_field_shift(out: Seq<u8>, off: int, f: FieldModel)
    requires
        0 <= off,
        small_field(f),
        w_field(out, off + 16, f) is Ok,
    ensures
        w_field(out, off, f) == w_field(out, off + 16, f),
    decreases f, 2int,
{
    let o0 = out + u32_le(f.hash) + u32_le(f.field_type as u32);
    lemma_w_field_def(out, off, f);
    lemma_w_field_def(out, off + 16, f);
    lemma_field_value_shift(o0, off, f);
    if let Ok(o) = w_field_value(o0, off + 16, f) {
        lemma_align4_shift(o, off);
    }
}

proof fn lemma_field_value_shift(out: Seq<u8>, off: int, f: FieldModel)
    requires
        0 <= off,
        small_field(f),
        w_field_value(out, off + 16, f) is Ok,
    ensures
        w_field_value(out, off, f) == w_field_value(out, off + 16, f),
    decreases f, 1int,
{
    lemma_w_field_def(out, off, f);
    lemma_w_field_def(out, off + 16, f);
    match f.value {
        ValueModel::Array(a) => lemma_array_shift(out, off, a),
        ValueModel::Class(c) => lemma_class_shift(out, off, c),
        ValueModel::String(s) => lemma_string_shift(out, off, s),
        ValueModel::Scalar { size, bytes } => {
            lemma_align4_shift(out, off);
            if let Ok(o) = w_align4(out, off + 16) {
                lemma_sized_shift(o + u32_le(size), off, size, bytes);
            }
        },
    }
}

proof fn lemma_array_shift(out: Seq<u8>, off: int, a: ArrayModel)
    requires
        0 <= off,
        small_array(a),
        w_array(out, off + 16, a) is Ok,
    ensures
        w_array(out, off, a) == w_array(out, off + 16, a),
    decreases a, 3int,
{
    lemma_w_array_def(out, off, a);
    lemma_w_array_def(out, off + 16, a);
    lemma_align4_shift(out, off);
    if let Ok(o) = w_align4(out, off + 16) {
        if a.values.len() <= u32::MAX {
            let header = o + u32_le(a.member_type as u32) + u32_le(a.member_size) + u32_le(
                a.values.len() as u32,
            ) + u32_le(a.array_type as u32);
            match a.class_hashes {
                Some(h) => {
                    lemma_elements_shift(header + u32_le(ARRAY_MARKER) + u32s_le(h), off, a, a.values);
                },
                None => {
                    lemma_elements_shift(header, off, a, a.values);
                },
            }
        }
    }
    if let Ok(ob) = w_array_body(out, off + 16, a) {
        lemma_align4_shift(ob, off);
    }
}

proof fn lemma_elements_shift(out: Seq<u8>, off: int, a: ArrayModel, vs: Seq<ElementModel>)
    requires
        0 <= off,
        small_elements(a, vs),
        w_elements(out, off + 16, a, vs) is Ok,
    ensures
        w_elements(out, off, a, vs) == w_elements(out, off + 16, a, vs),
    decreases vs, 1int,
{
    lemma_w_elements_def(out, off, a, vs, 0);
    lemma_w_elements_def(out, off + 16, a, vs, 0);
    assert(vs.skip(0) =~= vs);
    if vs.len() > 0 {
        assert(vs.skip(1) =~= vs.drop_first());
        lemma_element_shift(out, off, a, vs[0]);
        if let Ok(o) = w_element(out, off + 16, a, vs[0]) {
            lemma_elements_shift(o, off, a, vs.drop_first());
        }
    } else {
        assert(vs =~= Seq::<ElementModel>::empty());
    }
}

proof fn lemma_element_shift(out: Seq<u8>, off: int, a: ArrayModel, v: ElementModel)
    requires
        0 <= off,
        small_element(a, v),
        w_element(out, off + 16, a, v) is Ok,
    ensures
        w_element(out, off, a, v) == w_element(out, off + 16, a, v),
    decreases v, 1int,
{
    lemma_w_element_def(out, off, a, v);
    lemma_w_element_def(out, off + 16, a, v);
    match v {
        ElementModel::Array(inner) => lemma_array_shift(out, off, inner),
        ElementModel::Class(c) => lemma_class_shift(out, off, c),
        ElementModel::String(s) => lemma_string_shift(out, off, s),
        ElementModel::Scalar(b) => lemma_sized_shift(out, off, a.member_size, b),
    }
}

proof fn lemma_entries_shift(out: Seq<u8>, off: int, es: Seq<EntryModel>, i: int)
    requires
        0 <= off,
        0 <= i <= es.len(),
        forall|j: int| 0 <= j < es.len() ==> small_class(#[trigger] es[j].class),
        w_entries(out, off + 16, es.skip(i)) is Ok,
    ensures
        w_entries(out, off, es.skip(i)) == w_entries(out, off + 16, es.skip(i)),
    decreases es.len() - i,
{
    lemma_w_entries_def(out, off, es, i);
    lemma_w_entries_def(out, off + 16, es, i);
    if i < es.len() {
        let o0 = out + u32_le(es[i].native_hash);
        lemma_class_shift(o0, off, es[i].class);
        if let Ok(o) = w_class(o0, off + 16, es[i].class) {
            lemma_entries_shift(o, off, es, i + 1);
        }
    } else {
        assert(es.skip(i) =~= Seq::<EntryModel>::empty());
    }
}

/// Writing a payload in which no sized value is longer than sixteen bytes
/// gives the same bytes at offsets sixteen apart, wherever the later offset
/// does not overflow.
pub proof fn lemma_encode_offset_modulo_sixteen(p: PayloadModel, off: int)
    requires
        0 <= off,
        small_payload(p),
        encode_spec(p, off + 16) is Ok,
    ensures
        encode_spec(p, off) == encode_spec(p, off + 16),
{
    assert(p.entries.skip(0) =~= p.entries);
    lemma_entries_shift(Seq::empty(), off, p.entries, 0);
}

/// The same for offsets any multiple of sixteen apart.
pub proof fn lemma_encode_offset_multiple_of_sixteen(p: PayloadModel, off: int, j: nat)
    requires
        0 <= off,
        small_payload(p),
        encode_spec(p, off + 16 * j) is Ok,
    ensures
        encode_spec(p, off) == encode_spec(p, off + 16 * j),
    decreases j,
{
    if j > 0 {
        let k = (j - 1) as nat;
        assert(off + 16 * j == (off + 16 * k) + 16);
        lemma_encode_offset_modulo_sixteen(p, off + 16 * k);
        lemma_encode_offset_multiple_of_sixteen(p, off, k);
    }
}

} // verus!
