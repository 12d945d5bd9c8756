//! What every merge of a source class stream onto a target template keeps.
use vstd::prelude::*;

use crate::payload_model::{
    ArrayModel, ClassModel, ElementModel, EntryModel, FieldModel, PayloadModel, ValueModel,
};
use crate::translation::{
    array_tally, class_tally, element_tallies, element_tally, entry_tallies, entry_tally,
    field_tallies, field_tally, find_entry_from, find_field_from, merge_class_spec,
    merge_field_spec, merge_report_spec, merge_spec, merge_tally, tally_sum, target_class_for,
    value_tally, MergeTally, SAVE_FILE_DETAIL_NATIVE_HASH, merge_array_spec, merge_element_spec,
    merge_entry_spec, merge_value_spec,
};

verus! {

/// An entry of `e` matches native hash `nh` and class hash `ch`.
pub open spec fn entry_matches(e: EntryModel, nh: u32, ch: u32) -> bool {
    e.native_hash == nh && e.class.hash == ch
}

/// A field of `f` matches hash `hash` and type `ft`.
pub open spec fn field_matches(f: FieldModel, hash: u32, ft: i32) -> bool {
    f.hash == hash && f.field_type == ft
}

/// The search for an entry finds the first match from `i` on, and only a match.
pub proof fn lemma_find_entry_from(es: Seq<EntryModel>, nh: u32, ch: u32, i: int)
    requires
        0 <= i,
    ensures
        find_entry_from(es, nh, ch, i) matches Some(k) ==> i <= k < es.len() && entry_matches(
            es[k],
            nh,
            ch,
        ) && forall|j: int| i <= j < k ==> !entry_matches(#[trigger] es[j], nh, ch),
        find_entry_from(es, nh, ch, i) is None ==> forall|j: int|
            i <= j < es.len() ==> !entry_matches(#[trigger] es[j], nh, ch),
    decreases es.len() - i,
{
    if i < es.len() && !entry_matches(es[i], nh, ch) {
        lemma_find_entry_from(es, nh, ch, i + 1);
    }
}

/// The search for a field finds the first match from `i` on, and only a match.
pub proof fn lemma_find_field_from(fs: Seq<FieldModel>, hash: u32, ft: i32, i: int)
    requires
        0 <= i,
    ensures
        find_field_from(fs, hash, ft, i) matches Some(k) ==> i <= k < fs.len() && field_matches(
            fs[k],
            hash,
            ft,
        ) && forall|j: int| i <= j < k ==> !field_matches(#[trigger] fs[j], hash, ft),
        find_field_from(fs, hash, ft, i) is None ==> forall|j: int|
            i <= j < fs.len() ==> !field_matches(#[trigger] fs[j], hash, ft),
    decreases fs.len() - i,
{
    if i < fs.len() && !field_matches(fs[i], hash, ft) {
        lemma_find_field_from(fs, hash, ft, i + 1);
    }
}

/// The merged payload follows the template: one entry per template entry, in
/// the template's order, each with the template entry's native hash and class
/// hash.
pub proof fn lemma_merge_follows_template(src: PayloadModel, tgt: PayloadModel)
    ensures
        merge_spec(src, tgt).entries.len() == tgt.entries.len(),
        forall|i: int|
            0 <= i < tgt.entries.len() ==> (#[trigger] merge_spec(src, tgt).entries[i]).native_hash
                == tgt.entries[i].native_hash && merge_spec(src, tgt).entries[i].class.hash
                == tgt.entries[i].class.hash,
{
    assert forall|i: int| 0 <= i < tgt.entries.len() implies (#[trigger] merge_spec(
        src,
        tgt,
    ).entries[i]).native_hash == tgt.entries[i].native_hash && merge_spec(src, tgt).entries[i].class.hash
        == tgt.entries[i].class.hash by {
        let t = tgt.entries[i];
        lemma_find_entry_from(src.entries, t.native_hash, t.class.hash, 0);
    }
}

/// A template entry stays as it is where it is the save-file detail, or where
/// no source entry has its native hash and class hash.
pub proof fn lemma_merge_keeps_unmatched_entries(src: PayloadModel, tgt: PayloadModel, i: int)
    requires
        0 <= i < tgt.entries.len(),
        tgt.entries[i].native_hash == SAVE_FILE_DETAIL_NATIVE_HASH || forall|j: int|
            0 <= j < src.entries.len() ==> !entry_matches(
                #[trigger] src.entries[j],
                tgt.entries[i].native_hash,
                tgt.entries[i].class.hash,
            ),
    ensures
        merge_spec(src, tgt).entries[i] == tgt.entries[i],
{
    let t = tgt.entries[i];
    lemma_find_entry_from(src.entries, t.native_hash, t.class.hash, 0);
}

/// A template entry with a matching source entry takes the first such source
/// entry's class, merged onto the template's class.
pub proof fn lemma_merge_takes_first_matching_entry(
    src: PayloadModel,
    tgt: PayloadModel,
    i: int,
    k: int,
)
    requires
        0 <= i < tgt.entries.len(),
        0 <= k < src.entries.len(),
        tgt.entries[i].native_hash != SAVE_FILE_DETAIL_NATIVE_HASH,
        entry_matches(src.entries[k], tgt.entries[i].native_hash, tgt.entries[i].class.hash),
        forall|j: int|
            0 <= j < k ==> !entry_matches(
                #[trigger] src.entries[j],
                tgt.entries[i].native_hash,
                tgt.entries[i].class.hash,
            ),
    ensures
        merge_spec(src, tgt).entries[i] == (EntryModel {
            native_hash: tgt.entries[i].native_hash,
            class: merge_class_spec(src.entries[k].class, tgt.entries[i].class),
        }),
{
    let t = tgt.entries[i];
    lemma_find_entry_from(src.entries, t.native_hash, t.class.hash, 0);
    if let Some(m) = find_entry_from(src.entries, t.native_hash, t.class.hash, 0) {
        if m < k {
            assert(!entry_matches(src.entries[m], t.native_hash, t.class.hash));
        } else if m > k {
            assert(!entry_matches(src.entries[k], t.native_hash, t.class.hash));
        }
    } else {
        assert(!entry_matches(src.entries[k], t.native_hash, t.class.hash));
    }
}

/// A class merged onto a class of the same nonzero hash follows the target
/// class: its fields are the target's fields, in the target's order, with the
/// target's hashes and types; a target field without a source field of the
/// same hash and type keeps its value; one with such a field whose value is a
/// string or a scalar takes the first such source field's value.
pub proof fn lemma_merge_class_follows_target(s: ClassModel, t: ClassModel)
    requires
        s.hash == t.hash,
        s.hash != 0,
    ensures
        merge_class_spec(s, t).hash == t.hash,
        merge_class_spec(s, t).fields.len() == t.fields.len(),
        forall|i: int|
            0 <= i < t.fields.len() ==> (#[trigger] merge_class_spec(s, t).fields[i]).hash
                == t.fields[i].hash && merge_class_spec(s, t).fields[i].field_type
                == t.fields[i].field_type,
        forall|i: int|
            0 <= i < t.fields.len() && (forall|j: int|
                0 <= j < s.fields.len() ==> !field_matches(
                    #[trigger] s.fields[j],
                    t.fields[i].hash,
                    t.fields[i].field_type,
                )) ==> #[trigger] merge_class_spec(s, t).fields[i] == t.fields[i],
        forall|i: int, k: int|
            0 <= i < t.fields.len() && 0 <= k < s.fields.len() && field_matches(
                #[trigger] s.fields[k],
                t.fields[i].hash,
                t.fields[i].field_type,
            ) && (forall|j: int|
                0 <= j < k ==> !field_matches(
                    #[trigger] s.fields[j],
                    t.fields[i].hash,
                    t.fields[i].field_type,
                )) && (s.fields[k].value is String || s.fields[k].value is Scalar)
                ==> #[trigger] merge_class_spec(s, t).fields[i].value == s.fields[k].value,
{
    let r = merge_class_spec(s, t);
    assert forall|i: int| 0 <= i < t.fields.len() implies (#[trigger] r.fields[i]).hash
        == t.fields[i].hash && r.fields[i].field_type == t.fields[i].field_type by {
        lemma_find_field_from(s.fields, t.fields[i].hash, t.fields[i].field_type, 0);
        assert(r.fields[i] == merge_field_spec(s, t.fields[i]));
    }
    assert forall|i: int|
        0 <= i < t.fields.len() && (forall|j: int|
            0 <= j < s.fields.len() ==> !field_matches(
                #[trigger] s.fields[j],
                t.fields[i].hash,
                t.fields[i].field_type,
            )) implies #[trigger] r.fields[i] == t.fields[i] by {
        lemma_find_field_from(s.fields, t.fields[i].hash, t.fields[i].field_type, 0);
        assert(r.fields[i] == merge_field_spec(s, t.fields[i]));
    }
    assert forall|i: int, k: int|
        0 <= i < t.fields.len() && 0 <= k < s.fields.len() && field_matches(
            #[trigger] s.fields[k],
            t.fields[i].hash,
            t.fields[i].field_type,
        ) && (forall|j: int|
            0 <= j < k ==> !field_matches(
                #[trigger] s.fields[j],
                t.fields[i].hash,
                t.fields[i].field_type,
            )) && (s.fields[k].value is String || s.fields[k].value is Scalar) implies
        #[trigger] r.fields[i].value == s.fields[k].value by {
        let tf = t.fields[i];
        lemma_find_field_from(s.fields, tf.hash, tf.field_type, 0);
        assert(r.fields[i] == merge_field_spec(s, tf));
        if let Some(m) = find_field_from(s.fields, tf.hash, tf.field_type, 0) {
            if m < k {
                assert(!field_matches(s.fields[m], tf.hash, tf.field_type));
            } else if m > k {
                assert(!field_matches(s.fields[k], tf.hash, tf.field_type));
            }
        } else {
            assert(!field_matches(s.fields[k], tf.hash, tf.field_type));
        }
    }
}

/// A sum of tallies that count no entries counts no entries.
proof fn lemma_tally_sum_no_entries(ts: Seq<MergeTally>)
    requires
        forall|i: int|
            0 <= i < ts.len() ==> (#[trigger] ts[i]).merged == 0 && ts[i].preserved_classes == 0,
    ensures
        tally_sum(ts).merged == 0,
        tally_sum(ts).preserved_classes == 0,
    decreases ts.len(),
{
    if ts.len() > 0 {
        let last = ts.len() - 1;
        assert(ts[last].merged == 0);
        lemma_tally_sum_no_entries(ts.drop_last());
    }
}

/// Merging a class counts no top-level entries.
proof fn lemma_class_tally_no_entries(s: ClassModel, t: ClassModel)
    ensures
        class_tally(s, t).merged == 0,
        class_tally(s, t).preserved_classes == 0,
    decreases s, 2int,
{
    if s.hash == t.hash && s.hash != 0 {
        let ts = field_tallies(s, t);
        assert forall|i: int| 0 <= i < ts.len() implies (#[trigger] ts[i]).merged == 0
            && ts[i].preserved_classes == 0 by {
            lemma_field_tally_no_entries(s, t.fields[i]);
        }
        lemma_tally_sum_no_entries(ts);
    }
}

/// Merging a field counts no top-level entries.
proof fn lemma_field_tally_no_entries(s: ClassModel, tf: FieldModel)
    ensures
        field_tally(s, tf).merged == 0,
        field_tally(s, tf).preserved_classes == 0,
    decreases s, 1int,
{
    if let Some(k) = find_field_from(s.fields, tf.hash, tf.field_type, 0) {
        if 0 <= k < s.fields.len() {
            assert(decreases_to!(s => s.fields[k].value));
            lemma_value_tally_no_entries(s.fields[k].value, tf.value);
        }
    }
}

/// Merging a value counts no top-level entries.
proof fn lemma_value_tally_no_entries(sv: ValueModel, tv: ValueModel)
    ensures
        value_tally(sv, tv).merged == 0,
        value_tally(sv, tv).preserved_classes == 0,
    decreases sv, 0int,
{
    match sv {
        ValueModel::Class(sc) => if let ValueModel::Class(tc) = tv {
            lemma_class_tally_no_entries(sc, tc);
        },
        ValueModel::Array(sa) => if let ValueModel::Array(ta) = tv {
            lemma_array_tally_no_entries(sa, ta);
        },
        _ => {},
    }
}

/// Merging an array counts no top-level entries.
proof fn lemma_array_tally_no_entries(sa: ArrayModel, ta: ArrayModel)
    ensures
        array_tally(sa, ta).merged == 0,
        array_tally(sa, ta).preserved_classes == 0,
    decreases sa, 2int,
{
    if sa.member_type == ta.member_type && sa.array_type == ta.array_type {
        let ts = element_tallies(sa, ta);
        assert forall|i: int| 0 <= i < ts.len() implies (#[trigger] ts[i]).merged == 0
            && ts[i].preserved_classes == 0 by {
            lemma_element_tally_no_entries(sa, ta, i);
        }
        lemma_tally_sum_no_entries(ts);
    }
}

/// Merging an array value counts no top-level entries.
proof fn lemma_element_tally_no_entries(sa: ArrayModel, ta: ArrayModel, i: int)
    ensures
        element_tally(sa, ta, i).merged == 0,
        element_tally(sa, ta, i).preserved_classes == 0,
    decreases sa, 1int,
{
    if 0 <= i < sa.values.len() {
        if let ElementModel::Class(sc) = sa.values[i] {
            if let Some(tc) = target_class_for(ta, i, sc.hash) {
                assert(decreases_to!(sa => sa.values[i]));
                lemma_class_tally_no_entries(sc, tc);
            }
        }
    }
}

/// Counts from a list of tallies each of which merged or preserved exactly one
/// entry.
proof fn lemma_entry_counts(ts: Seq<MergeTally>)
    requires
        forall|i: int| 0 <= i < ts.len() ==> #[trigger] ts[i].merged + ts[i].preserved_classes == 1,
    ensures
        tally_sum(ts).merged + tally_sum(ts).preserved_classes == ts.len(),
    decreases ts.len(),
{
    if ts.len() > 0 {
        let last = ts.len() - 1;
        assert(ts[last].merged + ts[last].preserved_classes == 1);
        lemma_entry_counts(ts.drop_last());
    }
}

/// Every template entry is counted once, as merged or as preserved.
pub proof fn lemma_merge_report_counts_every_entry(src: PayloadModel, tgt: PayloadModel)
    requires
        tgt.entries.len() <= usize::MAX,
    ensures
        merge_report_spec(src, tgt).merged_top_level_classes
            + merge_report_spec(src, tgt).preserved_target_top_level_classes == tgt.entries.len(),
        merge_report_spec(src, tgt).target_top_level_classes == tgt.entries.len(),
{
    let ts = entry_tallies(src, tgt);
    assert forall|i: int| 0 <= i < ts.len() implies #[trigger] ts[i].merged
        + ts[i].preserved_classes == 1 by {
        let t = tgt.entries[i];
        lemma_find_entry_from(src.entries, t.native_hash, t.class.hash, 0);
        if let Some(k) = find_entry_from(src.entries, t.native_hash, t.class.hash, 0) {
            lemma_class_tally_no_entries(src.entries[k].class, t.class);
        }
        assert(ts[i] == entry_tally(src, t));
    }
    lemma_entry_counts(ts);
    assert(merge_tally(src, tgt) == tally_sum(ts));
}

// ---------------------------------------------------------------------------
// Merging a payload onto itself
// ---------------------------------------------------------------------------
/// Whether no two fields of `fs` share a hash and a type.
pub open spec fn distinct_field_keys(fs: Seq<FieldModel>) -> bool {
    forall|i: int, j: int|
        0 <= i < j < fs.len() ==> !field_matches(#[trigger] fs[i], fs[j].hash, #[trigger] fs[j].field_type)
}

/// Whether class `c`, and every class nested in it, has fields with distinct
/// hash and type pairs.
pub open spec fn keyed_class(c: ClassModel) -> bool
    decreases c, 1int,
{
    distinct_field_keys(c.fields) && forall|i: int|
        0 <= i < c.fields.len() ==> keyed_value(#[trigger] c.fields[i].value)
}

/// Whether every class nested in value `v` is keyed.
pub open spec fn keyed_value(v: ValueModel) -> bool
    decreases v, 0int,
{
    match v {
        ValueModel::Class(c) => keyed_class(c),
        ValueModel::Array(a) => keyed_array(a),
        _ => true,
    }
}

/// Whether every class value of array `a` is keyed.
pub open spec fn keyed_array(a: ArrayModel) -> bool
    decreases a, 1int,
{
    forall|i: int| 0 <= i < a.values.len() ==> keyed_element(#[trigger] a.values[i])
}

/// Whether array value `v`, if a class, is keyed.
pub open spec fn keyed_element(v: ElementModel) -> bool
    decreases v, 0int,
{
    match v {
        ElementModel::Class(c) => keyed_class(c),
        _ => true,
    }
}

proof fn lemma_merge_class_self(c: ClassModel)
    requires
        keyed_class(c),
    ensures
        merge_class_spec(c, c) == c,
    decreases c, 2int,
{
    if c.hash != 0 {
        assert forall|i: int| 0 <= i < c.fields.len() implies merge_field_spec(
            c,
            #[trigger] c.fields[i],
        ) == c.fields[i] by {
            lemma_merge_field_self(c, i);
        }
        let m = merge_class_spec(c, c);
        assert(m.fields.len() == c.fields.len());
        assert forall|i: int| 0 <= i < c.fields.len() implies m.fields[i] == c.fields[i] by {
            assert(m.fields[i] == merge_field_spec(c, c.fields[i]));
        }
        assert(m.fields =~= c.fields);
    }
}

proof fn lemma_merge_field_self(c: ClassModel, i: int)
    requires
        keyed_class(c),
        0 <= i < c.fields.len(),
    ensures
        merge_field_spec(c, c.fields[i]) == c.fields[i],
    decreases c, 1int,
{
    let f = c.fields[i];
    lemma_find_field_from(c.fields, f.hash, f.field_type, 0);
    if let Some(k) = find_field_from(c.fields, f.hash, f.field_type, 0) {
        if k < i {
            assert(!field_matches(c.fields[k], c.fields[i].hash, c.fields[i].field_type));
        }
    }
    assert(keyed_value(f.value));
    lemma_merge_value_self(f.value);
}

proof fn lemma_merge_value_self(v: ValueModel)
    requires
        keyed_value(v),
    ensures
        merge_value_spec(v, v) == v,
    decreases v, 3int,
{
    match v {
        ValueModel::Class(c) => lemma_merge_class_self(c),
        ValueModel::Array(a) => lemma_merge_array_self(a),
        _ => {},
    }
}

proof fn lemma_merge_array_self(a: ArrayModel)
    requires
        keyed_array(a),
    ensures
        merge_array_spec(a, a) == a,
    decreases a, 2int,
{
    assert forall|i: int| 0 <= i < a.values.len() implies merge_element_spec(a, a, i)
        == #[trigger] a.values[i] by {
        if let ElementModel::Class(sc) = a.values[i] {
            assert(keyed_element(a.values[i]));
            lemma_merge_class_self(sc);
        }
    }
    let m = merge_array_spec(a, a);
    assert(m.values.len() == a.values.len());
    assert forall|i: int| 0 <= i < a.values.len() implies m.values[i] == a.values[i] by {
        assert(m.values[i] == merge_element_spec(a, a, i));
    }
    assert(m.values =~= a.values);
}

/// Merging a payload onto itself gives it back, where no two top-level
/// entries share a native hash and class hash and no class has two fields of
/// the same hash and type.
pub proof fn lemma_merge_onto_itself(p: PayloadModel)
    requires
        forall|i: int, j: int|
            0 <= i < j < p.entries.len() ==> !entry_matches(
                #[trigger] p.entries[i],
                p.entries[j].native_hash,
                #[trigger] p.entries[j].class.hash,
            ),
        forall|i: int| 0 <= i < p.entries.len() ==> keyed_class(#[trigger] p.entries[i].class),
    ensures
        merge_spec(p, p) == p,
{
    assert forall|i: int| 0 <= i < p.entries.len() implies merge_entry_spec(
        p,
        #[trigger] p.entries[i],
    ) == p.entries[i] by {
        let e = p.entries[i];
        lemma_find_entry_from(p.entries, e.native_hash, e.class.hash, 0);
        if let Some(k) = find_entry_from(p.entries, e.native_hash, e.class.hash, 0) {
            if k < i {
                assert(!entry_matches(p.entries[k], p.entries[i].native_hash, p.entries[i].class.hash));
            }
        }
        assert(keyed_class(e.class));
        lemma_merge_class_self(e.class);
    }
    assert(merge_spec(p, p).entries =~= p.entries);
}

// ---------------------------------------------------------------------------
// Nested classes
// ---------------------------------------------------------------------------
/// A field whose value is a class merges as that class: where target field
/// `i` holds a class and the first source field of its hash and type, `k`,
/// holds a class of the same nonzero hash, the merged field holds a class of
/// the target's hash, with the target's nested fields in order, and each
/// nested target field with a nested source field of the same hash and type
/// whose value is a string or a scalar takes the first such source value.
pub proof fn lemma_merge_nested_class_carries_source(s: ClassModel, t: ClassModel, i: int, k: int)
    requires
        s.hash == t.hash,
        s.hash != 0,
        0 <= i < t.fields.len(),
        0 <= k < s.fields.len(),
        field_matches(s.fields[k], t.fields[i].hash, t.fields[i].field_type),
        forall|j: int|
            0 <= j < k ==> !field_matches(
                #[trigger] s.fields[j],
                t.fields[i].hash,
                t.fields[i].field_type,
            ),
        s.fields[k].value is Class,
        t.fields[i].value is Class,
        s.fields[k].value->Class_0.hash == t.fields[i].value->Class_0.hash,
        s.fields[k].value->Class_0.hash != 0,
    ensures
        ({
            let sc = s.fields[k].value->Class_0;
            let tc = t.fields[i].value->Class_0;
            let mv = merge_class_spec(s, t).fields[i].value;
            &&& mv is Class
            &&& mv->Class_0.hash == tc.hash
            &&& mv->Class_0.fields.len() == tc.fields.len()
            &&& forall|n: int, p: int|
                0 <= n < tc.fields.len() && 0 <= p < sc.fields.len() && field_matches(
                    #[trigger] sc.fields[p],
                    tc.fields[n].hash,
                    tc.fields[n].field_type,
                ) && (forall|j: int|
                    0 <= j < p ==> !field_matches(
                        #[trigger] sc.fields[j],
                        tc.fields[n].hash,
                        tc.fields[n].field_type,
                    )) && (sc.fields[p].value is String || sc.fields[p].value is Scalar)
                    ==> #[trigger] mv->Class_0.fields[n].value == sc.fields[p].value
        }),
{
    let sc = s.fields[k].value->Class_0;
    let tc = t.fields[i].value->Class_0;
    let tf = t.fields[i];
    lemma_find_field_from(s.fields, tf.hash, tf.field_type, 0);
    if let Some(m) = find_field_from(s.fields, tf.hash, tf.field_type, 0) {
        if m < k {
            assert(!field_matches(s.fields[m], tf.hash, tf.field_type));
        } else if m > k {
            assert(!field_matches(s.fields[k], tf.hash, tf.field_type));
        }
    } else {
        assert(!field_matches(s.fields[k], tf.hash, tf.field_type));
    }
    assert(merge_class_spec(s, t).fields[i] == merge_field_spec(s, tf));
    assert(merge_class_spec(s, t).fields[i].value == ValueModel::Class(merge_class_spec(sc, tc)));
    lemma_merge_class_follows_target(sc, tc);
}

/// The same through a whole payload: a template entry with a matching source
/// entry keeps, in a nested class field, the source's nested string and
/// scalar values.
pub proof fn lemma_merge_payload_nested_class_carries_source(
    src: PayloadModel,
    tgt: PayloadModel,
    e: int,
    q: int,
    i: int,
    k: int,
)
    requires
        0 <= e < tgt.entries.len(),
        0 <= q < src.entries.len(),
        tgt.entries[e].native_hash != SAVE_FILE_DETAIL_NATIVE_HASH,
        entry_matches(src.entries[q], tgt.entries[e].native_hash, tgt.entries[e].class.hash),
        forall|j: int|
            0 <= j < q ==> !entry_matches(
                #[trigger] src.entries[j],
                tgt.entries[e].native_hash,
                tgt.entries[e].class.hash,
            ),
        tgt.entries[e].class.hash != 0,
        0 <= i < tgt.entries[e].class.fields.len(),
        0 <= k < src.entries[q].class.fields.len(),
        field_matches(
            src.entries[q].class.fields[k],
            tgt.entries[e].class.fields[i].hash,
            tgt.entries[e].class.fields[i].field_type,
        ),
        forall|j: int|
            0 <= j < k ==> !field_matches(
                #[trigger] src.entries[q].class.fields[j],
                tgt.entries[e].class.fields[i].hash,
                tgt.entries[e].class.fields[i].field_type,
            ),
        src.entries[q].class.fields[k].value is Class,
        tgt.entries[e].class.fields[i].value is Class,
        src.entries[q].class.fields[k].value->Class_0.hash
            == tgt.entries[e].class.fields[i].value->Class_0.hash,
        src.entries[q].class.fields[k].value->Class_0.hash != 0,
    ensures
        ({
            let sc = src.entries[q].class.fields[k].value->Class_0;
            let tc = tgt.entries[e].class.fields[i].value->Class_0;
            let mv = merge_spec(src, tgt).entries[e].class.fields[i].value;
            &&& mv is Class
            &&& mv->Class_0.hash == tc.hash
            &&& mv->Class_0.fields.len() == tc.fields.len()
            &&& forall|n: int, p: int|
                0 <= n < tc.fields.len() && 0 <= p < sc.fields.len() && field_matches(
                    #[trigger] sc.fields[p],
                    tc.fields[n].hash,
                    tc.fields[n].field_type,
                ) && (forall|j: int|
                    0 <= j < p ==> !field_matches(
                        #[trigger] sc.fields[j],
                        tc.fields[n].hash,
                        tc.fields[n].field_type,
                    )) && (sc.fields[p].value is String || sc.fields[p].value is Scalar)
                    ==> #[trigger] mv->Class_0.fields[n].value == sc.fields[p].value
        }),
{
    lemma_merge_takes_first_matching_entry(src, tgt, e, q);
    lemma_merge_nested_class_carries_source(src.entries[q].class, tgt.entries[e].class, i, k);
}

/// A field whose value is an array merges as that array: where target field
/// `i` holds an array and the first source field of its hash and type, `k`,
/// holds an array, the merged field holds the target's array where their
/// member or array types differ; otherwise an array with the source's member
/// type, member size, hash table and number of values, whose values other
/// than classes are the source's.
pub proof fn lemma_merge_array_field_carries_source(s: ClassModel, t: ClassModel, i: int, k: int)
    requires
        s.hash == t.hash,
        s.hash != 0,
        0 <= i < t.fields.len(),
        0 <= k < s.fields.len(),
        field_matches(s.fields[k], t.fields[i].hash, t.fields[i].field_type),
        forall|j: int|
            0 <= j < k ==> !field_matches(
                #[trigger] s.fields[j],
                t.fields[i].hash,
                t.fields[i].field_type,
            ),
        s.fields[k].value is Array,
        t.fields[i].value is Array,
    ensures
        ({
            let sa = s.fields[k].value->Array_0;
            let ta = t.fields[i].value->Array_0;
            let mv = merge_class_spec(s, t).fields[i].value;
            &&& (sa.member_type != ta.member_type || sa.array_type != ta.array_type) ==> mv
                == t.fields[i].value
            &&& (sa.member_type == ta.member_type && sa.array_type == ta.array_type) ==> {
                &&& mv is Array
                &&& mv->Array_0.member_type == sa.member_type
                &&& mv->Array_0.member_size == sa.member_size
                &&& mv->Array_0.array_type == sa.array_type
                &&& mv->Array_0.class_hashes == sa.class_hashes
                &&& mv->Array_0.values.len() == sa.values.len()
                &&& forall|n: int|
                    0 <= n < sa.values.len() && !(sa.values[n] is Class) ==> #[trigger] mv->Array_0.values[n]
                        == sa.values[n]
            }
        }),
{
    let sa = s.fields[k].value->Array_0;
    let ta = t.fields[i].value->Array_0;
    let tf = t.fields[i];
    lemma_find_field_from(s.fields, tf.hash, tf.field_type, 0);
    if let Some(m) = find_field_from(s.fields, tf.hash, tf.field_type, 0) {
        if m < k {
            assert(!field_matches(s.fields[m], tf.hash, tf.field_type));
        } else if m > k {
            assert(!field_matches(s.fields[k], tf.hash, tf.field_type));
        }
    } else {
        assert(!field_matches(s.fields[k], tf.hash, tf.field_type));
    }
    assert(merge_class_spec(s, t).fields[i] == merge_field_spec(s, tf));
    assert(merge_class_spec(s, t).fields[i].value == ValueModel::Array(merge_array_spec(sa, ta)));
    if sa.member_type == ta.member_type && sa.array_type == ta.array_type {
        let ma = merge_array_spec(sa, ta);
        assert forall|n: int| 0 <= n < sa.values.len() && !(sa.values[n] is Class) implies #[trigger] ma.values[n]
            == sa.values[n] by {
            assert(ma.values[n] == merge_element_spec(sa, ta, n));
        }
    }
}

} // verus!
