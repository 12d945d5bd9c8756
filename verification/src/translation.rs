//! Carries a source class stream over onto a target template: the result
//! follows the target's schema and takes the source's values where they match.
use vstd::prelude::*;

use crate::payload::{
    clone_array, clone_class, clone_element, clone_field, clone_u32s, entries_model, entry_model,
    element_model, elements_model, field_model, fields_model, lemma_elements_model,
    lemma_fields_model, Array, ArrayValue, Class, Field, FieldValue, NativeClass, SavePayload,
};
use crate::payload_model::{
    ArrayModel, ClassModel, ElementModel, EntryModel, FieldModel, PayloadModel, ValueModel,
};

verus! {

/// Native hash of the save-file detail class, which always keeps the target's value.
pub const SAVE_FILE_DETAIL_NATIVE_HASH: u32 = 0x85e9_04c1;

/// Counts of what a merge carried over and what it kept from the template.
#[derive(Debug, Clone, Copy, Default, PartialEq, Eq)]
pub struct MergeReport {
    pub source_top_level_classes: usize,
    pub target_top_level_classes: usize,
    pub merged_top_level_classes: usize,
    pub preserved_target_top_level_classes: usize,
    pub copied_source_fields: usize,
    pub preserved_target_fields: usize,
}

// ---------------------------------------------------------------------------
// What a merge gives
// ---------------------------------------------------------------------------
/// The index of the first field of `fs` from `i` on with hash `hash` and type `ft`.
pub open spec fn find_field_from(fs: Seq<FieldModel>, hash: u32, ft: i32, i: int) -> Option<int>
    decreases fs.len() - i,
{
    if i < 0 || i >= fs.len() {
        None
    } else if fs[i].hash == hash && fs[i].field_type == ft {
        Some(i)
    } else {
        find_field_from(fs, hash, ft, i + 1)
    }
}

/// The index of the first entry of `es` from `i` on with native hash `nh` and class hash `ch`.
pub open spec fn find_entry_from(es: Seq<EntryModel>, nh: u32, ch: u32, i: int) -> Option<int>
    decreases es.len() - i,
{
    if i < 0 || i >= es.len() {
        None
    } else if es[i].native_hash == nh && es[i].class.hash == ch {
        Some(i)
    } else {
        find_entry_from(es, nh, ch, i + 1)
    }
}

/// The first class value of `vs` from `i` on whose hash is `hash`.
pub open spec fn find_class_from(vs: Seq<ElementModel>, hash: u32, i: int) -> Option<ClassModel>
    decreases vs.len() - i,
{
    if i < 0 || i >= vs.len() {
        None
    } else if vs[i] is Class && vs[i]->Class_0.hash == hash {
        Some(vs[i]->Class_0)
    } else {
        find_class_from(vs, hash, i + 1)
    }
}

/// The target class that source class value `i` with hash `hash` merges onto:
/// the class at the same index if its hash matches, else the first class of
/// the target array with that hash.
pub open spec fn target_class_for(t: ArrayModel, i: int, hash: u32) -> Option<ClassModel> {
    if 0 <= i < t.values.len() && t.values[i] is Class && t.values[i]->Class_0.hash == hash {
        Some(t.values[i]->Class_0)
    } else {
        find_class_from(t.values, hash, 0)
    }
}

/// Source class `s` merged onto target class `t`: the target's fields in the
/// target's order, each with the value of the first source field of the same
/// hash and type where there is one; a source class of another hash, or of
/// hash zero, stays as it is.
pub open spec fn merge_class_spec(s: ClassModel, t: ClassModel) -> ClassModel
    decreases s, 1int,
{
    if s.hash != t.hash || s.hash == 0 {
        s
    } else {
        ClassModel {
            hash: t.hash,
            fields: Seq::new(t.fields.len(), |i: int| merge_field_spec(s, t.fields[i])),
        }
    }
}

/// Target field `tf` with the value merged from the matching field of source class `s`.
pub open spec fn merge_field_spec(s: ClassModel, tf: FieldModel) -> FieldModel
    decreases s, 0int,
{
    match find_field_from(s.fields, tf.hash, tf.field_type, 0) {
        Some(k) => if 0 <= k < s.fields.len() {
            FieldModel {
                hash: tf.hash,
                field_type: tf.field_type,
                value: merge_value_spec(s.fields[k].value, tf.value),
            }
        } else {
            tf
        },
        None => tf,
    }
}

/// Source value `sv` merged onto target value `tv`: classes and arrays merge,
/// anything else keeps the source value.
pub open spec fn merge_value_spec(sv: ValueModel, tv: ValueModel) -> ValueModel
    decreases sv, 0int,
{
    match sv {
        ValueModel::Class(sc) => match tv {
            ValueModel::Class(tc) => ValueModel::Class(merge_class_spec(sc, tc)),
            _ => sv,
        },
        ValueModel::Array(sa) => match tv {
            ValueModel::Array(ta) => ValueModel::Array(merge_array_spec(sa, ta)),
            _ => sv,
        },
        _ => sv,
    }
}

/// Source array `sa` merged onto target array `ta`: if member or array types
/// differ, the target array; else the source array with each class value
/// merged onto its target class.
pub open spec fn merge_array_spec(sa: ArrayModel, ta: ArrayModel) -> ArrayModel
    decreases sa, 1int,
{
    if sa.member_type != ta.member_type || sa.array_type != ta.array_type {
        ta
    } else {
        ArrayModel {
            member_type: sa.member_type,
            member_size: sa.member_size,
            array_type: sa.array_type,
            class_hashes: sa.class_hashes,
            values: Seq::new(sa.values.len(), |i: int| merge_element_spec(sa, ta, i)),
        }
    }
}

/// Value `i` of source array `sa` merged onto target array `ta`.
pub open spec fn merge_element_spec(sa: ArrayModel, ta: ArrayModel, i: int) -> ElementModel
    decreases sa, 0int,
{
    if 0 <= i < sa.values.len() {
        match sa.values[i] {
            ElementModel::Class(sc) => match target_class_for(ta, i, sc.hash) {
                Some(tc) => ElementModel::Class(merge_class_spec(sc, tc)),
                None => sa.values[i],
            },
            _ => sa.values[i],
        }
    } else {
        sa.values[i]
    }
}

/// Target entry `t` merged from the source payload `src`: the save-file detail
/// and entries without a source entry of the same native and class hash stay.
pub open spec fn merge_entry_spec(src: PayloadModel, t: EntryModel) -> EntryModel {
    if t.native_hash == SAVE_FILE_DETAIL_NATIVE_HASH {
        t
    } else {
        match find_entry_from(src.entries, t.native_hash, t.class.hash, 0) {
            Some(k) => if 0 <= k < src.entries.len() {
                EntryModel {
                    native_hash: t.native_hash,
                    class: merge_class_spec(src.entries[k].class, t.class),
                }
            } else {
                t
            },
            None => t,
        }
    }
}

/// `src` merged onto template `tgt`: one entry per template entry, in the template's order.
pub open spec fn merge_spec(src: PayloadModel, tgt: PayloadModel) -> PayloadModel {
    PayloadModel {
        entries: Seq::new(tgt.entries.len(), |i: int| merge_entry_spec(src, tgt.entries[i])),
    }
}

// ---------------------------------------------------------------------------
// What a merge counts
// ---------------------------------------------------------------------------
/// Counts of merged and kept entries and of copied and kept fields.
pub struct MergeTally {
    pub merged: nat,
    pub preserved_classes: nat,
    pub copied: nat,
    pub preserved_fields: nat,
}

/// No counts.
pub open spec fn tally_zero() -> MergeTally {
    MergeTally { merged: 0, preserved_classes: 0, copied: 0, preserved_fields: 0 }
}

/// The counts of `a` and `b` together.
pub open spec fn tally_add(a: MergeTally, b: MergeTally) -> MergeTally {
    MergeTally {
        merged: a.merged + b.merged,
        preserved_classes: a.preserved_classes + b.preserved_classes,
        copied: a.copied + b.copied,
        preserved_fields: a.preserved_fields + b.preserved_fields,
    }
}

/// The counts of all of `ts` together.
pub open spec fn tally_sum(ts: Seq<MergeTally>) -> MergeTally
    decreases ts.len(),
{
    if ts.len() == 0 {
        tally_zero()
    } else {
        tally_add(tally_sum(ts.drop_last()), ts.last())
    }
}

/// What merging source class `s` onto target class `t` counts.
pub open spec fn class_tally(s: ClassModel, t: ClassModel) -> MergeTally
    decreases s, 2int,
{
    if s.hash != t.hash || s.hash == 0 {
        tally_zero()
    } else {
        tally_sum(field_tallies(s, t))
    }
}

/// What merging each field of target class `t` from source class `s` counts.
pub open spec fn field_tallies(s: ClassModel, t: ClassModel) -> Seq<MergeTally>
    decreases s, 1int,
{
    Seq::new(t.fields.len(), |i: int| field_tally(s, t.fields[i]))
}

/// What merging target field `tf` from source class `s` counts.
pub open spec fn field_tally(s: ClassModel, tf: FieldModel) -> MergeTally
    decreases s, 0int,
{
    match find_field_from(s.fields, tf.hash, tf.field_type, 0) {
        Some(k) => if 0 <= k < s.fields.len() {
            tally_add(
                MergeTally { merged: 0, preserved_classes: 0, copied: 1, preserved_fields: 0 },
                value_tally(s.fields[k].value, tf.value),
            )
        } else {
            tally_zero()
        },
        None => MergeTally { merged: 0, preserved_classes: 0, copied: 0, preserved_fields: 1 },
    }
}

/// What merging source value `sv` onto target value `tv` counts.
pub open spec fn value_tally(sv: ValueModel, tv: ValueModel) -> MergeTally
    decreases sv, 0int,
{
    match sv {
        ValueModel::Class(sc) => match tv {
            ValueModel::Class(tc) => class_tally(sc, tc),
            _ => tally_zero(),
        },
        ValueModel::Array(sa) => match tv {
            ValueModel::Array(ta) => array_tally(sa, ta),
            _ => tally_zero(),
        },
        _ => tally_zero(),
    }
}

/// What merging source array `sa` onto target array `ta` counts.
pub open spec fn array_tally(sa: ArrayModel, ta: ArrayModel) -> MergeTally
    decreases sa, 2int,
{
    if sa.member_type != ta.member_type || sa.array_type != ta.array_type {
        MergeTally { merged: 0, preserved_classes: 0, copied: 0, preserved_fields: 1 }
    } else {
        tally_sum(element_tallies(sa, ta))
    }
}

/// What merging each value of source array `sa` counts.
pub open spec fn element_tallies(sa: ArrayModel, ta: ArrayModel) -> Seq<MergeTally>
    decreases sa, 1int,
{
    Seq::new(sa.values.len(), |i: int| element_tally(sa, ta, i))
}

/// What merging value `i` of source array `sa` counts.
pub open spec fn element_tally(sa: ArrayModel, ta: ArrayModel, i: int) -> MergeTally
    decreases sa, 0int,
{
    if 0 <= i < sa.values.len() {
        match sa.values[i] {
            ElementModel::Class(sc) => match target_class_for(ta, i, sc.hash) {
                Some(tc) => class_tally(sc, tc),
                None => tally_zero(),
            },
            _ => tally_zero(),
        }
    } else {
        tally_zero()
    }
}

/// What merging target entry `t` from `src` counts.
pub open spec fn entry_tally(src: PayloadModel, t: EntryModel) -> MergeTally {
    if t.native_hash == SAVE_FILE_DETAIL_NATIVE_HASH {
        MergeTally { merged: 0, preserved_classes: 1, copied: 0, preserved_fields: 0 }
    } else {
        match find_entry_from(src.entries, t.native_hash, t.class.hash, 0) {
            Some(k) => if 0 <= k < src.entries.len() {
                tally_add(
                    MergeTally { merged: 1, preserved_classes: 0, copied: 0, preserved_fields: 0 },
                    class_tally(src.entries[k].class, t.class),
                )
            } else {
                tally_zero()
            },
            None => MergeTally { merged: 0, preserved_classes: 1, copied: 0, preserved_fields: 0 },
        }
    }
}

/// What merging each entry of `tgt` from `src` counts.
pub open spec fn entry_tallies(src: PayloadModel, tgt: PayloadModel) -> Seq<MergeTally> {
    Seq::new(tgt.entries.len(), |i: int| entry_tally(src, tgt.entries[i]))
}

/// What merging all of `tgt` from `src` counts.
pub open spec fn merge_tally(src: PayloadModel, tgt: PayloadModel) -> MergeTally {
    tally_sum(entry_tallies(src, tgt))
}

/// `x`, or `usize::MAX` where `x` is larger.
pub open spec fn sat(x: int) -> usize {
    if x > usize::MAX {
        usize::MAX
    } else {
        x as usize
    }
}

/// Report `r` with the counts of `t` added, each count stopping at `usize::MAX`.
pub open spec fn report_after(r: MergeReport, t: MergeTally) -> MergeReport {
    MergeReport {
        source_top_level_classes: r.source_top_level_classes,
        target_top_level_classes: r.target_top_level_classes,
        merged_top_level_classes: sat(r.merged_top_level_classes + t.merged),
        preserved_target_top_level_classes: sat(
            r.preserved_target_top_level_classes + t.preserved_classes,
        ),
        copied_source_fields: sat(r.copied_source_fields + t.copied),
        preserved_target_fields: sat(r.preserved_target_fields + t.preserved_fields),
    }
}

/// The report of merging `src` onto `tgt`.
pub open spec fn merge_report_spec(src: PayloadModel, tgt: PayloadModel) -> MergeReport {
    report_after(
        MergeReport {
            source_top_level_classes: src.entries.len() as usize,
            target_top_level_classes: tgt.entries.len() as usize,
            merged_top_level_classes: 0,
            preserved_target_top_level_classes: 0,
            copied_source_fields: 0,
            preserved_target_fields: 0,
        },
        merge_tally(src, tgt),
    )
}

proof fn lemma_report_after_twice(r: MergeReport, a: MergeTally, b: MergeTally)
    ensures
        report_after(report_after(r, a), b) == report_after(r, tally_add(a, b)),
{
}

proof fn lemma_report_after_zero(r: MergeReport)
    ensures
        report_after(r, tally_zero()) == r,
{
}

/// Summing one more count onto a prefix.
proof fn lemma_tally_sum_step(ts: Seq<MergeTally>, i: int)
    requires
        0 <= i < ts.len(),
    ensures
        tally_sum(ts.take(i + 1)) == tally_add(tally_sum(ts.take(i)), ts[i]),
{
    assert(ts.take(i + 1).drop_last() =~= ts.take(i));
}

// ---------------------------------------------------------------------------
// Merging
// ---------------------------------------------------------------------------
/// `x + 1`, or `usize::MAX` where that overflows.
fn bump(x: usize) -> (r: usize)
    ensures
        r == sat(x + 1),
{
    if x < usize::MAX {
        x + 1
    } else {
        x
    }
}

/// The class held by an array value, if it holds one.
pub fn as_class(value: &ArrayValue) -> (r: Option<&Class>)
    ensures
        value@ is Class <==> r is Some,
        r matches Some(c) ==> value@ == ElementModel::Class(c@),
{
    match value {
        ArrayValue::Class(class) => Some(&**class),
        _ => None,
    }
}

/// The index of the first field of `class` with hash `hash` and type `field_type`.
fn find_field(class: &Class, hash: u32, field_type: i32) -> (r: Option<usize>)
    ensures
        r matches Some(k) ==> k < class.fields@.len() && find_field_from(
            class@.fields,
            hash,
            field_type,
            0,
        ) == Some(k as int),
        r is None ==> find_field_from(class@.fields, hash, field_type, 0) is None,
{
    proof {
        lemma_fields_model(class.fields@);
    }
    let ghost fm = class@.fields;
    let mut i: usize = 0;
    while i < class.fields.len()
        invariant
            i <= class.fields@.len(),
            fm == class@.fields,
            fm.len() == class.fields@.len(),
            forall|j: int| 0 <= j < fm.len() ==> #[trigger] fm[j] == field_model(class.fields@[j]),
            find_field_from(fm, hash, field_type, 0) == find_field_from(fm, hash, field_type, i as int),
        decreases class.fields@.len() - i,
    {
        assert(fm[i as int] == field_model(class.fields@[i as int]));
        if class.fields[i].hash == hash && class.fields[i].field_type == field_type {
            return Some(i);
        }
        i = i + 1;
    }
    None
}

/// The index of the first entry of `payload` with native hash `nh` and class hash `ch`.
fn find_entry(payload: &SavePayload, nh: u32, ch: u32) -> (r: Option<usize>)
    ensures
        r matches Some(k) ==> k < payload.entries@.len() && find_entry_from(
            payload@.entries,
            nh,
            ch,
            0,
        ) == Some(k as int),
        r is None ==> find_entry_from(payload@.entries, nh, ch, 0) is None,
{
    let ghost em = payload@.entries;
    let mut i: usize = 0;
    while i < payload.entries.len()
        invariant
            i <= payload.entries@.len(),
            em == payload@.entries,
            em == entries_model(payload.entries@),
            find_entry_from(em, nh, ch, 0) == find_entry_from(em, nh, ch, i as int),
        decreases payload.entries@.len() - i,
    {
        assert(em[i as int] == entry_model(payload.entries@[i as int]));
        if payload.entries[i].native_hash == nh && payload.entries[i].class.hash == ch {
            return Some(i);
        }
        i = i + 1;
    }
    None
}

/// Where in `target` the class lies that source class value `index` with hash
/// `hash` merges onto.
fn find_target_class(target: &Array, index: usize, hash: u32) -> (r: Option<usize>)
    ensures
        r matches Some(j) ==> j < target.values@.len() && target@.values[j as int] is Class
            && target_class_for(target@, index as int, hash) == Some(
            target@.values[j as int]->Class_0,
        ),
        r is None ==> target_class_for(target@, index as int, hash) is None,
{
    proof {
        lemma_elements_model(target.values@);
    }
    let ghost vm = target@.values;
    if index < target.values.len() {
        assert(vm[index as int] == element_model(target.values@[index as int]));
        if let Some(c) = as_class(&target.values[index]) {
            if c.hash == hash {
                return Some(index);
            }
        }
    }
    let mut i: usize = 0;
    while i < target.values.len()
        invariant
            i <= target.values@.len(),
            vm == target@.values,
            vm.len() == target.values@.len(),
            forall|j: int| 0 <= j < vm.len() ==> #[trigger] vm[j] == element_model(target.values@[j]),
            find_class_from(vm, hash, 0) == find_class_from(vm, hash, i as int),
            target_class_for(target@, index as int, hash) == find_class_from(vm, hash, 0),
        decreases target.values@.len() - i,
    {
        assert(vm[i as int] == element_model(target.values@[i as int]));
        if let Some(c) = as_class(&target.values[i]) {
            if c.hash == hash {
                return Some(i);
            }
        }
        i = i + 1;
    }
    None
}

fn merge_class(source: &Class, target: &Class, report: &mut MergeReport) -> (r: Class)
    ensures
        r@ == merge_class_spec(source@, target@),
        *final(report) == report_after(*old(report), class_tally(source@, target@)),
    decreases source, 1int,
{
    if source.hash != target.hash || source.hash == 0 {
        proof {
            lemma_report_after_zero(*report);
        }
        return clone_class(source);
    }
    proof {
        lemma_fields_model(target.fields@);
        lemma_fields_model(source.fields@);
    }
    let ghost tfm = target@.fields;
    let ghost sm = source@;
    let ghost r0 = *report;
    let ghost tallies = field_tallies(sm, target@);
    let ghost merged = Seq::new(tfm.len(), |i: int| merge_field_spec(sm, tfm[i]));
    let mut fields: Vec<Field> = Vec::new();
    let mut i: usize = 0;
    proof {
        assert(tallies.take(0) =~= Seq::<MergeTally>::empty());
        lemma_report_after_zero(r0);
        assert(fields_model(fields@) =~= merged.take(0));
    }
    while i < target.fields.len()
        invariant
            i <= target.fields@.len(),
            tfm == target@.fields,
            sm == source@,
            tfm.len() == target.fields@.len(),
            forall|j: int| 0 <= j < tfm.len() ==> #[trigger] tfm[j] == field_model(target.fields@[j]),
            forall|j: int|
                0 <= j < source.fields@.len() ==> #[trigger] sm.fields[j] == field_model(
                    source.fields@[j],
                ),
            sm.fields.len() == source.fields@.len(),
            tallies == field_tallies(sm, target@),
            merged == Seq::new(tfm.len(), |i: int| merge_field_spec(sm, tfm[i])),
            *report == report_after(r0, tally_sum(tallies.take(i as int))),
            fields_model(fields@) == merged.take(i as int),
            sm.hash == target@.hash,
            sm.hash != 0,
        decreases target.fields@.len() - i,
    {
        let tf = &target.fields[i];
        assert(tfm[i as int] == field_model(*tf));
        let ghost before = fields@;
        let ghost rb = *report;
        let new_field = match find_field(source, tf.hash, tf.field_type) {
            Some(k) => {
                report.copied_source_fields = bump(report.copied_source_fields);
                assert(sm.fields[k as int] == field_model(source.fields@[k as int]));
                assert(decreases_to!(source => source.fields@[k as int].value));
                let value = merge_value(&source.fields[k].value, &tf.value, report);
                proof {
                    lemma_report_after_twice(
                        rb,
                        MergeTally { merged: 0, preserved_classes: 0, copied: 1, preserved_fields: 0 },
                        value_tally(sm.fields[k as int].value, tfm[i as int].value),
                    );
                }
                Field { hash: tf.hash, field_type: tf.field_type, value }
            },
            None => {
                report.preserved_target_fields = bump(report.preserved_target_fields);
                clone_field(tf)
            },
        };
        proof {
            assert(field_model(new_field) == merged[i as int]);
            assert(*report == report_after(rb, tallies[i as int]));
        }
        fields.push(new_field);
        proof {
            lemma_tally_sum_step(tallies, i as int);
            lemma_report_after_twice(r0, tally_sum(tallies.take(i as int)), tallies[i as int]);
            assert(fields@.drop_last() =~= before);
            assert(fields_model(fields@) == fields_model(before).push(field_model(new_field)));
            assert(fields_model(fields@) =~= merged.take(i + 1));
        }
        i = i + 1;
    }
    proof {
        assert(tallies.take(i as int) =~= tallies);
        assert(merged.take(i as int) =~= merged);
        assert(merged =~= merge_class_spec(sm, target@).fields);
    }
    Class { hash: target.hash, fields }
}

fn merge_value(source: &FieldValue, target: &FieldValue, report: &mut MergeReport) -> (r: FieldValue)
    ensures
        r@ == merge_value_spec(source@, target@),
        *final(report) == report_after(*old(report), value_tally(source@, target@)),
    decreases source, 0int,
{
    proof {
        lemma_report_after_zero(*report);
    }
    match source {
        FieldValue::Class(s) => match target {
            FieldValue::Class(t) => FieldValue::Class(Box::new(merge_class(s, t, report))),
            _ => source.clone(),
        },
        FieldValue::Array(s) => match target {
            FieldValue::Array(t) => FieldValue::Array(merge_array(s, t, report)),
            _ => source.clone(),
        },
        _ => source.clone(),
    }
}

fn merge_array(source: &Array, target: &Array, report: &mut MergeReport) -> (r: Array)
    ensures
        r@ == merge_array_spec(source@, target@),
        *final(report) == report_after(*old(report), array_tally(source@, target@)),
    decreases source, 1int,
{
    if source.member_type != target.member_type || source.array_type != target.array_type {
        report.preserved_target_fields = bump(report.preserved_target_fields);
        return clone_array(target);
    }
    proof {
        lemma_elements_model(source.values@);
    }
    let ghost sa = source@;
    let ghost ta = target@;
    let ghost r0 = *report;
    let ghost tallies = element_tallies(sa, ta);
    let ghost merged = Seq::new(sa.values.len(), |i: int| merge_element_spec(sa, ta, i));
    let mut values: Vec<ArrayValue> = Vec::new();
    let mut i: usize = 0;
    proof {
        assert(tallies.take(0) =~= Seq::<MergeTally>::empty());
        lemma_report_after_zero(r0);
        assert(elements_model(values@) =~= merged.take(0));
    }
    while i < source.values.len()
        invariant
            i <= source.values@.len(),
            sa == source@,
            ta == target@,
            sa.values.len() == source.values@.len(),
            forall|j: int|
                0 <= j < sa.values.len() ==> #[trigger] sa.values[j] == element_model(
                    source.values@[j],
                ),
            tallies == element_tallies(sa, ta),
            merged == Seq::new(sa.values.len(), |i: int| merge_element_spec(sa, ta, i)),
            *report == report_after(r0, tally_sum(tallies.take(i as int))),
            elements_model(values@) == merged.take(i as int),
            sa.member_type == ta.member_type,
            sa.array_type == ta.array_type,
        decreases source.values@.len() - i,
    {
        assert(sa.values[i as int] == element_model(source.values@[i as int]));
        let ghost before = values@;
        let ghost rb = *report;
        let value = match &source.values[i] {
            ArrayValue::Class(sc) => match find_target_class(target, i, sc.hash) {
                Some(j) => {
                    proof {
                        lemma_elements_model(target.values@);
                    }
                    assert(ta.values[j as int] == element_model(target.values@[j as int]));
                    match &target.values[j] {
                        ArrayValue::Class(tc) => {
                            assert(decreases_to!(source => source.values@[i as int]));
                            ArrayValue::Class(Box::new(merge_class(sc, tc, report)))
                        },
                        _ => {
                            proof {
                                assert(false);
                            }
                            clone_element(&source.values[i])
                        },
                    }
                },
                None => {
                    proof {
                        lemma_report_after_zero(rb);
                    }
                    clone_element(&source.values[i])
                },
            },
            _ => {
                proof {
                    lemma_report_after_zero(rb);
                }
                clone_element(&source.values[i])
            },
        };
        proof {
            assert(element_model(value) == merged[i as int]);
            assert(*report == report_after(rb, tallies[i as int]));
        }
        values.push(value);
        proof {
            lemma_tally_sum_step(tallies, i as int);
            lemma_report_after_twice(r0, tally_sum(tallies.take(i as int)), tallies[i as int]);
            assert(values@.drop_last() =~= before);
            assert(elements_model(values@) == elements_model(before).push(element_model(value)));
            assert(elements_model(values@) =~= merged.take(i + 1));
        }
        i = i + 1;
    }
    proof {
        assert(tallies.take(i as int) =~= tallies);
        assert(merged.take(i as int) =~= merged);
        assert(merged =~= merge_array_spec(sa, ta).values);
    }
    let class_hashes = match &source.class_hashes {
        Some(h) => Some(clone_u32s(h)),
        None => None,
    };
    Array {
        member_type: source.member_type,
        member_size: source.member_size,
        array_type: source.array_type,
        class_hashes,
        values,
    }
}

fn merge_top_level(source: &SavePayload, target: &NativeClass, report: &mut MergeReport) -> (r:
    NativeClass)
    ensures
        r@ == merge_entry_spec(source@, target@),
        *final(report) == report_after(*old(report), entry_tally(source@, target@)),
{
    if target.native_hash == SAVE_FILE_DETAIL_NATIVE_HASH {
        report.preserved_target_top_level_classes = bump(
            report.preserved_target_top_level_classes,
        );
        return target.clone();
    }
    match find_entry(source, target.native_hash, target.class.hash) {
        None => {
            report.preserved_target_top_level_classes = bump(
                report.preserved_target_top_level_classes,
            );
            target.clone()
        },
        Some(k) => {
            let ghost rb = *report;
            report.merged_top_level_classes = bump(report.merged_top_level_classes);
            assert(source@.entries[k as int] == entry_model(source.entries@[k as int]));
            let class = merge_class(&source.entries[k].class, &target.class, report);
            proof {
                lemma_report_after_twice(
                    rb,
                    MergeTally { merged: 1, preserved_classes: 0, copied: 0, preserved_fields: 0 },
                    class_tally(source@.entries[k as int].class, target@.class),
                );
            }
            NativeClass { native_hash: target.native_hash, class }
        },
    }
}

/// Merges `source` onto `target_template`: the result has the template's entries
/// in the template's order, each carrying over the matching source values.
pub fn merge_onto_template(source: &SavePayload, target_template: &SavePayload) -> (r: (
    SavePayload,
    MergeReport,
))
    ensures
        r.0@ == merge_spec(source@, target_template@),
        r.1 == merge_report_spec(source@, target_template@),
{
    let mut report = MergeReport {
        source_top_level_classes: source.entries.len(),
        target_top_level_classes: target_template.entries.len(),
        merged_top_level_classes: 0,
        preserved_target_top_level_classes: 0,
        copied_source_fields: 0,
        preserved_target_fields: 0,
    };
    let ghost src = source@;
    let ghost tgt = target_template@;
    let ghost r0 = report;
    let ghost tallies = entry_tallies(src, tgt);
    let ghost merged = Seq::new(tgt.entries.len(), |i: int| merge_entry_spec(src, tgt.entries[i]));
    let mut entries: Vec<NativeClass> = Vec::new();
    let mut i: usize = 0;
    proof {
        assert(tallies.take(0) =~= Seq::<MergeTally>::empty());
        lemma_report_after_zero(r0);
        assert(entries_model(entries@) =~= merged.take(0));
    }
    while i < target_template.entries.len()
        invariant
            i <= target_template.entries@.len(),
            src == source@,
            tgt == target_template@,
            tgt.entries == entries_model(target_template.entries@),
            tallies == entry_tallies(src, tgt),
            merged == Seq::new(tgt.entries.len(), |i: int| merge_entry_spec(src, tgt.entries[i])),
            report == report_after(r0, tally_sum(tallies.take(i as int))),
            entries_model(entries@) == merged.take(i as int),
            entries@.len() == i,
        decreases target_template.entries@.len() - i,
    {
        let ghost before = entries@;
        let entry = merge_top_level(source, &target_template.entries[i], &mut report);
        entries.push(entry);
        proof {
            lemma_tally_sum_step(tallies, i as int);
            lemma_report_after_twice(r0, tally_sum(tallies.take(i as int)), tallies[i as int]);
            assert forall|j: int| 0 <= j < i implies entries@[j] == before[j] by {}
            assert(entries_model(entries@) =~= merged.take(i + 1)) by {
                assert forall|j: int| 0 <= j < i + 1 implies #[trigger] entries_model(entries@)[j]
                    == merged.take(i + 1)[j] by {
                    if j < i {
                        assert(entries_model(before)[j] == merged.take(i as int)[j]);
                    }
                }
            }
        }
        i = i + 1;
    }
    proof {
        assert(tallies.take(i as int) =~= tallies);
        assert(merged.take(i as int) =~= merged);
    }
    (SavePayload { entries }, report)
}

} // verus!
