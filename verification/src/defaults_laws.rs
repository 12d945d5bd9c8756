//! What the built-in Steam schema keeps of every source: reordering moves
//! entries without losing or adding any, the Steam-only classes are present,
//! and the save-file detail comes last.
use vstd::prelude::*;

use crate::defaults::{
    external_quest_data_spec, first_entry_with, first_field_with, push_if_missing_spec,
    telemetry_fields_spec, has_entry, patch_character_consistency_id_spec,
    patch_dlc_system_spec, patch_load_info_spec, patch_pc_telemetry_spec, reorder_pass,
    reorder_spec, slot_profile_spec, steam_character_options_spec, steam_key_config_spec,
    steam_slot_order, steam_system_options_spec, steam_system_order, steam_version_checker_spec,
    system_profile_spec, take_first_with, upsert_spec, with_class_fields, SAVE_FILE_DETAIL,
};
use crate::payload_model::{ClassModel, EntryModel, FieldModel, ValueModel};
use crate::defaults::{
    dlc_available_spec, dlc_fields_spec, dlc_hashes, dlc_system_patchable, empty_class_array_field_spec, lemma_find_entry_with_class_fields, pick_fields, scalar_field_spec, steam_template_defined, steam_template_spec, hunter_id_spec, insert_before_version_spec, SLOT_MARKER, SYSTEM_MARKER, S64,
};
use crate::bytes::zeros;
use crate::translation::find_entry_from;

verus! {

broadcast use vstd::seq_lib::group_to_multiset_ensures;

/// The search for a native hash finds the first entry with it, and finds one
/// exactly where there is one.
pub proof fn lemma_first_entry_with(es: Seq<EntryModel>, nh: u32, i: int)
    requires
        0 <= i,
    ensures
        first_entry_with(es, nh, i) matches Some(k) ==> i <= k < es.len() && es[k].native_hash
            == nh && forall|j: int| i <= j < k ==> (#[trigger] es[j]).native_hash != nh,
        first_entry_with(es, nh, i) is None ==> forall|j: int|
            i <= j < es.len() ==> (#[trigger] es[j]).native_hash != nh,
    decreases es.len() - i,
{
    if i < es.len() && es[i].native_hash != nh {
        lemma_first_entry_with(es, nh, i + 1);
    }
}

/// `es` has an entry with native hash `nh` exactly where one of its entries has it.
pub proof fn lemma_has_entry(es: Seq<EntryModel>, nh: u32)
    ensures
        has_entry(es, nh) <==> exists|j: int| 0 <= j < es.len() && (#[trigger] es[j]).native_hash
            == nh,
{
    lemma_first_entry_with(es, nh, 0);
    if let Some(k) = first_entry_with(es, nh, 0) {
        assert(es[k].native_hash == nh);
    }
}

/// Moving one entry from `remaining` to `ordered` keeps the entries of both together.
proof fn lemma_take_first_permutes(ordered: Seq<EntryModel>, remaining: Seq<EntryModel>, nh: u32)
    ensures
        take_first_with(ordered, remaining, nh).0.to_multiset().add(
            take_first_with(ordered, remaining, nh).1.to_multiset(),
        ) =~= ordered.to_multiset().add(remaining.to_multiset()),
{
    broadcast use vstd::multiset::group_multiset_axioms;

    lemma_first_entry_with(remaining, nh, 0);
    if let Some(k) = first_entry_with(remaining, nh, 0) {
        let x = remaining[k];
        assert(remaining.to_multiset().count(x) > 0) by {
            assert(remaining.contains(x));
        }
    }
}

/// The ordering pass keeps the entries of both sequences together.
proof fn lemma_reorder_pass_permutes(
    ordered: Seq<EntryModel>,
    remaining: Seq<EntryModel>,
    order: Seq<u32>,
)
    ensures
        reorder_pass(ordered, remaining, order).0.to_multiset().add(
            reorder_pass(ordered, remaining, order).1.to_multiset(),
        ) =~= ordered.to_multiset().add(remaining.to_multiset()),
    decreases order.len(),
{
    if order.len() > 0 {
        let (o, r) = take_first_with(ordered, remaining, order[0]);
        lemma_take_first_permutes(ordered, remaining, order[0]);
        lemma_reorder_pass_permutes(o, r, order.drop_first());
    }
}

/// Reordering moves the entries without losing or adding any: the result is
/// a permutation of `es`.
pub proof fn lemma_reorder_permutes(es: Seq<EntryModel>, order: Seq<u32>)
    ensures
        reorder_spec(es, order).to_multiset() == es.to_multiset(),
{
    broadcast use vstd::multiset::group_multiset_axioms;
    broadcast use vstd::seq_lib::lemma_multiset_commutative;

    let (o, r) = reorder_pass(Seq::empty(), es, order);
    lemma_reorder_pass_permutes(Seq::empty(), es, order);
    let m = es.to_multiset();
    assert(Seq::<EntryModel>::empty().to_multiset() =~= vstd::multiset::Multiset::empty());
    assert(Seq::<EntryModel>::empty().to_multiset().add(m) =~= m);
    assert(o.to_multiset().add(r.to_multiset()) =~= m);
    lemma_first_entry_with(o, SAVE_FILE_DETAIL, 0);
    if let Some(k) = first_entry_with(o, SAVE_FILE_DETAIL, 0) {
        let x = o[k];
        assert(o.contains(x));
        assert(o.to_multiset().count(x) > 0);
        let t = o.remove(k) + r;
        assert(o.remove(k).to_multiset() =~= o.to_multiset().remove(x));
        assert(t.to_multiset() =~= o.remove(k).to_multiset().add(r.to_multiset()));
        assert(t + seq![x] =~= t.push(x));
        assert(t.push(x).to_multiset() =~= t.to_multiset().insert(x));
        assert(o.to_multiset().remove(x).add(r.to_multiset()).insert(x) =~= m);
        assert(reorder_spec(es, order) == t + seq![x]);
    } else {
        assert((o + r).to_multiset() =~= o.to_multiset().add(r.to_multiset()));
        assert(reorder_spec(es, order) == o + r);
    }
}

/// An entry with native hash `nh` stays in reach of the ordering pass: it is
/// already ordered, or it is remaining and `order` names `nh`.
proof fn lemma_reorder_pass_keeps_hash(
    ordered: Seq<EntryModel>,
    remaining: Seq<EntryModel>,
    order: Seq<u32>,
    nh: u32,
)
    requires
        has_entry(ordered, nh) || (has_entry(remaining, nh) && order.contains(nh)),
    ensures
        has_entry(reorder_pass(ordered, remaining, order).0, nh),
    decreases order.len(),
{
    lemma_has_entry(ordered, nh);
    lemma_has_entry(remaining, nh);
    if order.len() == 0 {
        assert(!order.contains(nh));
    } else {
        let (o, r) = take_first_with(ordered, remaining, order[0]);
        lemma_first_entry_with(remaining, order[0], 0);
        lemma_has_entry(o, nh);
        lemma_has_entry(r, nh);
        if has_entry(ordered, nh) {
            let j = choose|j: int| 0 <= j < ordered.len() && (#[trigger] ordered[j]).native_hash == nh;
            assert(o[j] == ordered[j]);
        } else if order[0] == nh {
            let k = first_entry_with(remaining, nh, 0)->Some_0;
            assert(o[ordered.len() as int] == remaining[k]);
        } else {
            let j = choose|j: int|
                0 <= j < remaining.len() && (#[trigger] remaining[j]).native_hash == nh;
            if let Some(k) = first_entry_with(remaining, order[0], 0) {
                if j < k {
                    assert(r[j] == remaining[j]);
                } else {
                    assert(r[j - 1] == remaining[j]);
                }
            } else {
                assert(r[j] == remaining[j]);
            }
            assert(order.drop_first().contains(nh)) by {
                let m = choose|m: int| 0 <= m < order.len() && order[m] == nh;
                assert(order.drop_first()[m - 1] == nh);
            }
        }
        lemma_reorder_pass_keeps_hash(o, r, order.drop_first(), nh);
    }
}

/// Where `es` has a save-file detail entry and `order` names it, reordering
/// puts a save-file detail entry last.
pub proof fn lemma_reorder_puts_detail_last(es: Seq<EntryModel>, order: Seq<u32>)
    requires
        has_entry(es, SAVE_FILE_DETAIL),
        order.contains(SAVE_FILE_DETAIL),
    ensures
        reorder_spec(es, order).len() > 0,
        reorder_spec(es, order).last().native_hash == SAVE_FILE_DETAIL,
{
    lemma_has_entry(Seq::<EntryModel>::empty(), SAVE_FILE_DETAIL);
    lemma_reorder_pass_keeps_hash(Seq::empty(), es, order, SAVE_FILE_DETAIL);
    let (o, r) = reorder_pass(Seq::empty(), es, order);
    lemma_first_entry_with(o, SAVE_FILE_DETAIL, 0);
}

/// Upserting `e` puts `e` in the entries.
proof fn lemma_upsert_contains(es: Seq<EntryModel>, e: EntryModel)
    ensures
        upsert_spec(es, e).contains(e),
{
    lemma_first_entry_with(es, e.native_hash, 0);
    if let Some(k) = first_entry_with(es, e.native_hash, 0) {
        assert(upsert_spec(es, e)[k] == e);
    } else {
        assert(upsert_spec(es, e)[es.len() as int] == e);
    }
}

/// Upserting `e` keeps every entry of another native hash.
proof fn lemma_upsert_keeps(es: Seq<EntryModel>, e: EntryModel, x: EntryModel)
    requires
        es.contains(x),
        x.native_hash != e.native_hash,
    ensures
        upsert_spec(es, e).contains(x),
{
    lemma_first_entry_with(es, e.native_hash, 0);
    let j = choose|j: int| 0 <= j < es.len() && es[j] == x;
    assert(upsert_spec(es, e)[j] == x);
}

/// Upserting an entry of another native hash keeps an entry with hash `nh`.
proof fn lemma_upsert_keeps_hash(es: Seq<EntryModel>, e: EntryModel, nh: u32)
    requires
        has_entry(es, nh),
        e.native_hash != nh,
    ensures
        has_entry(upsert_spec(es, e), nh),
{
    lemma_has_entry(es, nh);
    lemma_has_entry(upsert_spec(es, e), nh);
    let j = choose|j: int| 0 <= j < es.len() && (#[trigger] es[j]).native_hash == nh;
    lemma_first_entry_with(es, e.native_hash, 0);
    assert(upsert_spec(es, e)[j].native_hash == nh);
}

/// Changing the fields of one entry keeps every native hash.
proof fn lemma_with_class_fields_keeps_hash(es: Seq<EntryModel>, k: int, fs: Seq<FieldModel>, nh: u32)
    requires
        0 <= k < es.len(),
        has_entry(es, nh),
    ensures
        has_entry(with_class_fields(es, k, fs), nh),
{
    lemma_has_entry(es, nh);
    lemma_has_entry(with_class_fields(es, k, fs), nh);
    let j = choose|j: int| 0 <= j < es.len() && (#[trigger] es[j]).native_hash == nh;
    assert(with_class_fields(es, k, fs)[j].native_hash == nh);
}

/// The patches of a class keep every native hash.
proof fn lemma_patches_keep_hash(es: Seq<EntryModel>, nh: u32)
    requires
        has_entry(es, nh),
    ensures
        has_entry(patch_dlc_system_spec(patch_load_info_spec(es)), nh),
        has_entry(patch_pc_telemetry_spec(patch_character_consistency_id_spec(es)), nh),
{
    let lf = patch_load_info_spec(es);
    crate::merge_laws::lemma_find_entry_from(es, 0x0b19_f75b, 0xe6a6_9e8a, 0);
    if let Some(k) = find_entry_from(es, 0x0b19_f75b, 0xe6a6_9e8a, 0) {
        lemma_with_class_fields_keeps_hash(es, k, lf[k].class.fields, nh);
    }
    crate::merge_laws::lemma_find_entry_from(lf, 0x4d64_87d4, 0xa0a6_441d, 0);
    if let Some(k) = find_entry_from(lf, 0x4d64_87d4, 0xa0a6_441d, 0) {
        lemma_with_class_fields_keeps_hash(
            lf,
            k,
            patch_dlc_system_spec(lf)[k].class.fields,
            nh,
        );
    }
    let cc = patch_character_consistency_id_spec(es);
    crate::merge_laws::lemma_find_entry_from(es, 0x356f_270b, 0x5766_f30b, 0);
    if let Some(k) = find_entry_from(es, 0x356f_270b, 0x5766_f30b, 0) {
        lemma_with_class_fields_keeps_hash(es, k, cc[k].class.fields, nh);
    }
    crate::merge_laws::lemma_find_entry_from(cc, 0x1322_883a, 0x8b6c_3ddc, 0);
    if let Some(k) = find_entry_from(cc, 0x1322_883a, 0x8b6c_3ddc, 0) {
        if patch_pc_telemetry_spec(cc) != cc {
            lemma_with_class_fields_keeps_hash(
                cc,
                k,
                patch_pc_telemetry_spec(cc)[k].class.fields,
                nh,
            );
        }
    }
}

/// A reordered sequence holds what the sequence held.
proof fn lemma_reorder_contains(es: Seq<EntryModel>, order: Seq<u32>, x: EntryModel)
    requires
        es.contains(x),
    ensures
        reorder_spec(es, order).contains(x),
{
    lemma_reorder_permutes(es, order);
    assert(es.to_multiset().count(x) > 0);
}

/// The Steam schema of a system save has the Steam version checker, the Steam
/// system options and the Steam key configuration, and, where the save has a
/// save-file detail entry, a save-file detail entry last.
pub proof fn lemma_system_profile_shape(es: Seq<EntryModel>)
    ensures
        system_profile_spec(es).contains(steam_version_checker_spec()),
        system_profile_spec(es).contains(steam_system_options_spec()),
        system_profile_spec(es).contains(steam_key_config_spec()),
        has_entry(es, SAVE_FILE_DETAIL) ==> system_profile_spec(es).last().native_hash
            == SAVE_FILE_DETAIL,
{
    let patched = patch_dlc_system_spec(patch_load_info_spec(es));
    let a = upsert_spec(patched, steam_version_checker_spec());
    let b = upsert_spec(a, steam_system_options_spec());
    let c = upsert_spec(b, steam_key_config_spec());
    lemma_upsert_contains(patched, steam_version_checker_spec());
    lemma_upsert_keeps(a, steam_system_options_spec(), steam_version_checker_spec());
    lemma_upsert_contains(a, steam_system_options_spec());
    lemma_upsert_keeps(b, steam_key_config_spec(), steam_version_checker_spec());
    lemma_upsert_keeps(b, steam_key_config_spec(), steam_system_options_spec());
    lemma_upsert_contains(b, steam_key_config_spec());
    lemma_reorder_contains(c, steam_system_order(), steam_version_checker_spec());
    lemma_reorder_contains(c, steam_system_order(), steam_system_options_spec());
    lemma_reorder_contains(c, steam_system_order(), steam_key_config_spec());
    if has_entry(es, SAVE_FILE_DETAIL) {
        lemma_patches_keep_hash(es, SAVE_FILE_DETAIL);
        lemma_upsert_keeps_hash(patched, steam_version_checker_spec(), SAVE_FILE_DETAIL);
        lemma_upsert_keeps_hash(a, steam_system_options_spec(), SAVE_FILE_DETAIL);
        lemma_upsert_keeps_hash(b, steam_key_config_spec(), SAVE_FILE_DETAIL);
        assert(steam_system_order()[8] == SAVE_FILE_DETAIL);
        lemma_reorder_puts_detail_last(c, steam_system_order());
    }
}

/// The Steam schema of a slot save has the external quest data and the Steam
/// character options, and, where the save has a save-file detail entry, a
/// save-file detail entry last.
pub proof fn lemma_slot_profile_shape(es: Seq<EntryModel>)
    ensures
        slot_profile_spec(es).contains(external_quest_data_spec()),
        slot_profile_spec(es).contains(steam_character_options_spec()),
        has_entry(es, SAVE_FILE_DETAIL) ==> slot_profile_spec(es).last().native_hash
            == SAVE_FILE_DETAIL,
{
    let patched = patch_pc_telemetry_spec(patch_character_consistency_id_spec(es));
    let a = upsert_spec(patched, external_quest_data_spec());
    let b = upsert_spec(a, steam_character_options_spec());
    lemma_upsert_contains(patched, external_quest_data_spec());
    lemma_upsert_keeps(a, steam_character_options_spec(), external_quest_data_spec());
    lemma_upsert_contains(a, steam_character_options_spec());
    lemma_reorder_contains(b, steam_slot_order(), external_quest_data_spec());
    lemma_reorder_contains(b, steam_slot_order(), steam_character_options_spec());
    if has_entry(es, SAVE_FILE_DETAIL) {
        lemma_patches_keep_hash(es, SAVE_FILE_DETAIL);
        lemma_upsert_keeps_hash(patched, external_quest_data_spec(), SAVE_FILE_DETAIL);
        lemma_upsert_keeps_hash(a, steam_character_options_spec(), SAVE_FILE_DETAIL);
        assert(steam_slot_order()[39] == SAVE_FILE_DETAIL);
        lemma_reorder_puts_detail_last(b, steam_slot_order());
    }
}

/// The search for a field hash finds one exactly where a field from `i` on has it.
pub proof fn lemma_first_field_with(fs: Seq<FieldModel>, hash: u32, i: int)
    requires
        0 <= i,
    ensures
        first_field_with(fs, hash, i) is Some <==> exists|j: int|
            i <= j < fs.len() && (#[trigger] fs[j]).hash == hash,
    decreases fs.len() - i,
{
    if i < fs.len() && fs[i].hash != hash {
        lemma_first_field_with(fs, hash, i + 1);
        if exists|j: int| i <= j < fs.len() && (#[trigger] fs[j]).hash == hash {
            let j = choose|j: int| i <= j < fs.len() && (#[trigger] fs[j]).hash == hash;
            assert(i + 1 <= j);
        }
    }
}

/// Pushing a field where it is missing keeps the fields there, and afterwards
/// a field with its hash is there.
proof fn lemma_push_if_missing(fs: Seq<FieldModel>, f: FieldModel)
    ensures
        push_if_missing_spec(fs, f).take(fs.len() as int) == fs,
        first_field_with(push_if_missing_spec(fs, f), f.hash, 0) is Some,
        forall|h: u32|
            #[trigger] first_field_with(fs, h, 0) is Some ==> first_field_with(
                push_if_missing_spec(fs, f),
                h,
                0,
            ) is Some,
{
    let r = push_if_missing_spec(fs, f);
    assert(r.take(fs.len() as int) =~= fs);
    lemma_first_field_with(fs, f.hash, 0);
    lemma_first_field_with(r, f.hash, 0);
    if first_field_with(fs, f.hash, 0) is None {
        assert(r[fs.len() as int].hash == f.hash);
    }
    assert forall|h: u32| #[trigger] first_field_with(fs, h, 0) is Some implies first_field_with(
        r,
        h,
        0,
    ) is Some by {
        lemma_first_field_with(fs, h, 0);
        lemma_first_field_with(r, h, 0);
        let j = choose|j: int| 0 <= j < fs.len() && (#[trigger] fs[j]).hash == h;
        assert(r[j] == fs[j]);
    }
}

/// The telemetry patch of a product class keeps its fields, in order, and
/// adds what is missing of the Steam telemetry fields; patching again
/// changes nothing.
pub proof fn lemma_telemetry_fields(fs: Seq<FieldModel>)
    ensures
        telemetry_fields_spec(fs).take(fs.len() as int) == fs,
        first_field_with(telemetry_fields_spec(fs), 0xff28_f5f3, 0) is Some,
        first_field_with(telemetry_fields_spec(fs), 0x85b7_7a5a, 0) is Some,
        first_field_with(telemetry_fields_spec(fs), 0x503b_7ec1, 0) is Some,
        first_field_with(telemetry_fields_spec(fs), 0x698a_e462, 0) is Some,
        first_field_with(telemetry_fields_spec(fs), 0x6e23_2145, 0) is Some,
        first_field_with(telemetry_fields_spec(fs), 0x0a36_0ef6, 0) is Some,
        first_field_with(telemetry_fields_spec(fs), 0xcb7a_2960, 0) is Some,
        first_field_with(telemetry_fields_spec(fs), 0x4627_d929, 0) is Some,
        first_field_with(telemetry_fields_spec(fs), 0x640a_f498, 0) is Some,
        telemetry_fields_spec(telemetry_fields_spec(fs)) == telemetry_fields_spec(fs),
{
    let f1 = push_if_missing_spec(fs, empty_class_array_field_spec(0xff28_f5f3));
    let f2 = push_if_missing_spec(f1, empty_class_array_field_spec(0x85b7_7a5a));
    let f3 = push_if_missing_spec(f2, empty_class_array_field_spec(0x503b_7ec1));
    let f4 = push_if_missing_spec(f3, empty_class_array_field_spec(0x698a_e462));
    let f5 = push_if_missing_spec(f4, scalar_field_spec(0x6e23_2145, S64, zeros(8)));
    let f6 = push_if_missing_spec(f5, empty_class_array_field_spec(0x0a36_0ef6));
    let f7 = push_if_missing_spec(f6, empty_class_array_field_spec(0xcb7a_2960));
    let f8 = push_if_missing_spec(f7, empty_class_array_field_spec(0x4627_d929));
    let f9 = push_if_missing_spec(f8, scalar_field_spec(0x640a_f498, S64, zeros(8)));
    lemma_push_if_missing(fs, empty_class_array_field_spec(0xff28_f5f3));
    lemma_push_if_missing(f1, empty_class_array_field_spec(0x85b7_7a5a));
    lemma_push_if_missing(f2, empty_class_array_field_spec(0x503b_7ec1));
    lemma_push_if_missing(f3, empty_class_array_field_spec(0x698a_e462));
    lemma_push_if_missing(f4, scalar_field_spec(0x6e23_2145, S64, zeros(8)));
    lemma_push_if_missing(f5, empty_class_array_field_spec(0x0a36_0ef6));
    lemma_push_if_missing(f6, empty_class_array_field_spec(0xcb7a_2960));
    lemma_push_if_missing(f7, empty_class_array_field_spec(0x4627_d929));
    lemma_push_if_missing(f8, scalar_field_spec(0x640a_f498, S64, zeros(8)));
    assert(f9.take(fs.len() as int) =~= fs) by {
        assert(f1.len() >= fs.len() && f2.len() >= f1.len() && f3.len() >= f2.len());
        assert(f4.len() >= f3.len() && f5.len() >= f4.len() && f6.len() >= f5.len());
        assert(f7.len() >= f6.len() && f8.len() >= f7.len() && f9.len() >= f8.len());
        assert forall|i: int| 0 <= i < fs.len() implies f9[i] == fs[i] by {
            assert(f1[i] == fs[i]);
            assert(f2[i] == f1[i]);
            assert(f3[i] == f2[i]);
            assert(f4[i] == f3[i]);
            assert(f5[i] == f4[i]);
            assert(f6[i] == f5[i]);
            assert(f7[i] == f6[i]);
            assert(f8[i] == f7[i]);
            assert(f9[i] == f8[i]);
        }
    }
}

/// The search for an entry sees only native hashes and class hashes.
proof fn lemma_find_entry_same_keys(es: Seq<EntryModel>, fs: Seq<EntryModel>, nh: u32, ch: u32, i: int)
    requires
        es.len() == fs.len(),
        forall|t: int|
            0 <= t < es.len() ==> (#[trigger] es[t]).native_hash == fs[t].native_hash
                && es[t].class.hash == fs[t].class.hash,
    ensures
        find_entry_from(es, nh, ch, i) == find_entry_from(fs, nh, ch, i),
    decreases es.len() - i,
{
    if 0 <= i < es.len() {
        lemma_find_entry_same_keys(es, fs, nh, ch, i + 1);
    }
}

/// The search for a field hash sees only field hashes.
proof fn lemma_first_field_same_hashes(a: Seq<FieldModel>, b: Seq<FieldModel>, hash: u32, i: int)
    requires
        a.len() == b.len(),
        forall|t: int| 0 <= t < a.len() ==> (#[trigger] a[t]).hash == b[t].hash,
    ensures
        first_field_with(a, hash, i) == first_field_with(b, hash, i),
    decreases a.len() - i,
{
    if 0 <= i < a.len() {
        lemma_first_field_same_hashes(a, b, hash, i + 1);
    }
}

/// The search for a field hash finds a field with that hash.
proof fn lemma_first_field_index(fs: Seq<FieldModel>, hash: u32, i: int)
    ensures
        first_field_with(fs, hash, i) matches Some(j) ==> i <= j < fs.len() && fs[j].hash == hash,
    decreases fs.len() - i,
{
    if 0 <= i < fs.len() && fs[i].hash != hash {
        lemma_first_field_index(fs, hash, i + 1);
    }
}

/// The telemetry patch is idempotent: patching a patched stream changes nothing.
pub proof fn lemma_patch_pc_telemetry_idempotent(es: Seq<EntryModel>)
    ensures
        patch_pc_telemetry_spec(patch_pc_telemetry_spec(es)) == patch_pc_telemetry_spec(es),
{
    let patched = patch_pc_telemetry_spec(es);
    if patched != es {
        let k = find_entry_from(es, 0x1322_883a, 0x8b6c_3ddc, 0)->Some_0;
        crate::merge_laws::lemma_find_entry_from(es, 0x1322_883a, 0x8b6c_3ddc, 0);
        let fs = es[k].class.fields;
        let j = first_field_with(fs, 0x0d01_1e4c, 0)->Some_0;
        lemma_first_field_with(fs, 0x0d01_1e4c, 0);
        lemma_first_field_index(fs, 0x0d01_1e4c, 0);
        let c = fs[j].value->Class_0;
        let nf = FieldModel {
            hash: fs[j].hash,
            field_type: fs[j].field_type,
            value: ValueModel::Class(ClassModel { hash: c.hash, fields: telemetry_fields_spec(c.fields) }),
        };
        let fs2 = fs.update(j, nf);
        assert(patched == with_class_fields(es, k, fs2));
        assert forall|t: int| 0 <= t < es.len() implies (#[trigger] patched[t]).native_hash
            == es[t].native_hash && patched[t].class.hash == es[t].class.hash by {}
        lemma_find_entry_same_keys(patched, es, 0x1322_883a, 0x8b6c_3ddc, 0);
        assert(patched[k].class.fields == fs2);
        assert forall|t: int| 0 <= t < fs2.len() implies (#[trigger] fs2[t]).hash == fs[t].hash by {}
        lemma_first_field_same_hashes(fs2, fs, 0x0d01_1e4c, 0);
        lemma_telemetry_fields(c.fields);
        assert(fs2.update(j, nf) =~= fs2);
        assert(with_class_fields(patched, k, fs2) =~= patched);
    }
}

/// The search for a field hash finds the first field with it.
proof fn lemma_first_field_is_first(fs: Seq<FieldModel>, hash: u32, j: int)
    requires
        0 <= j < fs.len(),
        fs[j].hash == hash,
        forall|t: int| 0 <= t < j ==> (#[trigger] fs[t]).hash != hash,
    ensures
        first_field_with(fs, hash, 0) == Some(j),
{
    lemma_first_field_index(fs, hash, 0);
    lemma_first_field_with(fs, hash, 0);
    lemma_first_field_before(fs, hash, 0, j);
}

proof fn lemma_first_field_before(fs: Seq<FieldModel>, hash: u32, i: int, j: int)
    requires
        0 <= i <= j < fs.len(),
        fs[j].hash == hash,
        forall|t: int| 0 <= t < j ==> (#[trigger] fs[t]).hash != hash,
    ensures
        first_field_with(fs, hash, i) == Some(j),
    decreases j - i,
{
    if i < j {
        lemma_first_field_before(fs, hash, i + 1, j);
    }
}

/// The search for an entry finds the first entry with the key.
proof fn lemma_find_entry_is_first(es: Seq<EntryModel>, nh: u32, ch: u32, k: int)
    requires
        0 <= k < es.len(),
        es[k].native_hash == nh && es[k].class.hash == ch,
        forall|t: int|
            0 <= t < k ==> !((#[trigger] es[t]).native_hash == nh && es[t].class.hash == ch),
    ensures
        find_entry_from(es, nh, ch, 0) == Some(k),
{
    crate::merge_laws::lemma_find_entry_from(es, nh, ch, 0);
    if let Some(m) = find_entry_from(es, nh, ch, 0) {
        if m > k {
            assert(!crate::merge_laws::entry_matches(es[k], nh, ch));
        }
        if m < k {
            assert(!(es[m].native_hash == nh && es[m].class.hash == ch));
        }
    } else {
        assert(!crate::merge_laws::entry_matches(es[k], nh, ch));
    }
}

/// The Steam schema of a system save keeps the save's owned-DLC flags as its
/// available-DLC flags: where the first DLC system class (native hash
/// 0x4d6487d4, class hash 0xa0a6441d) has a field 0x3811b01d, the schema has
/// that DLC system class with, third among its fields, a field 0x0a50d2dc of
/// the first such field's type and value.
pub proof fn lemma_steam_schema_keeps_owned_dlc(es: Seq<EntryModel>, k: int, j: int)
    requires
        has_entry(es, SYSTEM_MARKER),
        steam_template_defined(es),
        0 <= k < es.len(),
        es[k].native_hash == 0x4d64_87d4 && es[k].class.hash == 0xa0a6_441d,
        forall|t: int|
            0 <= t < k ==> !((#[trigger] es[t]).native_hash == 0x4d64_87d4 && es[t].class.hash
                == 0xa0a6_441d),
        0 <= j < es[k].class.fields.len(),
        es[k].class.fields[j].hash == 0x3811_b01d,
        forall|t: int| 0 <= t < j ==> (#[trigger] es[k].class.fields[t]).hash != 0x3811_b01d,
    ensures
        steam_template_spec(es) is Ok,
        exists|t: int|
            0 <= t < steam_template_spec(es)->Ok_0.len() && 2 < steam_template_spec(
                es,
            )->Ok_0[t].class.fields.len() && steam_template_spec(es)->Ok_0[t].native_hash
                == 0x4d64_87d4 && steam_template_spec(es)->Ok_0[t].class.hash == 0xa0a6_441d
                && #[trigger] steam_template_spec(es)->Ok_0[t].class.fields[2] == (FieldModel {
                hash: 0x0a50_d2dc,
                field_type: es[k].class.fields[j].field_type,
                value: es[k].class.fields[j].value,
            }),
{
    let fs = es[k].class.fields;
    let f = fs[j];
    lemma_find_entry_is_first(es, 0x4d64_87d4, 0xa0a6_441d, k);
    // the load flags go to another entry
    let es1 = patch_load_info_spec(es);
    match find_entry_from(es, 0x0b19_f75b, 0xe6a6_9e8a, 0) {
        Some(k0) => {
            crate::merge_laws::lemma_find_entry_from(es, 0x0b19_f75b, 0xe6a6_9e8a, 0);
            assert(k0 != k);
            lemma_find_entry_with_class_fields(
                es,
                k0,
                crate::defaults::insert_before_version_spec(
                    es[k0].class.fields,
                    crate::defaults::load_flags_spec(),
                ),
                0x4d64_87d4,
                0xa0a6_441d,
                0,
            );
        },
        None => {},
    }
    assert(es1[k] == es[k]);
    assert(find_entry_from(es1, 0x4d64_87d4, 0xa0a6_441d, 0) == Some(k));
    assert(dlc_system_patchable(es));
    let picked = pick_fields(fs, dlc_hashes());
    assert(picked.len() >= 3);
    lemma_first_field_is_first(fs, 0x3811_b01d, j);
    let avail = FieldModel { hash: 0x0a50_d2dc, field_type: f.field_type, value: f.value };
    assert(dlc_available_spec(fs) == avail);
    let nf = dlc_fields_spec(fs);
    assert(nf[2] == avail);
    let es2 = patch_dlc_system_spec(es1);
    let x = EntryModel { native_hash: 0x4d64_87d4, class: ClassModel { hash: 0xa0a6_441d, fields: nf } };
    assert(es2[k] == x);
    assert(es2.contains(x));
    let a = upsert_spec(es2, steam_version_checker_spec());
    let b = upsert_spec(a, steam_system_options_spec());
    let c = upsert_spec(b, steam_key_config_spec());
    lemma_upsert_keeps(es2, steam_version_checker_spec(), x);
    lemma_upsert_keeps(a, steam_system_options_spec(), x);
    lemma_upsert_keeps(b, steam_key_config_spec(), x);
    lemma_reorder_contains(c, steam_system_order(), x);
    let out = system_profile_spec(es);
    assert(steam_template_spec(es) == Ok::<Seq<EntryModel>, crate::defaults::TemplateError>(out));
    let t = choose|t: int| 0 <= t < out.len() && out[t] == x;
    assert(nf.len() > 2);
    assert(out[t].class.fields.len() > 2);
    assert(steam_template_spec(es)->Ok_0[t].class.fields[2] == avail);
}

/// Inserting a field whose hash is missing puts it among the fields.
proof fn lemma_insert_before_version_contains(fs: Seq<FieldModel>, f: FieldModel)
    requires
        forall|t: int| 0 <= t < fs.len() ==> (#[trigger] fs[t]).hash != f.hash,
    ensures
        insert_before_version_spec(fs, f).contains(f),
{
    lemma_first_field_with(fs, f.hash, 0);
    lemma_first_field_index(fs, crate::defaults::VERSION_FIELD, 0);
    let at = match first_field_with(fs, crate::defaults::VERSION_FIELD, 0) {
        Some(k) => k,
        None => fs.len() as int,
    };
    assert(insert_before_version_spec(fs, f)[at] == f);
}

/// `out` has a character system class (native hash 0x356f270b, class hash
/// 0x5766f30b) whose consistency identifier (field 0xe40fc0cd) is a 16-byte
/// struct holding `guid`.
pub open spec fn schema_has_consistency_id(out: Seq<EntryModel>, guid: Seq<u8>) -> bool {
    exists|t: int, i: int|
        0 <= t < out.len() && 0 <= i < out[t].class.fields.len() && out[t].native_hash
            == 0x356f_270b && out[t].class.hash == 0x5766_f30b && #[trigger] out[t].class.fields[i]
            == (FieldModel {
            hash: 0xe40f_c0cd,
            field_type: 0x10,
            value: ValueModel::Scalar { size: 16, bytes: guid },
        })
}

/// The Steam schema of a slot save gives its character system class the
/// hunter's GUID as consistency identifier: the 16 bytes of the first field
/// 0x0a960102 of the first hunter class (native hash 0x355c8c4f, class hash
/// 0xaf6ea643) where that field holds 16 bytes, and 16 zero bytes where there
/// is no hunter class.
pub proof fn lemma_steam_slot_schema_carries_hunter_guid(es: Seq<EntryModel>, k: int)
    requires
        !has_entry(es, SYSTEM_MARKER),
        has_entry(es, SLOT_MARKER),
        0 <= k < es.len(),
        es[k].native_hash == 0x356f_270b && es[k].class.hash == 0x5766_f30b,
        forall|t: int|
            0 <= t < k ==> !((#[trigger] es[t]).native_hash == 0x356f_270b && es[t].class.hash
                == 0x5766_f30b),
        forall|t: int|
            0 <= t < es[k].class.fields.len() ==> (#[trigger] es[k].class.fields[t]).hash
                != 0xe40f_c0cd,
    ensures
        steam_template_spec(es) is Ok,
        forall|m: int, j: int|
            0 <= m < es.len() && es[m].native_hash == 0x355c_8c4f && es[m].class.hash
                == 0xaf6e_a643 && (forall|t: int|
                0 <= t < m ==> !((#[trigger] es[t]).native_hash == 0x355c_8c4f
                    && es[t].class.hash == 0xaf6e_a643)) && 0 <= j < es[m].class.fields.len()
                && es[m].class.fields[j].hash == 0x0a96_0102 && (forall|t: int|
                0 <= t < j ==> (#[trigger] es[m].class.fields[t]).hash != 0x0a96_0102)
                && es[m].class.fields[j].value is Scalar
                && es[m].class.fields[j].value->Scalar_bytes.len() == 16
                ==> #[trigger] schema_has_consistency_id(
                steam_template_spec(es)->Ok_0,
                es[m].class.fields[j].value->Scalar_bytes,
            ),
        (forall|t: int|
            0 <= t < es.len() ==> !((#[trigger] es[t]).native_hash == 0x355c_8c4f
                && es[t].class.hash == 0xaf6e_a643)) ==> schema_has_consistency_id(
            steam_template_spec(es)->Ok_0,
            zeros(16),
        ),
{
    lemma_slot_schema_holds_consistency_id(es, k);
    assert forall|m: int, j: int|
        0 <= m < es.len() && es[m].native_hash == 0x355c_8c4f && es[m].class.hash == 0xaf6e_a643
            && (forall|t: int|
            0 <= t < m ==> !((#[trigger] es[t]).native_hash == 0x355c_8c4f && es[t].class.hash
                == 0xaf6e_a643)) && 0 <= j < es[m].class.fields.len() && es[m].class.fields[j].hash
            == 0x0a96_0102 && (forall|t: int|
            0 <= t < j ==> (#[trigger] es[m].class.fields[t]).hash != 0x0a96_0102)
            && es[m].class.fields[j].value is Scalar
            && es[m].class.fields[j].value->Scalar_bytes.len() == 16 implies #[trigger] schema_has_consistency_id(
        steam_template_spec(es)->Ok_0,
        es[m].class.fields[j].value->Scalar_bytes,
    ) by {
        lemma_find_entry_is_first(es, 0x355c_8c4f, 0xaf6e_a643, m);
        lemma_first_field_is_first(es[m].class.fields, 0x0a96_0102, j);
    }
    if forall|t: int|
        0 <= t < es.len() ==> !((#[trigger] es[t]).native_hash == 0x355c_8c4f && es[t].class.hash
            == 0xaf6e_a643) {
        crate::merge_laws::lemma_find_entry_from(es, 0x355c_8c4f, 0xaf6e_a643, 0);
        if let Some(m) = find_entry_from(es, 0x355c_8c4f, 0xaf6e_a643, 0) {
            assert(!((es[m]).native_hash == 0x355c_8c4f && es[m].class.hash == 0xaf6e_a643));
        }
    }
}

/// The Steam schema of such a slot save holds the consistency identifier
/// made of the hunter GUID that the save holds.
proof fn lemma_slot_schema_holds_consistency_id(es: Seq<EntryModel>, k: int)
    requires
        !has_entry(es, SYSTEM_MARKER),
        has_entry(es, SLOT_MARKER),
        0 <= k < es.len(),
        es[k].native_hash == 0x356f_270b && es[k].class.hash == 0x5766_f30b,
        forall|t: int|
            0 <= t < k ==> !((#[trigger] es[t]).native_hash == 0x356f_270b && es[t].class.hash
                == 0x5766_f30b),
        forall|t: int|
            0 <= t < es[k].class.fields.len() ==> (#[trigger] es[k].class.fields[t]).hash
                != 0xe40f_c0cd,
    ensures
        steam_template_spec(es) is Ok,
        schema_has_consistency_id(steam_template_spec(es)->Ok_0, hunter_id_spec(es)),
{
    let g = hunter_id_spec(es);
    assert(g.len() == 16);
    let f = scalar_field_spec(0xe40f_c0cd, crate::defaults::STRUCT, g);
    lemma_find_entry_is_first(es, 0x356f_270b, 0x5766_f30b, k);
    let fs2 = insert_before_version_spec(es[k].class.fields, f);
    lemma_insert_before_version_contains(es[k].class.fields, f);
    let es1 = patch_character_consistency_id_spec(es);
    let x = EntryModel { native_hash: 0x356f_270b, class: ClassModel { hash: 0x5766_f30b, fields: fs2 } };
    assert(es1[k] == x);
    let es2 = patch_pc_telemetry_spec(es1);
    crate::merge_laws::lemma_find_entry_from(es1, 0x1322_883a, 0x8b6c_3ddc, 0);
    assert(es2[k] == x);
    assert(es2.contains(x));
    let a = upsert_spec(es2, external_quest_data_spec());
    let b = upsert_spec(a, steam_character_options_spec());
    lemma_upsert_keeps(es2, external_quest_data_spec(), x);
    lemma_upsert_keeps(a, steam_character_options_spec(), x);
    lemma_reorder_contains(b, steam_slot_order(), x);
    let out = slot_profile_spec(es);
    assert(steam_template_spec(es) == Ok::<Seq<EntryModel>, crate::defaults::TemplateError>(out));
    let t = choose|t: int| 0 <= t < out.len() && out[t] == x;
    let i = choose|i: int| 0 <= i < fs2.len() && fs2[i] == f;
    assert(out[t].class.fields[i] == f);
}

} // verus!
