//! The shape of every file a conversion writes, and what reading it back gives.
use vstd::prelude::*;

use crate::bytes::{le_u32_at, le_u64_at, resized, u32_le, u64_le, zeros};
use crate::conversion::{
    align_up_spec, convert_spec, converted_payload_spec, deflate_level5, finished, header_bytes,
    lemma_finished_checksum_valid, padded4, pack_spec, steam_container, switch_container,
    target_platform_spec, translate_onto_template_spec, unpack_spec, CitrusCipher,
    auxiliary_header_spec, auxiliary_offset_spec, auxiliary_payload_spec,
    auxiliary_stream_spec, auxiliary_target_offset, convert_auxiliary_spec,
    lemma_auxiliary_keeps_class_stream, citrus_payload_spec,
    ConversionError, ConversionOptions, TargetPlatform, HAS_ID_BITS,
};
use crate::format::{
    calculated_hash, checksum_status_spec, stored_hash, dsss_magic, is_dsss_header, platform_of, ChecksumStatus, Platform,
    CHECKSUM_SEED, DSSS_VERSION, KNOWN_FLAG_BITS,
};
use crate::format::{murmur3_32_of, FILE_HASH_LEN};
use crate::conversion::{
    class_stream_offset_spec, preflight_issues_spec, target_schema_spec, translate_spec,
    ConversionRequest, PreflightIssue, PreflightSeverity, SaveFile, issues_view,
};
use crate::translation::merge_spec;
use crate::payload_laws::{lemma_encode_parse_roundtrip, unambiguous_payload};
use crate::payload_model::{
    align4_up, encode_spec, parse_spec, lemma_w_class_def, lemma_w_entries_def, lemma_w_field_def,
    lemma_w_fields_def, w_align4, w_class, w_entries, w_field, w_fields, ClassModel, EntryModel,
    FieldModel, PayloadError, PayloadModel,
};

verus! {

/// The flag bits of the core save written for `target`: DEFLATE for the
/// Switch, CITRUS for Steam.
pub open spec fn core_flags_spec(target: TargetPlatform) -> u32 {
    match target {
        TargetPlatform::NintendoSwitch => 0x08,
        TargetPlatform::Steam => 0x04,
    }
}

/// The flag bits of the album wrapper written for `target`: none for the
/// Switch, `HAS_ID` for Steam.
pub open spec fn auxiliary_flags_spec(target: TargetPlatform) -> u32 {
    match target {
        TargetPlatform::NintendoSwitch => 0,
        TargetPlatform::Steam => HAS_ID_BITS,
    }
}

/// `v` is a finished file with flag bits `flags`: it opens with the DSSS
/// magic, version 2 and those flags, is a whole number of four-byte words,
/// and closes with a matching hash.
pub open spec fn is_finished_file(v: Seq<u8>, flags: u32) -> bool {
    &&& is_dsss_header(v)
    &&& v.take(12) == header_bytes(flags)
    &&& le_u32_at(v, 8) == flags
    &&& v.len() % 4 == 0
    &&& checksum_status_spec(v) == ChecksumStatus::Valid
}

/// `v` is a core save of `target`: a finished file with the target's flag
/// bits, whose header names the target's platform.
pub open spec fn is_core_file_for(v: Seq<u8>, target: TargetPlatform) -> bool {
    &&& is_finished_file(v, core_flags_spec(target))
    &&& platform_of(le_u32_at(v, 8) & KNOWN_FLAG_BITS) == target_platform_spec(target)
}

/// Closing a body that opens with a DSSS header gives a finished file with
/// that header's flags.
pub proof fn lemma_finished_file(flags: u32, rest: Seq<u8>)
    ensures
        is_finished_file(finished(header_bytes(flags) + rest), flags),
{
    let b = header_bytes(flags) + rest;
    let n = b.len() as int;
    let a = align_up_spec(n, 4);
    let k = (a - n) as nat;
    let p = padded4(b);
    let h = murmur3_32_of(p, CHECKSUM_SEED);
    let v = finished(b);
    lemma_finished_checksum_valid(b);
    assert(a >= n && a % 4 == 0);
    assert(p =~= b + zeros(k)) by {
        if a == n {
            assert(b.take(n) =~= b);
            assert(b + zeros(0) =~= b);
        }
    }
    let tail = rest + zeros(k) + u32_le(h);
    assert(v =~= dsss_magic() + u32_le(DSSS_VERSION) + (u32_le(flags) + tail));
    crate::bytes::lemma_u32_le_roundtrip(DSSS_VERSION, dsss_magic(), u32_le(flags) + tail);
    assert(v =~= (dsss_magic() + u32_le(DSSS_VERSION)) + u32_le(flags) + tail);
    crate::bytes::lemma_u32_le_roundtrip(flags, dsss_magic() + u32_le(DSSS_VERSION), tail);
    assert(v.take(4) =~= dsss_magic());
    assert(v.take(12) =~= header_bytes(flags));
    assert(v.len() == a + 4);
}

/// The flags of a core save name its target's platform.
pub proof fn lemma_core_flags_platform(target: TargetPlatform)
    ensures
        platform_of(core_flags_spec(target) & KNOWN_FLAG_BITS) == target_platform_spec(target),
{
    assert(0x08u32 & 0x1f == 0x08 && 0x08u32 & 0x08 == 0x08 && 0x08u32 & 0x04 == 0) by (bit_vector);
    assert(0x04u32 & 0x1f == 0x04 && 0x04u32 & 0x08 == 0 && 0x04u32 & 0x04 == 0x04) by (bit_vector);
}

/// The flags of an album wrapper name no core platform.
pub proof fn lemma_auxiliary_flags_platform(target: TargetPlatform)
    ensures
        platform_of(auxiliary_flags_spec(target) & KNOWN_FLAG_BITS) == Platform::Auxiliary,
{
    assert(0u32 & 0x1f == 0 && 0u32 & 0x08 == 0 && 0u32 & 0x04 == 0) by (bit_vector);
    assert(0x02u32 & 0x1f == 0x02 && 0x02u32 & 0x08 == 0 && 0x02u32 & 0x04 == 0) by (bit_vector);
}

/// Every core save that packing writes is a finished file of the target's
/// platform: for the Switch the DEFLATE container, for Steam the Citrus one.
pub proof fn lemma_pack_spec_shape<C: CitrusCipher>(
    cipher: &C,
    payload: Seq<u8>,
    target: TargetPlatform,
    steamid64: Option<u64>,
    curve_index: Option<usize>,
)
    ensures
        pack_spec(cipher, payload, target, steamid64, curve_index) matches Ok(v)
            ==> is_core_file_for(v, target),
{
    lemma_core_flags_platform(target);
    match target {
        TargetPlatform::NintendoSwitch => {
            let c = deflate_level5(payload);
            let rest = switch_container(payload, c).skip(12);
            assert(switch_container(payload, c) =~= header_bytes(0x08) + rest);
            lemma_finished_file(0x08, rest);
        },
        TargetPlatform::Steam => {
            if let (Some(id), Some(curve)) = (steamid64, curve_index) {
                if let Some(enc) = cipher.encrypt_spec(id, curve, payload) {
                    let rest = steam_container(enc, payload.len()).skip(12);
                    assert(steam_container(enc, payload.len()) =~= header_bytes(0x04) + rest);
                    lemma_finished_file(0x04, rest);
                }
            }
        },
    }
}

/// Every core save that a conversion writes is a finished file of the
/// requested platform, with its flags, whatever the source and the template.
pub proof fn lemma_convert_spec_shape<C: CitrusCipher>(
    cipher: &C,
    d: Seq<u8>,
    template: Option<Seq<u8>>,
    options: ConversionOptions,
)
    ensures
        convert_spec(cipher, d, template, options) matches Ok(v) ==> is_core_file_for(
            v,
            options.target,
        ),
{
    if let Ok(q) = converted_payload_spec(cipher, d, template, options) {
        lemma_pack_spec_shape(
            cipher,
            q,
            options.target,
            options.target_steamid64,
            options.target_curve_index,
        );
    }
}

// ---------------------------------------------------------------------------
// Encoded class streams end on a word boundary
// ---------------------------------------------------------------------------
/// Padding to four bytes ends on an absolute multiple of four.
proof fn lemma_w_align4_aligned(out: Seq<u8>, off: int)
    requires
        0 <= off,
        w_align4(out, off) is Ok,
    ensures
        (off + w_align4(out, off)->Ok_0.len()) % 4 == 0,
{
    let abs = off + out.len();
    let up = align4_up(abs);
    assert(up >= abs && up % 4 == 0) by (nonlinear_arith)
        requires
            up == ((abs + 3) / 4) * 4,
            abs >= 0,
    ;
}

/// Writing the fields of `fs` from the `i`-th on, after aligned output, ends aligned.
proof fn lemma_w_fields_aligned(out: Seq<u8>, off: int, fs: Seq<FieldModel>, i: int)
    requires
        0 <= off,
        0 <= i <= fs.len(),
        (off + out.len()) % 4 == 0,
        w_fields(out, off, fs.skip(i)) is Ok,
    ensures
        (off + w_fields(out, off, fs.skip(i))->Ok_0.len()) % 4 == 0,
    decreases fs.len() - i,
{
    lemma_w_fields_def(out, off, fs, i);
    if i == fs.len() {
        assert(fs.skip(i) =~= Seq::<FieldModel>::empty());
    } else {
        let f = fs[i];
        lemma_w_field_def(out, off, f);
        let x = crate::payload_model::w_field_value(
            out + u32_le(f.hash) + u32_le(f.field_type as u32),
            off,
            f,
        )->Ok_0;
        lemma_w_align4_aligned(x, off);
        let o = w_field(out, off, f)->Ok_0;
        lemma_w_fields_aligned(o, off, fs, i + 1);
    }
}

/// Writing a class after aligned output ends aligned.
proof fn lemma_w_class_aligned(out: Seq<u8>, off: int, c: ClassModel)
    requires
        0 <= off,
        (off + out.len()) % 4 == 0,
        w_class(out, off, c) is Ok,
    ensures
        (off + w_class(out, off, c)->Ok_0.len()) % 4 == 0,
{
    lemma_w_class_def(out, off, c);
    assert(c.fields.skip(0) =~= c.fields);
    lemma_w_fields_aligned(out + u32_le(c.fields.len() as u32) + u32_le(c.hash), off, c.fields, 0);
}

/// Writing the entries of `es` from the `i`-th on, after aligned output, ends aligned.
proof fn lemma_w_entries_aligned(out: Seq<u8>, off: int, es: Seq<EntryModel>, i: int)
    requires
        0 <= off,
        0 <= i <= es.len(),
        (off + out.len()) % 4 == 0,
        w_entries(out, off, es.skip(i)) is Ok,
    ensures
        (off + w_entries(out, off, es.skip(i))->Ok_0.len()) % 4 == 0,
    decreases es.len() - i,
{
    lemma_w_entries_def(out, off, es, i);
    if i == es.len() {
        assert(es.skip(i) =~= Seq::<EntryModel>::empty());
    } else {
        let o0 = out + u32_le(es[i].native_hash);
        lemma_w_class_aligned(o0, off, es[i].class);
        let o = w_class(o0, off, es[i].class)->Ok_0;
        lemma_w_entries_aligned(o, off, es, i + 1);
    }
}

/// A class stream written at a word-aligned offset ends on a word boundary.
pub proof fn lemma_encode_aligned(p: PayloadModel, off: int)
    requires
        0 <= off,
        off % 4 == 0,
        encode_spec(p, off) is Ok,
    ensures
        (off + encode_spec(p, off)->Ok_0.len()) % 4 == 0,
{
    assert(p.entries.skip(0) =~= p.entries);
    lemma_w_entries_aligned(Seq::empty(), off, p.entries, 0);
}

// ---------------------------------------------------------------------------
// Album wrappers
// ---------------------------------------------------------------------------
/// `v` is the album wrapper for `target` of the class-stream bytes
/// `stream`: a finished file with the target's wrapper flags, a Steam one
/// holding the low 32 bits of `steamid64` as eight bytes at 16, and `stream`
/// between the target's payload offset and the closing hash.
pub open spec fn is_auxiliary_file_for(
    v: Seq<u8>,
    target: TargetPlatform,
    steamid64: Option<u64>,
    stream: Seq<u8>,
) -> bool {
    &&& is_finished_file(v, auxiliary_flags_spec(target))
    &&& platform_of(le_u32_at(v, 8) & KNOWN_FLAG_BITS) == Platform::Auxiliary
    &&& target is Steam ==> v.subrange(16, 24) == u64_le(
        (steamid64->Some_0 % 0x1_0000_0000) as u64,
    )
    &&& v.subrange(auxiliary_target_offset(target) as int, v.len() - FILE_HASH_LEN) == stream
}

/// Every album file a conversion writes is the target's wrapper of the
/// realigned class stream, with the target account for Steam.
pub proof fn lemma_convert_auxiliary_shape(
    d: Seq<u8>,
    target: TargetPlatform,
    steamid64: Option<u64>,
)
    ensures
        convert_auxiliary_spec(d, target, steamid64) matches Ok(v) ==> is_auxiliary_file_for(
            v,
            target,
            steamid64,
            auxiliary_payload_spec(d, target)->Ok_0,
        ),
{
    if let Ok(v) = convert_auxiliary_spec(d, target, steamid64) {
        let off = auxiliary_offset_spec(le_u32_at(d, 8))->Some_0;
        let p = parse_spec(d.subrange(off as int, d.len() - FILE_HASH_LEN), off as int)->Ok_0;
        let to = auxiliary_target_offset(target);
        let b = auxiliary_payload_spec(d, target)->Ok_0;
        assert(b == encode_spec(p, to as int)->Ok_0);
        lemma_encode_aligned(p, to as int);
        let id = steamid64.unwrap_or(0);
        let header = auxiliary_header_spec(target, id);
        let flags = auxiliary_flags_spec(target);
        let body = header + b;
        assert(header.len() == to);
        assert(body.len() % 4 == 0);
        assert(padded4(body) =~= body) by {
            assert(align_up_spec(body.len() as int, 4) == body.len());
            assert(body.take(body.len() as int) =~= body);
        }
        assert(v =~= body + u32_le(murmur3_32_of(body, CHECKSUM_SEED)));
        let rest = body.skip(12);
        assert(body =~= header_bytes(flags) + rest);
        lemma_finished_file(flags, rest);
        lemma_auxiliary_flags_platform(target);
        assert(v.subrange(to as int, v.len() - FILE_HASH_LEN) =~= b);
        if target is Steam {
            assert(v.subrange(16, 24) =~= u64_le((id % 0x1_0000_0000) as u64));
        }
    }
}

/// Converting an album file keeps its class stream: the stream of the
/// written file, read at the target's payload offset, is the stream of the
/// source.
pub proof fn lemma_convert_auxiliary_rereads(
    d: Seq<u8>,
    target: TargetPlatform,
    steamid64: Option<u64>,
)
    requires
        convert_auxiliary_spec(d, target, steamid64) is Ok,
    ensures
        ({
            let v = convert_auxiliary_spec(d, target, steamid64)->Ok_0;
            parse_spec(
                v.subrange(auxiliary_target_offset(target) as int, v.len() - FILE_HASH_LEN),
                auxiliary_target_offset(target) as int,
            ) == auxiliary_stream_spec(d)
        }),
{
    lemma_convert_auxiliary_shape(d, target, steamid64);
    lemma_auxiliary_keeps_class_stream(d, target);
}

// ---------------------------------------------------------------------------
// Steam core saves
// ---------------------------------------------------------------------------
/// `cipher` under the keys `steamid64` and `curve_index` writes whole
/// four-byte words, and decrypts what it wrote back to the payload, given the
/// length that a Steam core save records for it.
pub open spec fn cipher_roundtrips<C: CitrusCipher>(
    cipher: &C,
    steamid64: u64,
    curve_index: usize,
) -> bool {
    forall|p: Seq<u8>|
        #[trigger] cipher.encrypt_spec(steamid64, curve_index, p) matches Some(e) ==> e.len() % 4
            == 0 && cipher.decrypt_spec(steamid64, Some(curve_index), e, (p.len() as u64) as usize)
            == Some(p)
}

/// A finished Steam container of whole words gives back the encrypted
/// payload and the length it recorded.
pub proof fn lemma_steam_container_roundtrip(encrypted: Seq<u8>, payload_len: nat)
    requires
        encrypted.len() % 4 == 0,
    ensures
        citrus_payload_spec(finished(steam_container(encrypted, payload_len))) == Some(
            (encrypted, (payload_len as u64) as usize),
        ),
{
    let c = steam_container(encrypted, payload_len);
    let front = header_bytes(0x04) + zeros(4) + encrypted;
    assert(c =~= front + u64_le(payload_len as u64));
    assert(c.len() == 24 + encrypted.len());
    assert(padded4(c) =~= c) by {
        assert(align_up_spec(c.len() as int, 4) == c.len());
        assert(c.take(c.len() as int) =~= c);
    }
    let h = murmur3_32_of(c, CHECKSUM_SEED);
    let v = finished(c);
    assert(v =~= front + u64_le(payload_len as u64) + u32_le(h));
    crate::bytes::lemma_u64_le_roundtrip(payload_len as u64, front, u32_le(h));
    assert(v.subrange(16, 16 + encrypted.len() as int) =~= encrypted);
}

/// What a Steam core save that packing writes reads back as under the same
/// keys: the payload, where the cipher round-trips under them.
pub proof fn lemma_pack_steam_rereads<C: CitrusCipher>(
    cipher: &C,
    payload: Seq<u8>,
    steamid64: u64,
    curve_index: usize,
)
    requires
        cipher_roundtrips(cipher, steamid64, curve_index),
    ensures
        pack_spec(cipher, payload, TargetPlatform::Steam, Some(steamid64), Some(curve_index))
            matches Ok(v) ==> unpack_spec(
            cipher,
            v,
            Platform::Steam,
            Some(steamid64),
            Some(curve_index),
        ) == Ok::<Seq<u8>, ConversionError>(payload),
{
    if let Some(e) = cipher.encrypt_spec(steamid64, curve_index, payload) {
        lemma_steam_container_roundtrip(e, payload.len());
    }
}

/// What is packed for the target of `options` reads back: always for the
/// Switch, and for Steam where both target keys are given and `cipher`
/// round-trips under them.
pub open spec fn reads_back_under<C: CitrusCipher>(cipher: &C, options: ConversionOptions) -> bool {
    options.target is Steam ==> options.target_steamid64 is Some
        && options.target_curve_index is Some && cipher_roundtrips(
        cipher,
        options.target_steamid64->Some_0,
        options.target_curve_index->Some_0,
    )
}

/// A conversion of `d` under `options` stays on the source's platform, and a
/// Steam one goes through a cipher that round-trips under the target keys.
pub open spec fn stays_on_platform<C: CitrusCipher>(
    cipher: &C,
    d: Seq<u8>,
    options: ConversionOptions,
) -> bool {
    &&& platform_of(le_u32_at(d, 8) & KNOWN_FLAG_BITS) == target_platform_spec(options.target)
    &&& options.target is Steam ==> options.target_steamid64 is Some
        && options.target_curve_index is Some && cipher_roundtrips(
        cipher,
        options.target_steamid64->Some_0,
        options.target_curve_index->Some_0,
    )
}

// ---------------------------------------------------------------------------
// Cross-platform conversions
// ---------------------------------------------------------------------------
/// The source class stream of a translation, read at the source platform's offset.
pub open spec fn translation_source(source: Seq<u8>, source_platform: Platform) -> PayloadModel {
    parse_spec(source, class_stream_offset_spec(source_platform) as int)->Ok_0
}

/// The source merged onto the target schema, which a translation writes.
pub open spec fn translation_merge(
    source: Seq<u8>,
    source_platform: Platform,
    template: Option<Seq<u8>>,
    requested: Platform,
) -> PayloadModel {
    let s = translation_source(source, source_platform);
    merge_spec(s, target_schema_spec(s, template, requested)->Ok_0)
}

/// A translated payload reads back, at the requested platform's stream
/// offset, as the source merged onto the target schema, wherever that merge
/// is unambiguous.
pub proof fn lemma_translation_reads_back(
    source: Seq<u8>,
    source_platform: Platform,
    template: Option<Seq<u8>>,
    requested: Platform,
)
    requires
        translate_spec(source, source_platform, template, requested) is Ok,
        unambiguous_payload(translation_merge(source, source_platform, template, requested)),
        class_stream_offset_spec(requested) + translate_spec(
            source,
            source_platform,
            template,
            requested,
        )->Ok_0.len() <= usize::MAX,
    ensures
        parse_spec(
            translate_spec(source, source_platform, template, requested)->Ok_0,
            class_stream_offset_spec(requested) as int,
        ) == Ok::<PayloadModel, PayloadError>(
            translation_merge(source, source_platform, template, requested),
        ),
{
    lemma_encode_parse_roundtrip(
        translation_merge(source, source_platform, template, requested),
        class_stream_offset_spec(requested) as int,
    );
}

/// The class stream of a Switch core payload is read from the DSSS header's
/// end (12 bytes into the file) and that of a Steam core payload from 16: a
/// stream written at that offset reads back, as the source or as the target
/// template of a cross-platform conversion, as the stream that was written.
pub proof fn lemma_translation_reads_source_at_platform_offset(p: PayloadModel)
    requires
        unambiguous_payload(p),
    ensures
        encode_spec(p, 12) is Ok && 12 + encode_spec(p, 12)->Ok_0.len() <= usize::MAX
            ==> translation_source(encode_spec(p, 12)->Ok_0, Platform::NintendoSwitch) == p,
        encode_spec(p, 16) is Ok && 16 + encode_spec(p, 16)->Ok_0.len() <= usize::MAX
            ==> translation_source(encode_spec(p, 16)->Ok_0, Platform::Steam) == p,
        forall|s: PayloadModel|
            encode_spec(p, 12) is Ok && 12 + encode_spec(p, 12)->Ok_0.len() <= usize::MAX
                ==> #[trigger] target_schema_spec(
                s,
                Some(encode_spec(p, 12)->Ok_0),
                Platform::NintendoSwitch,
            ) == Ok::<PayloadModel, ConversionError>(p),
        forall|s: PayloadModel|
            encode_spec(p, 16) is Ok && 16 + encode_spec(p, 16)->Ok_0.len() <= usize::MAX
                ==> #[trigger] target_schema_spec(s, Some(encode_spec(p, 16)->Ok_0), Platform::Steam)
                == Ok::<PayloadModel, ConversionError>(p),
{
    if encode_spec(p, 12) is Ok && 12 + encode_spec(p, 12)->Ok_0.len() <= usize::MAX {
        lemma_encode_parse_roundtrip(p, 12);
    }
    if encode_spec(p, 16) is Ok && 16 + encode_spec(p, 16)->Ok_0.len() <= usize::MAX {
        lemma_encode_parse_roundtrip(p, 16);
    }
}

/// What a cross-platform conversion writes is a stream for the target's
/// offset: read 12 bytes in for the Switch and 16 for Steam, it is the source
/// merged onto the target schema, wherever that merge is unambiguous.
pub proof fn lemma_translation_written_at_platform_offset(
    source: Seq<u8>,
    source_platform: Platform,
    template: Option<Seq<u8>>,
    requested: Platform,
)
    requires
        requested is NintendoSwitch || requested is Steam,
        translate_spec(source, source_platform, template, requested) is Ok,
        unambiguous_payload(translation_merge(source, source_platform, template, requested)),
        16 + translate_spec(source, source_platform, template, requested)->Ok_0.len()
            <= usize::MAX,
    ensures
        parse_spec(
            translate_spec(source, source_platform, template, requested)->Ok_0,
            if requested is NintendoSwitch {
                12
            } else {
                16
            },
        ) == Ok::<PayloadModel, PayloadError>(
            translation_merge(source, source_platform, template, requested),
        ),
{
    lemma_translation_reads_back(source, source_platform, template, requested);
}

// ---------------------------------------------------------------------------
// Preflight
// ---------------------------------------------------------------------------
/// A sequence holds what either of its parts holds.
pub proof fn lemma_concat_contains<A>(a: Seq<A>, b: Seq<A>, x: A)
    ensures
        #[trigger] (a + b).contains(x) <== a.contains(x) || b.contains(x),
{
    if a.contains(x) {
        let i = choose|i: int| 0 <= i < a.len() && a[i] == x;
        assert((a + b)[i] == x);
    } else if b.contains(x) {
        let i = choose|i: int| 0 <= i < b.len() && b[i] == x;
        assert((a + b)[a.len() + i] == x);
    }
}

/// Every check of a planned conversion that fails is reported: the
/// preflight issues hold, for each failed check, its issue with its severity
/// and words.
pub proof fn lemma_preflight_reports_each_failed_check(
    files: Seq<SaveFile>,
    output_is_input: bool,
    output_is_nonempty_dir: bool,
    request: ConversionRequest,
    target_reference_exists: bool,
)
    ensures
        (crate::conversion::first_core_platform(files, 0) is None) ==> preflight_issues_spec(
            files,
            output_is_input,
            output_is_nonempty_dir,
            request,
            target_reference_exists,
        ).contains((PreflightSeverity::Error, "no core save files were found"@)),
        (exists|i: int| 0 <= i < files.len() && (#[trigger] files[i]).checksum@ != "valid"@) ==> preflight_issues_spec(
            files,
            output_is_input,
            output_is_nonempty_dir,
            request,
            target_reference_exists,
        ).contains((PreflightSeverity::Error, "one or more save files have an invalid outer checksum"@)),
        (output_is_input) ==> preflight_issues_spec(
            files,
            output_is_input,
            output_is_nonempty_dir,
            request,
            target_reference_exists,
        ).contains((PreflightSeverity::Error, "output must be different from the source"@)),
        (output_is_nonempty_dir && !request.force) ==> preflight_issues_spec(
            files,
            output_is_input,
            output_is_nonempty_dir,
            request,
            target_reference_exists,
        ).contains((PreflightSeverity::Error, "output directory is not empty; enable overwrite explicitly"@)),
        (crate::conversion::first_core_platform(files, 0) == Some(Platform::Steam) && request.source_steamid64 is None) ==> preflight_issues_spec(
            files,
            output_is_input,
            output_is_nonempty_dir,
            request,
            target_reference_exists,
        ).contains((PreflightSeverity::Error, "Steam source requires a SteamID64"@)),
        (request.target == TargetPlatform::Steam && request.target_steamid64 is None) ==> preflight_issues_spec(
            files,
            output_is_input,
            output_is_nonempty_dir,
            request,
            target_reference_exists,
        ).contains((PreflightSeverity::Error, "Steam target requires a SteamID64"@)),
        (request.target == TargetPlatform::Steam && request.target_reference is None && request.target_curve_index is None) ==> preflight_issues_spec(
            files,
            output_is_input,
            output_is_nonempty_dir,
            request,
            target_reference_exists,
        ).contains((PreflightSeverity::Error, "Steam target requires a target template or Curve Index"@)),
        (request.target == TargetPlatform::Steam && request.target_reference is None) ==> preflight_issues_spec(
            files,
            output_is_input,
            output_is_nonempty_dir,
            request,
            target_reference_exists,
        ).contains((PreflightSeverity::Warning, "no Steam template selected; built-in Steam defaults will be used"@)),
        (request.target == TargetPlatform::NintendoSwitch && crate::conversion::first_core_platform(files, 0) == Some(Platform::Steam) && request.target_reference is None) ==> preflight_issues_spec(
            files,
            output_is_input,
            output_is_nonempty_dir,
            request,
            target_reference_exists,
        ).contains((PreflightSeverity::Error, "Steam-to-Switch conversion requires a Switch target template"@)),
        (request.target_reference is Some && !target_reference_exists) ==> preflight_issues_spec(
            files,
            output_is_input,
            output_is_nonempty_dir,
            request,
            target_reference_exists,
        ).contains((PreflightSeverity::Error, "selected target template does not exist"@)),
        (crate::conversion::core_count(files, files.len() as int) == 0) ==> preflight_issues_spec(
            files,
            output_is_input,
            output_is_nonempty_dir,
            request,
            target_reference_exists,
        ).contains((PreflightSeverity::Error, "the input contains no convertible core save"@)),
{
    let source = crate::conversion::first_core_platform(files, 0);
    let steam_target = request.target == TargetPlatform::Steam;
    let p0 = crate::conversion::issue_if(
        source is None,
        PreflightSeverity::Error,
        "no core save files were found"@,
    );
    let p1 = crate::conversion::issue_if(
        exists|i: int| 0 <= i < files.len() && (#[trigger] files[i]).checksum@ != "valid"@,
        PreflightSeverity::Error,
        "one or more save files have an invalid outer checksum"@,
    );
    let p2 = crate::conversion::issue_if(
        output_is_input,
        PreflightSeverity::Error,
        "output must be different from the source"@,
    );
    let p3 = crate::conversion::issue_if(
        output_is_nonempty_dir && !request.force,
        PreflightSeverity::Error,
        "output directory is not empty; enable overwrite explicitly"@,
    );
    let p4 = crate::conversion::issue_if(
        source == Some(Platform::Steam) && request.source_steamid64 is None,
        PreflightSeverity::Error,
        "Steam source requires a SteamID64"@,
    );
    let p5 = crate::conversion::issue_if(
        steam_target && request.target_steamid64 is None,
        PreflightSeverity::Error,
        "Steam target requires a SteamID64"@,
    );
    let p6 = crate::conversion::issue_if(
        steam_target && request.target_reference is None && request.target_curve_index is None,
        PreflightSeverity::Error,
        "Steam target requires a target template or Curve Index"@,
    );
    let p7 = crate::conversion::issue_if(
        steam_target && request.target_reference is None,
        PreflightSeverity::Warning,
        "no Steam template selected; built-in Steam defaults will be used"@,
    );
    let p8 = crate::conversion::issue_if(
        request.target == TargetPlatform::NintendoSwitch && source == Some(Platform::Steam) && request.target_reference is None,
        PreflightSeverity::Error,
        "Steam-to-Switch conversion requires a Switch target template"@,
    );
    let p9 = crate::conversion::issue_if(
        request.target_reference is Some && !target_reference_exists,
        PreflightSeverity::Error,
        "selected target template does not exist"@,
    );
    let p10 = crate::conversion::issue_if(
        crate::conversion::core_count(files, files.len() as int) == 0,
        PreflightSeverity::Error,
        "the input contains no convertible core save"@,
    );
    let q0 = p0;
    let q1 = q0 + p1;
    let q2 = q1 + p2;
    let q3 = q2 + p3;
    let q4 = q3 + p4;
    let q5 = q4 + p5;
    let q6 = q5 + p6;
    let q7 = q6 + p7;
    let q8 = q7 + p8;
    let q9 = q8 + p9;
    let q10 = q9 + p10;
    assert(q10 == preflight_issues_spec(
        files,
        output_is_input,
        output_is_nonempty_dir,
        request,
        target_reference_exists,
    ));
    if source is None {
        let x = (PreflightSeverity::Error, "no core save files were found"@);
        assert(p0[0] == x);
        assert(q10.contains(x)) by {
            lemma_concat_contains(q0, p1, x);
            lemma_concat_contains(q1, p2, x);
            lemma_concat_contains(q2, p3, x);
            lemma_concat_contains(q3, p4, x);
            lemma_concat_contains(q4, p5, x);
            lemma_concat_contains(q5, p6, x);
            lemma_concat_contains(q6, p7, x);
            lemma_concat_contains(q7, p8, x);
            lemma_concat_contains(q8, p9, x);
            lemma_concat_contains(q9, p10, x);
        }
    }
    if exists|i: int| 0 <= i < files.len() && (#[trigger] files[i]).checksum@ != "valid"@ {
        let x = (PreflightSeverity::Error, "one or more save files have an invalid outer checksum"@);
        assert(p1[0] == x);
        assert(q10.contains(x)) by {
            lemma_concat_contains(q0, p1, x);
            lemma_concat_contains(q1, p2, x);
            lemma_concat_contains(q2, p3, x);
            lemma_concat_contains(q3, p4, x);
            lemma_concat_contains(q4, p5, x);
            lemma_concat_contains(q5, p6, x);
            lemma_concat_contains(q6, p7, x);
            lemma_concat_contains(q7, p8, x);
            lemma_concat_contains(q8, p9, x);
            lemma_concat_contains(q9, p10, x);
        }
    }
    if output_is_input {
        let x = (PreflightSeverity::Error, "output must be different from the source"@);
        assert(p2[0] == x);
        assert(q10.contains(x)) by {
            lemma_concat_contains(q1, p2, x);
            lemma_concat_contains(q2, p3, x);
            lemma_concat_contains(q3, p4, x);
            lemma_concat_contains(q4, p5, x);
            lemma_concat_contains(q5, p6, x);
            lemma_concat_contains(q6, p7, x);
            lemma_concat_contains(q7, p8, x);
            lemma_concat_contains(q8, p9, x);
            lemma_concat_contains(q9, p10, x);
        }
    }
    if output_is_nonempty_dir && !request.force {
        let x = (PreflightSeverity::Error, "output directory is not empty; enable overwrite explicitly"@);
        assert(p3[0] == x);
        assert(q10.contains(x)) by {
            lemma_concat_contains(q2, p3, x);
            lemma_concat_contains(q3, p4, x);
            lemma_concat_contains(q4, p5, x);
            lemma_concat_contains(q5, p6, x);
            lemma_concat_contains(q6, p7, x);
            lemma_concat_contains(q7, p8, x);
            lemma_concat_contains(q8, p9, x);
            lemma_concat_contains(q9, p10, x);
        }
    }
    if source == Some(Platform::Steam) && request.source_steamid64 is None {
        let x = (PreflightSeverity::Error, "Steam source requires a SteamID64"@);
        assert(p4[0] == x);
        assert(q10.contains(x)) by {
            lemma_concat_contains(q3, p4, x);
            lemma_concat_contains(q4, p5, x);
            lemma_concat_contains(q5, p6, x);
            lemma_concat_contains(q6, p7, x);
            lemma_concat_contains(q7, p8, x);
            lemma_concat_contains(q8, p9, x);
            lemma_concat_contains(q9, p10, x);
        }
    }
    if steam_target && request.target_steamid64 is None {
        let x = (PreflightSeverity::Error, "Steam target requires a SteamID64"@);
        assert(p5[0] == x);
        assert(q10.contains(x)) by {
            lemma_concat_contains(q4, p5, x);
            lemma_concat_contains(q5, p6, x);
            lemma_concat_contains(q6, p7, x);
            lemma_concat_contains(q7, p8, x);
            lemma_concat_contains(q8, p9, x);
            lemma_concat_contains(q9, p10, x);
        }
    }
    if steam_target && request.target_reference is None && request.target_curve_index is None {
        let x = (PreflightSeverity::Error, "Steam target requires a target template or Curve Index"@);
        assert(p6[0] == x);
        assert(q10.contains(x)) by {
            lemma_concat_contains(q5, p6, x);
            lemma_concat_contains(q6, p7, x);
            lemma_concat_contains(q7, p8, x);
            lemma_concat_contains(q8, p9, x);
            lemma_concat_contains(q9, p10, x);
        }
    }
    if steam_target && request.target_reference is None {
        let x = (PreflightSeverity::Warning, "no Steam template selected; built-in Steam defaults will be used"@);
        assert(p7[0] == x);
        assert(q10.contains(x)) by {
            lemma_concat_contains(q6, p7, x);
            lemma_concat_contains(q7, p8, x);
            lemma_concat_contains(q8, p9, x);
            lemma_concat_contains(q9, p10, x);
        }
    }
    if request.target == TargetPlatform::NintendoSwitch && source == Some(Platform::Steam) && request.target_reference is None {
        let x = (PreflightSeverity::Error, "Steam-to-Switch conversion requires a Switch target template"@);
        assert(p8[0] == x);
        assert(q10.contains(x)) by {
            lemma_concat_contains(q7, p8, x);
            lemma_concat_contains(q8, p9, x);
            lemma_concat_contains(q9, p10, x);
        }
    }
    if request.target_reference is Some && !target_reference_exists {
        let x = (PreflightSeverity::Error, "selected target template does not exist"@);
        assert(p9[0] == x);
        assert(q10.contains(x)) by {
            lemma_concat_contains(q8, p9, x);
            lemma_concat_contains(q9, p10, x);
        }
    }
    if crate::conversion::core_count(files, files.len() as int) == 0 {
        let x = (PreflightSeverity::Error, "the input contains no convertible core save"@);
        assert(p10[0] == x);
        assert(q10.contains(x)) by {
            lemma_concat_contains(q9, p10, x);
        }
    }
}

/// A planned conversion to Steam without a target SteamID64 is reported with
/// the error "Steam target requires a SteamID64", so it cannot go ahead:
/// whatever list of issues the report holds, one of them is that error.
pub proof fn lemma_preflight_steam_target_needs_steamid(
    files: Seq<SaveFile>,
    output_is_input: bool,
    output_is_nonempty_dir: bool,
    request: ConversionRequest,
    target_reference_exists: bool,
    issues: Seq<PreflightIssue>,
)
    requires
        request.target is Steam,
        request.target_steamid64 is None,
        issues_view(issues) == preflight_issues_spec(
            files,
            output_is_input,
            output_is_nonempty_dir,
            request,
            target_reference_exists,
        ),
    ensures
        exists|i: int|
            0 <= i < issues.len() && (#[trigger] issues[i]).severity == PreflightSeverity::Error
                && issues[i].message@ == "Steam target requires a SteamID64"@,
        !(forall|i: int|
            0 <= i < issues.len() ==> (#[trigger] issues[i]).severity != PreflightSeverity::Error),
{
    lemma_preflight_reports_each_failed_check(
        files,
        output_is_input,
        output_is_nonempty_dir,
        request,
        target_reference_exists,
    );
    let v = issues_view(issues);
    let x = (PreflightSeverity::Error, "Steam target requires a SteamID64"@);
    assert(v.contains(x));
    let k = choose|k: int| 0 <= k < v.len() && v[k] == x;
    assert(v[k] == (issues[k].severity, issues[k].message@));
}

} // verus!
