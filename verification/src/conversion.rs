//! Converting save files between the Nintendo Switch and Steam containers.
use vstd::prelude::*;

use crate::bytes::{
    le_u32_at, le_u64_at, push_all, push_le_u32, push_le_u64, read_le_u32, read_le_u64,
    resize_zero, resized, u32_le, u64_le, zeros,
};
use crate::defaults::{
    can_build_steam_template, steam_template_defined, steam_template_from_source,
    steam_template_spec, TemplateError,
};
use crate::discover::SaveFileKind;
use crate::format::{
    calculated_hash, checksum_status, format_error_text, platform_name, checksum_status_spec, dsss_magic, header_error_spec, is_dsss_header,
    murmur3_32_bytes, murmur3_32_of, parse_header, platform_of, slice_range, stored_hash,
    ChecksumStatus, DsssHeader, FormatError, Platform, SaveFlags, CHECKSUM_SEED, DSSS_HEADER_LEN,
    DSSS_VERSION, FILE_HASH_LEN, KNOWN_FLAG_BITS,
};
use crate::payload::SavePayload;
use crate::payload_model::{encode_spec, parse_spec, payload_error_text, PayloadError, PayloadModel};
use crate::payload_laws::lemma_encode_parse_roundtrip;
use crate::translation::{merge_onto_template, merge_spec};
use crate::text::{decimal, decimal_text, hex8_text, hex_digits};
use crate::payload_typing::lemma_parsed_unambiguous;
use crate::conversion_laws::{
    cipher_roundtrips, is_auxiliary_file_for, reads_back_under, is_core_file_for, lemma_pack_steam_rereads,
    stays_on_platform, lemma_convert_auxiliary_rereads,
    lemma_convert_auxiliary_shape, lemma_convert_spec_shape, lemma_pack_spec_shape,
};

verus! {

/// Bytes of the decrypted-length field that follows a Citrus payload.
pub const CITRUS_SIZE_FIELD_LEN: usize = 8;

/// Where a Switch core save keeps its DEFLATE metadata.
pub const DEFLATE_METADATA_OFFSET: usize = 16;

/// Bytes of the DEFLATE metadata of a Switch core save.
pub const DEFLATE_METADATA_LEN: usize = 24;

/// Where a Steam core save keeps its Citrus payload.
pub const CITRUS_PAYLOAD_OFFSET: usize = 16;

/// Where the account identifier of a Steam album wrapper ends and its payload starts.
pub const STEAM_AUXILIARY_PAYLOAD_OFFSET: usize = 24;

/// The most bytes a file can have before its closing hash: the hash reads at
/// most `u32::MAX` bytes, padding included.
pub const MAX_FILE_BODY: usize = 0xffff_fff0;

/// The flag bit of a wrapper that stores an account identifier.
pub const HAS_ID_BITS: u32 = 0x02;

/// The platform a conversion writes for.
#[derive(Debug, Clone, Copy, PartialEq, Eq, Structural)]
pub enum TargetPlatform {
    NintendoSwitch,
    Steam,
}

/// What a conversion is asked to do.
#[derive(Debug)]
pub struct ConversionRequest {
    pub target: TargetPlatform,
    pub source_steamid64: Option<u64>,
    pub target_steamid64: Option<u64>,
    pub source_curve_index: Option<usize>,
    pub target_curve_index: Option<usize>,
    pub target_reference: Option<std::path::PathBuf>,
    pub force: bool,
}

/// The options of a byte-level conversion.
pub type ConversionOptions = ConversionRequest;

/// How far a directory conversion has come.
#[derive(Debug)]
pub struct ConversionProgress {
    pub completed: usize,
    pub total: usize,
    pub current_file: std::path::PathBuf,
    pub kind: SaveFileKind,
}

/// The ghost view of a byte buffer handed to or taken from the cipher.
pub type CipherBytes = Seq<u8>;

/// The Citrus cipher that protects Steam core saves, keyed by a SteamID64 and
/// a Curve Index. What it gives for each key and input is named by
/// `decrypt_spec` and `encrypt_spec`, and the converter's contracts speak of
/// those names.
pub trait CitrusCipher {
    /// The `decrypted_len` bytes that `encrypted` decrypts to under the keys,
    /// or `None` where decryption fails.
    spec fn decrypt_spec(
        &self,
        steamid64: u64,
        curve_index: Option<usize>,
        encrypted: CipherBytes,
        decrypted_len: usize,
    ) -> Option<CipherBytes>;

    /// `payload` encrypted under the keys, or `None` where encryption fails.
    spec fn encrypt_spec(&self, steamid64: u64, curve_index: usize, payload: CipherBytes) -> Option<
        CipherBytes,
    >;

    /// The `decrypted_len` bytes that `encrypted` decrypts to, or `None`
    /// where decryption fails.
    fn decrypt(
        &self,
        steamid64: u64,
        curve_index: Option<usize>,
        encrypted: &[u8],
        decrypted_len: usize,
    ) -> (r: Option<Vec<u8>>)
        ensures
            opt_bytes(r) == self.decrypt_spec(steamid64, curve_index, encrypted@, decrypted_len),
    ;

    /// `payload` encrypted, or `None` where encryption fails.
    fn encrypt(&self, steamid64: u64, curve_index: usize, payload: &[u8]) -> (r: Option<Vec<u8>>)
        ensures
            opt_bytes(r) == self.encrypt_spec(steamid64, curve_index, payload@),
    ;
}

/// The view of an optional byte vector.
pub open spec fn opt_bytes(v: Option<Vec<u8>>) -> Option<Seq<u8>> {
    match v {
        Some(b) => Some(b@),
        None => None,
    }
}

/// The cipher of a build without Citrus: it refuses every payload, so Steam
/// core saves can be neither read nor written.
pub struct NoCitrus;

impl CitrusCipher for NoCitrus {
    open spec fn decrypt_spec(
        &self,
        steamid64: u64,
        curve_index: Option<usize>,
        encrypted: Seq<u8>,
        decrypted_len: usize,
    ) -> Option<Seq<u8>> {
        None
    }

    open spec fn encrypt_spec(&self, steamid64: u64, curve_index: usize, payload: Seq<u8>) -> Option<
        Seq<u8>,
    > {
        None
    }

    fn decrypt(
        &self,
        _steamid64: u64,
        _curve_index: Option<usize>,
        _encrypted: &[u8],
        _decrypted_len: usize,
    ) -> (r: Option<Vec<u8>>)
        ensures
            r is None,
    {
        None
    }

    fn encrypt(&self, _steamid64: u64, _curve_index: usize, _payload: &[u8]) -> (r: Option<
        Vec<u8>,
    >)
        ensures
            r is None,
    {
        None
    }
}

/// Why a conversion failed.
#[derive(Debug)]
pub enum ConversionError {
    /// The source does not start with a DSSS header.
    InvalidSourceHeader(FormatError),
    /// The source's checksum could not be calculated.
    SourceChecksum(FormatError),
    /// The source's closing hash does not match its contents.
    InvalidChecksum,
    /// A Steam source without its SteamID64.
    MissingSourceSteamId,
    /// A Steam target without its SteamID64.
    MissingTargetSteamId,
    /// A Steam target without its Curve Index.
    MissingTargetCurveIndex,
    /// A core save of a platform that has no core payload.
    UnsupportedCoreFormat(Platform),
    /// A Switch save too short for its DEFLATE metadata.
    MissingDeflateMetadata,
    /// The end of the compressed payload does not fit in `usize`.
    CompressedLengthOverflow,
    /// The compressed payload runs past the closing hash.
    CompressedPayloadOutOfBounds,
    /// The compressed payload is not a DEFLATE stream.
    DeflateFailed,
    /// The decompressed payload is not as long as the metadata says.
    DeflateSizeMismatch { expected: usize, actual: usize },
    /// A Steam save too short for a Citrus payload.
    MissingCitrusPayload,
    /// The Citrus cipher could not decrypt the payload.
    CitrusDecryptFailed,
    /// The Citrus cipher could not encrypt the payload.
    CitrusEncryptFailed,
    /// The payload could not be compressed.
    CompressFailed,
    /// The file would be too large for its closing hash.
    FileTooLarge,
    /// The closing hash could not be calculated.
    Hash,
    /// The source class stream could not be read.
    InvalidSourceClassStream(PayloadError),
    /// The template does not start with a DSSS header.
    InvalidTemplateHeader(FormatError),
    /// The template is for another platform than the requested one.
    TemplatePlatformMismatch { template: Platform, requested: Platform },
    /// The template class stream could not be read.
    InvalidTemplateClassStream(PayloadError),
    /// The built-in Steam schema does not apply to the source.
    SteamSchema(TemplateError),
    /// The source's DLC system class lacks the fields the Steam schema keeps.
    SteamSchemaUndefined,
    /// A conversion to the Switch without a Switch template.
    SwitchNeedsTemplate,
    /// The translated class stream could not be written.
    EncodeFailed(PayloadError),
    /// The album file does not start with a DSSS header.
    InvalidAuxiliaryHeader(FormatError),
    /// The album file's checksum could not be calculated.
    AuxiliaryChecksum(FormatError),
    /// The album file's closing hash does not match its contents.
    InvalidAuxiliaryChecksum,
    /// An album wrapper with flags other than none or `HAS_ID`.
    UnsupportedAuxiliaryFlags(u32),
    /// The album payload would start after the closing hash.
    AuxiliaryPayloadOutOfBounds,
    /// The album class stream could not be read.
    InvalidAuxiliaryClassStream(PayloadError),
    /// The album class stream could not be rewritten.
    AuxiliaryRealignFailed(PayloadError),
    /// The converted payload of a core save of `source_platform` could not be packed.
    PackFailed { source_platform: Platform, cause: Box<ConversionError> },
}

/// The sentence for a conversion error.
pub open spec fn conversion_error_text(e: ConversionError) -> Seq<char> {
    match e {
        ConversionError::InvalidSourceHeader(_) => "invalid source DSSS header"@,
        ConversionError::SourceChecksum(_) => "could not calculate the source checksum"@,
        ConversionError::InvalidChecksum => "source save has an invalid checksum; refusing to convert it"@,
        ConversionError::MissingSourceSteamId => "Steam source requires --source-steamid64"@,
        ConversionError::MissingTargetSteamId => "Steam target requires --target-steamid64"@,
        ConversionError::MissingTargetCurveIndex => "Steam target requires --target-curve-index or --target-reference"@,
        ConversionError::UnsupportedCoreFormat(p) => platform_name(p) + " is not a supported core save format"@,
        ConversionError::MissingDeflateMetadata => "Switch save is missing its DEFLATE metadata"@,
        ConversionError::CompressedLengthOverflow => "Switch compressed payload length overflow"@,
        ConversionError::CompressedPayloadOutOfBounds => "Switch compressed payload exceeds file bounds"@,
        ConversionError::DeflateFailed => "Switch payload is not a valid DEFLATE stream"@,
        ConversionError::DeflateSizeMismatch { expected, actual } => "Switch DEFLATE size mismatch: expected "@
            + decimal(expected as nat) + ", got "@ + decimal(actual as nat),
        ConversionError::MissingCitrusPayload => "Steam save is missing its Citrus payload"@,
        ConversionError::CitrusDecryptFailed => "Citrus decryption failed; check the source SteamID64 and curve index"@,
        ConversionError::CitrusEncryptFailed => "Citrus encryption failed; check the target Curve Index"@,
        ConversionError::CompressFailed => "could not compress the payload"@,
        ConversionError::FileTooLarge => "file is too large for its checksum"@,
        ConversionError::Hash => "could not calculate MurmurHash3"@,
        ConversionError::InvalidSourceClassStream(_) => "invalid source class stream"@,
        ConversionError::InvalidTemplateHeader(_) => "invalid target-template DSSS header"@,
        ConversionError::TemplatePlatformMismatch { template, requested } => "target template is "@
            + platform_name(template) + ", but requested output is "@ + platform_name(requested),
        ConversionError::InvalidTemplateClassStream(_) => "invalid target-template class stream"@,
        ConversionError::SteamSchema(_) => "could not construct the built-in Steam schema"@,
        ConversionError::SteamSchemaUndefined => "could not construct the built-in Steam schema: the DLC system class is incomplete"@,
        ConversionError::SwitchNeedsTemplate => "cross-platform conversion to Switch currently requires --target-reference"@,
        ConversionError::EncodeFailed(_) => "could not encode translated class stream"@,
        ConversionError::InvalidAuxiliaryHeader(_) => "invalid auxiliary DSSS header"@,
        ConversionError::AuxiliaryChecksum(_) => "could not calculate the auxiliary checksum"@,
        ConversionError::InvalidAuxiliaryChecksum => "auxiliary save has an invalid checksum; refusing to convert it"@,
        ConversionError::UnsupportedAuxiliaryFlags(v) => "unsupported auxiliary DSSS flags 0x"@
            + hex_digits(v as nat, 8),
        ConversionError::AuxiliaryPayloadOutOfBounds => "auxiliary save payload exceeds file bounds"@,
        ConversionError::InvalidAuxiliaryClassStream(_) => "invalid auxiliary class stream"@,
        ConversionError::AuxiliaryRealignFailed(_) => "could not realign auxiliary class stream"@,
        ConversionError::PackFailed { source_platform, .. } => "cannot pack "@ + platform_name(
            source_platform,
        ) + " as target format"@,
    }
}

/// The cause a conversion error wraps, as a sentence, if it wraps one.
pub open spec fn conversion_error_cause_text(e: ConversionError) -> Option<Seq<char>> {
    match e {
        ConversionError::InvalidSourceHeader(c) => Some(format_error_text(c)),
        ConversionError::SourceChecksum(c) => Some(format_error_text(c)),
        ConversionError::InvalidTemplateHeader(c) => Some(format_error_text(c)),
        ConversionError::InvalidAuxiliaryHeader(c) => Some(format_error_text(c)),
        ConversionError::AuxiliaryChecksum(c) => Some(format_error_text(c)),
        ConversionError::InvalidSourceClassStream(c) => Some(payload_error_text(c)),
        ConversionError::InvalidTemplateClassStream(c) => Some(payload_error_text(c)),
        ConversionError::EncodeFailed(c) => Some(payload_error_text(c)),
        ConversionError::InvalidAuxiliaryClassStream(c) => Some(payload_error_text(c)),
        ConversionError::AuxiliaryRealignFailed(c) => Some(payload_error_text(c)),
        ConversionError::SteamSchema(_) => Some(
            "save payload is neither a recognized system save nor a slot save"@,
        ),
        ConversionError::PackFailed { cause, .. } => Some(conversion_error_text(*cause)),
        _ => None,
    }
}

/// Whether a conversion error wraps a failed hash read, whose words are not stated.
pub open spec fn wraps_hash_error(e: ConversionError) -> bool {
    match e {
        ConversionError::InvalidSourceHeader(c) => c is Hash,
        ConversionError::SourceChecksum(c) => c is Hash,
        ConversionError::InvalidTemplateHeader(c) => c is Hash,
        ConversionError::InvalidAuxiliaryHeader(c) => c is Hash,
        ConversionError::AuxiliaryChecksum(c) => c is Hash,
        _ => false,
    }
}

/// A conversion error with its cause: the sentence, then a colon and the
/// cause's sentence where it wraps one.
pub open spec fn conversion_error_full_text(e: ConversionError) -> Seq<char> {
    match conversion_error_cause_text(e) {
        Some(c) => conversion_error_text(e) + ": "@ + c,
        None => conversion_error_text(e),
    }
}

impl ConversionError {
    /// This error with its cause: the sentence, then a colon and the cause's
    /// sentence where it wraps one.
    pub fn full_message(&self) -> (r: String)
        ensures
            !wraps_hash_error(*self) ==> r@ == conversion_error_full_text(*self),
    {
        let mut text = self.message();
        let cause = match self {
            ConversionError::InvalidSourceHeader(c) => c.message(),
            ConversionError::SourceChecksum(c) => c.message(),
            ConversionError::InvalidTemplateHeader(c) => c.message(),
            ConversionError::InvalidAuxiliaryHeader(c) => c.message(),
            ConversionError::AuxiliaryChecksum(c) => c.message(),
            ConversionError::InvalidSourceClassStream(c) => c.message(),
            ConversionError::InvalidTemplateClassStream(c) => c.message(),
            ConversionError::EncodeFailed(c) => c.message(),
            ConversionError::InvalidAuxiliaryClassStream(c) => c.message(),
            ConversionError::AuxiliaryRealignFailed(c) => c.message(),
            ConversionError::SteamSchema(c) => c.message(),
            ConversionError::PackFailed { cause, .. } => cause.message(),
            _ => return text,
        };
        text.append(": ");
        text.append(cause.as_str());
        text
    }

    /// This error as a sentence.
    pub fn message(&self) -> (r: String)
        ensures
            r@ == conversion_error_text(*self),
    {
        match self {
            ConversionError::InvalidSourceHeader(_) => "invalid source DSSS header".to_owned(),
            ConversionError::SourceChecksum(_) => "could not calculate the source checksum".to_owned(),
            ConversionError::InvalidChecksum => {
                "source save has an invalid checksum; refusing to convert it".to_owned()
            },
            ConversionError::MissingSourceSteamId => {
                "Steam source requires --source-steamid64".to_owned()
            },
            ConversionError::MissingTargetSteamId => {
                "Steam target requires --target-steamid64".to_owned()
            },
            ConversionError::MissingTargetCurveIndex => {
                "Steam target requires --target-curve-index or --target-reference".to_owned()
            },
            ConversionError::UnsupportedCoreFormat(p) => {
                let mut text = String::from_str(p.name());
                text.append(" is not a supported core save format");
                text
            },
            ConversionError::MissingDeflateMetadata => {
                "Switch save is missing its DEFLATE metadata".to_owned()
            },
            ConversionError::CompressedLengthOverflow => {
                "Switch compressed payload length overflow".to_owned()
            },
            ConversionError::CompressedPayloadOutOfBounds => {
                "Switch compressed payload exceeds file bounds".to_owned()
            },
            ConversionError::DeflateFailed => "Switch payload is not a valid DEFLATE stream".to_owned(),
            ConversionError::DeflateSizeMismatch { expected, actual } => {
                let mut text = String::from_str("Switch DEFLATE size mismatch: expected ");
                text.append(decimal_text(*expected as u64).as_str());
                text.append(", got ");
                text.append(decimal_text(*actual as u64).as_str());
                text
            },
            ConversionError::MissingCitrusPayload => {
                "Steam save is missing its Citrus payload".to_owned()
            },
            ConversionError::CitrusDecryptFailed => {
                "Citrus decryption failed; check the source SteamID64 and curve index".to_owned()
            },
            ConversionError::CitrusEncryptFailed => {
                "Citrus encryption failed; check the target Curve Index".to_owned()
            },
            ConversionError::CompressFailed => "could not compress the payload".to_owned(),
            ConversionError::FileTooLarge => "file is too large for its checksum".to_owned(),
            ConversionError::Hash => "could not calculate MurmurHash3".to_owned(),
            ConversionError::InvalidSourceClassStream(_) => "invalid source class stream".to_owned(),
            ConversionError::InvalidTemplateHeader(_) => {
                "invalid target-template DSSS header".to_owned()
            },
            ConversionError::TemplatePlatformMismatch { template, requested } => {
                let mut text = String::from_str("target template is ");
                text.append(template.name());
                text.append(", but requested output is ");
                text.append(requested.name());
                text
            },
            ConversionError::InvalidTemplateClassStream(_) => {
                "invalid target-template class stream".to_owned()
            },
            ConversionError::SteamSchema(_) => {
                "could not construct the built-in Steam schema".to_owned()
            },
            ConversionError::SteamSchemaUndefined => {
                "could not construct the built-in Steam schema: the DLC system class is incomplete".to_owned()
            },
            ConversionError::SwitchNeedsTemplate => {
                "cross-platform conversion to Switch currently requires --target-reference".to_owned()
            },
            ConversionError::EncodeFailed(_) => {
                "could not encode translated class stream".to_owned()
            },
            ConversionError::InvalidAuxiliaryHeader(_) => "invalid auxiliary DSSS header".to_owned(),
            ConversionError::AuxiliaryChecksum(_) => {
                "could not calculate the auxiliary checksum".to_owned()
            },
            ConversionError::InvalidAuxiliaryChecksum => {
                "auxiliary save has an invalid checksum; refusing to convert it".to_owned()
            },
            ConversionError::UnsupportedAuxiliaryFlags(v) => {
                let mut text = String::from_str("unsupported auxiliary DSSS flags 0x");
                text.append(hex8_text(*v).as_str());
                text
            },
            ConversionError::AuxiliaryPayloadOutOfBounds => {
                "auxiliary save payload exceeds file bounds".to_owned()
            },
            ConversionError::InvalidAuxiliaryClassStream(_) => {
                "invalid auxiliary class stream".to_owned()
            },
            ConversionError::AuxiliaryRealignFailed(_) => {
                "could not realign auxiliary class stream".to_owned()
            },
            ConversionError::PackFailed { source_platform, .. } => {
                let mut text = String::from_str("cannot pack ");
                text.append(source_platform.name());
                text.append(" as target format");
                text
            },
        }
    }
}

// ---------------------------------------------------------------------------
// Small pieces
// ---------------------------------------------------------------------------
/// `value` rounded up to a multiple of `alignment`.
pub open spec fn align_up_spec(value: int, alignment: int) -> int {
    if value % alignment == 0 {
        value
    } else {
        value + (alignment - value % alignment)
    }
}

/// `value` rounded up to a multiple of `alignment`.
pub fn align_up(value: usize, alignment: usize) -> (r: usize)
    requires
        alignment > 0,
        value + alignment <= usize::MAX,
    ensures
        r == align_up_spec(value as int, alignment as int),
{
    let rest = value % alignment;
    if rest == 0 {
        value
    } else {
        value + (alignment - rest)
    }
}

/// The class-stream offset of the core payload of `platform`.
pub open spec fn class_stream_offset_spec(platform: Platform) -> usize {
    match platform {
        Platform::NintendoSwitch => 12,
        Platform::Steam => 16,
        _ => 0,
    }
}

/// Where the class stream of a core payload of `platform` would start in its file,
/// for alignment.
pub fn class_stream_offset(platform: Platform) -> (r: usize)
    ensures
        r == class_stream_offset_spec(platform),
{
    match platform {
        Platform::NintendoSwitch => DSSS_HEADER_LEN,
        Platform::Steam => align_up(DSSS_HEADER_LEN, 16),
        Platform::Auxiliary | Platform::Unknown => 0,
    }
}

/// The platform of a target.
pub open spec fn target_platform_spec(target: TargetPlatform) -> Platform {
    match target {
        TargetPlatform::NintendoSwitch => Platform::NintendoSwitch,
        TargetPlatform::Steam => Platform::Steam,
    }
}

/// The platform a conversion to `target` writes.
pub fn target_platform(target: TargetPlatform) -> (r: Platform)
    ensures
        r == target_platform_spec(target),
{
    match target {
        TargetPlatform::NintendoSwitch => Platform::NintendoSwitch,
        TargetPlatform::Steam => Platform::Steam,
    }
}

/// `out` padded with zeros to a multiple of four bytes.
pub open spec fn padded4(out: Seq<u8>) -> Seq<u8> {
    resized(out, align_up_spec(out.len() as int, 4))
}

/// `out` padded to four bytes and closed with the MurmurHash3 of the padded bytes.
pub open spec fn finished(out: Seq<u8>) -> Seq<u8> {
    padded4(out) + u32_le(murmur3_32_of(padded4(out), CHECKSUM_SEED))
}

/// Pads `output` to four bytes and closes it with its MurmurHash3.
pub fn finish_file(output: Vec<u8>) -> (r: Result<Vec<u8>, ConversionError>)
    ensures
        r matches Ok(v) ==> v@ == finished(output@),
        output@.len() > MAX_FILE_BODY <==> r matches Err(ConversionError::FileTooLarge),
        r matches Err(e) ==> e is FileTooLarge,
        output@.len() <= MAX_FILE_BODY ==> r is Ok,
{
    let mut output = output;
    if output.len() > MAX_FILE_BODY {
        return Err(ConversionError::FileTooLarge);
    }
    let len = align_up(output.len(), 4);
    resize_zero(&mut output, len);
    let hash = match murmur3_32_bytes(output.as_slice(), CHECKSUM_SEED) {
        Ok(h) => h,
        Err(_) => return Err(ConversionError::Hash),
    };
    push_le_u32(&mut output, hash);
    Ok(output)
}

// ---------------------------------------------------------------------------
// DEFLATE
// ---------------------------------------------------------------------------
/// What flate2's DEFLATE encoder at level 5 writes for `data`.
pub uninterp spec fn deflate_level5(data: Seq<u8>) -> Seq<u8>;

/// What flate2's DEFLATE decoder reads from `data` to its end, or `None`
/// where it reports an error.
pub uninterp spec fn inflate_raw(data: Seq<u8>) -> Option<Seq<u8>>;

/// Calls flate2's `write::DeflateEncoder` at `Compression::new(5)` over a
/// `Vec`, writes all of `payload` and finishes. Claimed: it succeeds (the
/// encoder only reports the errors of the writer it wraps, and writing into a
/// `Vec` does not fail), the bytes are the encoder's output for `payload`, and
/// the decoder reads `payload` back from them (DEFLATE is lossless).
#[verifier::external_body]
fn deflate_bytes(payload: &[u8]) -> (r: Result<Vec<u8>, std::io::Error>)
    ensures
        r is Ok,
        r matches Ok(c) ==> c@ == deflate_level5(payload@) && inflate_raw(c@) == Some(payload@),
{
    let mut encoder = flate2::write::DeflateEncoder::new(Vec::new(), flate2::Compression::new(5));
    std::io::Write::write_all(&mut encoder, payload)?;
    encoder.finish()
}

/// Calls flate2's `read::DeflateDecoder` over `data` and reads it to the end.
/// Claimed: the bytes read are the decoder's output for `data`, and an error
/// comes exactly where the decoder rejects `data`.
#[verifier::external_body]
fn inflate_bytes(data: &[u8]) -> (r: Result<Vec<u8>, std::io::Error>)
    ensures
        r matches Ok(v) ==> inflate_raw(data@) == Some(v@),
        r is Err ==> inflate_raw(data@) is None,
{
    let mut decoder = flate2::read::DeflateDecoder::new(data);
    let mut payload = Vec::new();
    std::io::Read::read_to_end(&mut decoder, &mut payload)?;
    Ok(payload)
}

/// The payload of a Switch core save: the DEFLATE stream whose size the
/// metadata gives, inflated, and checked against the size it should have.
pub open spec fn unpack_deflate_spec(d: Seq<u8>) -> Result<Seq<u8>, ConversionError> {
    if d.len() < DEFLATE_METADATA_OFFSET + DEFLATE_METADATA_LEN + FILE_HASH_LEN {
        Err(ConversionError::MissingDeflateMetadata)
    } else {
        let compressed_size = le_u32_at(d, 28);
        let decompressed_size = le_u64_at(d, 32) as usize;
        let end = 40 + compressed_size;
        if end > usize::MAX {
            Err(ConversionError::CompressedLengthOverflow)
        } else if end > d.len() - FILE_HASH_LEN {
            Err(ConversionError::CompressedPayloadOutOfBounds)
        } else {
            match inflate_raw(d.subrange(40, end)) {
                None => Err(ConversionError::DeflateFailed),
                Some(p) => if p.len() != decompressed_size {
                    Err(
                        ConversionError::DeflateSizeMismatch {
                            expected: decompressed_size,
                            actual: p.len() as usize,
                        },
                    )
                } else {
                    Ok(p)
                },
            }
        }
    }
}

/// Reads the payload of a Switch core save.
pub fn unpack_deflate(data: &[u8]) -> (r: Result<Vec<u8>, ConversionError>)
    ensures
        r matches Ok(p) ==> unpack_deflate_spec(data@) == Ok::<Seq<u8>, ConversionError>(p@),
        r matches Err(e) ==> unpack_deflate_spec(data@) == Err::<Seq<u8>, ConversionError>(e),
{
    let metadata_offset = align_up(DSSS_HEADER_LEN, 8);
    if data.len() < metadata_offset + DEFLATE_METADATA_LEN + FILE_HASH_LEN {
        return Err(ConversionError::MissingDeflateMetadata);
    }
    let compressed_size = read_le_u32(data, metadata_offset + 12) as usize;
    let decompressed_size = read_le_u64(data, metadata_offset + 16) as usize;
    let compressed_offset = metadata_offset + DEFLATE_METADATA_LEN;
    let compressed_end = match compressed_offset.checked_add(compressed_size) {
        Some(end) => end,
        None => return Err(ConversionError::CompressedLengthOverflow),
    };
    if compressed_end > data.len() - FILE_HASH_LEN {
        return Err(ConversionError::CompressedPayloadOutOfBounds);
    }
    let payload = match inflate_bytes(slice_range(data, compressed_offset, compressed_end)) {
        Ok(p) => p,
        Err(_) => return Err(ConversionError::DeflateFailed),
    };
    if payload.len() != decompressed_size {
        return Err(
            ConversionError::DeflateSizeMismatch {
                expected: decompressed_size,
                actual: payload.len(),
            },
        );
    }
    Ok(payload)
}

/// The DSSS header of a container with flag bits `flags`.
pub open spec fn header_bytes(flags: u32) -> Seq<u8> {
    dsss_magic() + u32_le(DSSS_VERSION) + u32_le(flags)
}

/// A Switch core save before its closing hash: the header, padding to eight
/// bytes, the DEFLATE metadata and the compressed payload.
pub open spec fn switch_container(payload: Seq<u8>, compressed: Seq<u8>) -> Seq<u8> {
    header_bytes(0x08) + zeros(4) + u64_le((compressed.len() + 0x10) as u64) + u32_le(1) + u32_le(
        compressed.len() as u32,
    ) + u64_le(payload.len() as u64) + compressed
}

/// A Steam core save before its closing hash: the header, padding to sixteen
/// bytes, the encrypted payload and the decrypted length.
pub open spec fn steam_container(encrypted: Seq<u8>, payload_len: nat) -> Seq<u8> {
    header_bytes(0x04) + zeros(4) + encrypted + u64_le(payload_len as u64)
}

/// The view of a byte result.
pub open spec fn res_bytes(r: Result<Vec<u8>, ConversionError>) -> Result<Seq<u8>, ConversionError> {
    match r {
        Ok(v) => Ok(v@),
        Err(e) => Err(e),
    }
}

/// `body` finished with its closing hash, or `FileTooLarge` where it is too
/// long for the hash.
pub open spec fn finish_spec(body: Seq<u8>) -> Result<Seq<u8>, ConversionError> {
    if body.len() > MAX_FILE_BODY {
        Err(ConversionError::FileTooLarge)
    } else {
        Ok(finished(body))
    }
}

/// The Switch core save of `payload`.
pub open spec fn pack_switch_spec(payload: Seq<u8>) -> Result<Seq<u8>, ConversionError> {
    finish_spec(switch_container(payload, deflate_level5(payload)))
}

/// The core save of `payload` for `target`: the Switch container, or the
/// Steam container of what `cipher` encrypts it to under the target keys.
pub open spec fn pack_spec<C: CitrusCipher>(
    cipher: &C,
    payload: Seq<u8>,
    target: TargetPlatform,
    steamid64: Option<u64>,
    curve_index: Option<usize>,
) -> Result<Seq<u8>, ConversionError> {
    match target {
        TargetPlatform::NintendoSwitch => pack_switch_spec(payload),
        TargetPlatform::Steam => match steamid64 {
            None => Err(ConversionError::MissingTargetSteamId),
            Some(id) => match curve_index {
                None => Err(ConversionError::MissingTargetCurveIndex),
                Some(curve) => match cipher.encrypt_spec(id, curve, payload) {
                    None => Err(ConversionError::CitrusEncryptFailed),
                    Some(enc) => finish_spec(steam_container(enc, payload.len())),
                },
            },
        },
    }
}

/// The core payload of the save `d` of `platform`: inflated for the Switch,
/// decrypted by `cipher` under the source keys for Steam.
pub open spec fn unpack_spec<C: CitrusCipher>(
    cipher: &C,
    d: Seq<u8>,
    platform: Platform,
    steamid64: Option<u64>,
    curve_index: Option<usize>,
) -> Result<Seq<u8>, ConversionError> {
    match platform {
        Platform::NintendoSwitch => unpack_deflate_spec(d),
        Platform::Steam => match steamid64 {
            None => Err(ConversionError::MissingSourceSteamId),
            Some(id) => match citrus_payload_spec(d) {
                None => Err(ConversionError::MissingCitrusPayload),
                Some((enc, n)) => match cipher.decrypt_spec(id, curve_index, enc, n) {
                    Some(p) => Ok(p),
                    None => Err(ConversionError::CitrusDecryptFailed),
                },
            },
        },
        _ => Err(ConversionError::UnsupportedCoreFormat(platform)),
    }
}

/// Writes the DSSS header for `flags`.
fn push_header(out: &mut Vec<u8>, flags: u32)
    ensures
        final(out)@ == old(out)@ + header_bytes(flags),
{
    out.push(0x44);
    out.push(0x53);
    out.push(0x53);
    out.push(0x53);
    push_le_u32(out, DSSS_VERSION);
    push_le_u32(out, flags);
    assert(final(out)@ =~= old(out)@ + header_bytes(flags));
}

/// Packs `payload` as a Switch core save.
fn pack_switch(payload: &[u8]) -> (r: Result<Vec<u8>, ConversionError>)
    ensures
        res_bytes(r) == pack_switch_spec(payload@),
        r matches Ok(v) ==> unpack_deflate_spec(v@) == Ok::<Seq<u8>, ConversionError>(payload@),
{
    let mut output: Vec<u8> = Vec::new();
    push_header(&mut output, SaveFlags::deflate().bits());
    let padded = align_up(output.len(), 8);
    resize_zero(&mut output, padded);
    let compressed = match deflate_bytes(payload) {
        Ok(c) => c,
        Err(_) => return Err(ConversionError::CompressFailed),
    };
    if compressed.len() as u64 > u64::MAX - 0x10 {
        assert(switch_container(payload@, compressed@).len() == 40 + compressed@.len());
        return Err(ConversionError::FileTooLarge);
    }
    push_le_u64(&mut output, compressed.len() as u64 + 0x10);
    push_le_u32(&mut output, 1);
    push_le_u32(&mut output, compressed.len() as u32);
    push_le_u64(&mut output, payload.len() as u64);
    push_all(&mut output, compressed.as_slice());
    assert(output@ =~= switch_container(payload@, compressed@));
    let r = finish_file(output);
    proof {
        if r is Ok {
            lemma_switch_container_roundtrip(payload@, compressed@);
        }
    }
    r
}

/// What a Switch core save gives back: a finished Switch container of a
/// payload and a DEFLATE stream that inflates to it reads back as that payload.
pub proof fn lemma_switch_container_roundtrip(payload: Seq<u8>, compressed: Seq<u8>)
    requires
        inflate_raw(compressed) == Some(payload),
        switch_container(payload, compressed).len() <= MAX_FILE_BODY,
        payload.len() <= usize::MAX,
    ensures
        unpack_deflate_spec(finished(switch_container(payload, compressed))) == Ok::<
            Seq<u8>,
            ConversionError,
        >(payload),
{
    let c = switch_container(payload, compressed);
    let v = finished(c);
    let clen = compressed.len();
    let head = header_bytes(0x08) + zeros(4) + u64_le((clen + 0x10) as u64) + u32_le(1);
    let pad = padded4(c);
    assert(head.len() == 28);
    assert(c.len() == 40 + clen);
    assert(pad =~= c + zeros((align_up_spec(c.len() as int, 4) - c.len()) as nat));
    let tail = zeros((align_up_spec(c.len() as int, 4) - c.len()) as nat) + u32_le(
        murmur3_32_of(pad, CHECKSUM_SEED),
    );
    assert(v =~= head + u32_le(clen as u32) + (u64_le(payload.len() as u64) + compressed + tail));
    crate::bytes::lemma_u32_le_roundtrip(
        clen as u32,
        head,
        u64_le(payload.len() as u64) + compressed + tail,
    );
    assert(v =~= (head + u32_le(clen as u32)) + u64_le(payload.len() as u64) + (compressed + tail));
    crate::bytes::lemma_u64_le_roundtrip(
        payload.len() as u64,
        head + u32_le(clen as u32),
        compressed + tail,
    );
    assert(v.subrange(40, 40 + clen as int) =~= compressed);
}

/// Packs `encrypted`, the Citrus form of a `payload_len`-byte payload, as a Steam core save.
fn pack_steam(encrypted: &[u8], payload_len: usize) -> (r: Result<Vec<u8>, ConversionError>)
    ensures
        res_bytes(r) == finish_spec(steam_container(encrypted@, payload_len as nat)),
{
    let mut output: Vec<u8> = Vec::new();
    push_header(&mut output, SaveFlags::citrus().bits());
    let padded = align_up(output.len(), 16);
    resize_zero(&mut output, padded);
    push_all(&mut output, encrypted);
    push_le_u64(&mut output, payload_len as u64);
    assert(output@ =~= steam_container(encrypted@, payload_len as nat));
    finish_file(output)
}

/// Packs `payload` as a core save of `target`: DEFLATE for the Switch,
/// Citrus under the target account and Curve Index for Steam.
pub fn pack_payload_with_cipher<C: CitrusCipher>(
    payload: &[u8],
    target: TargetPlatform,
    steamid64: Option<u64>,
    curve_index: Option<usize>,
    cipher: &C,
) -> (r: Result<Vec<u8>, ConversionError>)
    ensures
        res_bytes(r) == pack_spec(cipher, payload@, target, steamid64, curve_index),
        r matches Ok(v) ==> is_core_file_for(v@, target),
        target is NintendoSwitch ==> (r matches Ok(v) ==> unpack_deflate_spec(v@) == Ok::<
            Seq<u8>,
            ConversionError,
        >(payload@)),
        target is Steam && steamid64 is Some && curve_index is Some && cipher_roundtrips(
            cipher,
            steamid64->Some_0,
            curve_index->Some_0,
        ) ==> (r matches Ok(v) ==> unpack_spec(cipher, v@, Platform::Steam, steamid64, curve_index)
            == Ok::<Seq<u8>, ConversionError>(payload@)),
{
    proof {
        lemma_pack_spec_shape(cipher, payload@, target, steamid64, curve_index);
        if target is Steam && steamid64 is Some && curve_index is Some && cipher_roundtrips(
            cipher,
            steamid64->Some_0,
            curve_index->Some_0,
        ) {
            lemma_pack_steam_rereads(cipher, payload@, steamid64->Some_0, curve_index->Some_0);
        }
    }
    match target {
        TargetPlatform::NintendoSwitch => pack_switch(payload),
        TargetPlatform::Steam => {
            let id = match steamid64 {
                Some(id) => id,
                None => return Err(ConversionError::MissingTargetSteamId),
            };
            let curve = match curve_index {
                Some(c) => c,
                None => return Err(ConversionError::MissingTargetCurveIndex),
            };
            let encrypted = match cipher.encrypt(id, curve, payload) {
                Some(e) => e,
                None => return Err(ConversionError::CitrusEncryptFailed),
            };
            pack_steam(encrypted.as_slice(), payload.len())
        },
    }
}

/// The Citrus payload of a Steam core save and the length it decrypts to.
pub open spec fn citrus_payload_spec(d: Seq<u8>) -> Option<(Seq<u8>, usize)> {
    if d.len() < CITRUS_PAYLOAD_OFFSET + CITRUS_SIZE_FIELD_LEN + FILE_HASH_LEN {
        None
    } else {
        let size_offset = d.len() - FILE_HASH_LEN - CITRUS_SIZE_FIELD_LEN;
        Some((d.subrange(16, size_offset), le_u64_at(d, size_offset) as usize))
    }
}

/// The Citrus payload of a Steam core save and the length it decrypts to.
pub fn citrus_payload(data: &[u8]) -> (r: Result<(&[u8], usize), ConversionError>)
    ensures
        r matches Ok((p, n)) ==> citrus_payload_spec(data@) == Some((p@, n)),
        r is Err ==> citrus_payload_spec(data@) is None && r matches Err(
            ConversionError::MissingCitrusPayload,
        ),
{
    let payload_offset = align_up(DSSS_HEADER_LEN, 16);
    if data.len() < payload_offset + CITRUS_SIZE_FIELD_LEN + FILE_HASH_LEN {
        return Err(ConversionError::MissingCitrusPayload);
    }
    let size_offset = data.len() - FILE_HASH_LEN - CITRUS_SIZE_FIELD_LEN;
    let decrypted_len = read_le_u64(data, size_offset) as usize;
    Ok((slice_range(data, payload_offset, size_offset), decrypted_len))
}

/// Reads the core payload of `data`, whose header is `header`: inflated for
/// the Switch, decrypted under the source account for Steam.
pub fn unpack_payload_with_cipher<C: CitrusCipher>(
    data: &[u8],
    header: DsssHeader,
    steamid64: Option<u64>,
    curve_index: Option<usize>,
    cipher: &C,
) -> (r: Result<Vec<u8>, ConversionError>)
    ensures
        res_bytes(r) == unpack_spec(cipher, data@, header.platform_spec(), steamid64, curve_index),
{
    match header.platform() {
        Platform::NintendoSwitch => unpack_deflate(data),
        Platform::Steam => {
            let id = match steamid64 {
                Some(id) => id,
                None => return Err(ConversionError::MissingSourceSteamId),
            };
            let (encrypted, decrypted_len) = match citrus_payload(data) {
                Ok(v) => v,
                Err(e) => return Err(e),
            };
            match cipher.decrypt(id, curve_index, encrypted, decrypted_len) {
                Some(p) => Ok(p),
                None => Err(ConversionError::CitrusDecryptFailed),
            }
        },
        other => Err(ConversionError::UnsupportedCoreFormat(other)),
    }
}

/// Packs `payload` as a core save of `target` without a Citrus cipher, so a
/// Steam target is refused once its account and Curve Index are there.
pub fn pack_payload(
    payload: &[u8],
    target: TargetPlatform,
    steamid64: Option<u64>,
    curve_index: Option<usize>,
) -> (r: Result<Vec<u8>, ConversionError>)
    ensures
        res_bytes(r) == pack_spec(&NoCitrus, payload@, target, steamid64, curve_index),
        r matches Ok(v) ==> is_core_file_for(v@, target),
        target is NintendoSwitch ==> (r matches Ok(v) ==> unpack_deflate_spec(v@) == Ok::<
            Seq<u8>,
            ConversionError,
        >(payload@)),
        target is Steam ==> r is Err,
{
    pack_payload_with_cipher(payload, target, steamid64, curve_index, &NoCitrus)
}

/// Reads the core payload of `data` without a Citrus cipher, so a Steam
/// payload is refused.
pub fn unpack_payload(
    data: &[u8],
    header: DsssHeader,
    steamid64: Option<u64>,
    curve_index: Option<usize>,
) -> (r: Result<Vec<u8>, ConversionError>)
    ensures
        res_bytes(r) == unpack_spec(&NoCitrus, data@, header.platform_spec(), steamid64, curve_index),
        header.platform_spec() != Platform::NintendoSwitch ==> r is Err,
{
    unpack_payload_with_cipher(data, header, steamid64, curve_index, &NoCitrus)
}

// ---------------------------------------------------------------------------
// Translating the class stream
// ---------------------------------------------------------------------------
/// The schema a translated stream follows: the template's stream, or the
/// built-in Steam schema built from the source stream `s`.
pub open spec fn target_schema_spec(
    s: PayloadModel,
    template: Option<Seq<u8>>,
    requested: Platform,
) -> Result<PayloadModel, ConversionError> {
    match template {
        Some(t) => match parse_spec(t, class_stream_offset_spec(requested) as int) {
            Ok(p) => Ok(p),
            Err(e) => Err(ConversionError::InvalidTemplateClassStream(e)),
        },
        None => if requested is Steam {
            if !steam_template_defined(s.entries) {
                Err(ConversionError::SteamSchemaUndefined)
            } else {
                match steam_template_spec(s.entries) {
                    Ok(es) => Ok(PayloadModel { entries: es }),
                    Err(e) => Err(ConversionError::SteamSchema(e)),
                }
            }
        } else {
            Err(ConversionError::SwitchNeedsTemplate)
        },
    }
}

/// The core payload a cross-platform conversion writes: the source stream
/// (read at the source platform's offset) merged onto the target schema and
/// written at the requested platform's offset.
pub open spec fn translate_spec(
    source: Seq<u8>,
    source_platform: Platform,
    template: Option<Seq<u8>>,
    requested: Platform,
) -> Result<Seq<u8>, ConversionError> {
    match parse_spec(source, class_stream_offset_spec(source_platform) as int) {
        Err(e) => Err(ConversionError::InvalidSourceClassStream(e)),
        Ok(s) => match target_schema_spec(s, template, requested) {
            Err(e) => Err(e),
            Ok(t) => match encode_spec(merge_spec(s, t), class_stream_offset_spec(requested) as int) {
                Ok(b) => Ok(b),
                Err(e) => Err(ConversionError::EncodeFailed(e)),
            },
        },
    }
}

/// The view of an optional byte slice.
pub open spec fn opt_view(b: Option<&[u8]>) -> Option<Seq<u8>> {
    match b {
        Some(x) => Some(x@),
        None => None,
    }
}

/// Translates a decrypted or inflated core payload of `source_platform` into
/// one for `requested`, following the template payload's schema where there
/// is one and the built-in Steam schema otherwise.
pub fn translate_payload(
    source_payload: &[u8],
    source_platform: Platform,
    template_payload: Option<&[u8]>,
    requested: Platform,
) -> (r: Result<Vec<u8>, ConversionError>)
    ensures
        r matches Ok(v) ==> translate_spec(
            source_payload@,
            source_platform,
            opt_view(template_payload),
            requested,
        ) == Ok::<Seq<u8>, ConversionError>(v@),
        r matches Err(e) ==> translate_spec(
            source_payload@,
            source_platform,
            opt_view(template_payload),
            requested,
        ) == Err::<Seq<u8>, ConversionError>(e),
{
    let source = match SavePayload::parse_at_offset(
        source_payload,
        class_stream_offset(source_platform),
    ) {
        Ok(p) => p,
        Err(e) => return Err(ConversionError::InvalidSourceClassStream(e)),
    };
    let target = match template_payload {
        Some(template) => match SavePayload::parse_at_offset(
            template,
            class_stream_offset(requested),
        ) {
            Ok(p) => p,
            Err(e) => return Err(ConversionError::InvalidTemplateClassStream(e)),
        },
        None => {
            if requested != Platform::Steam {
                return Err(ConversionError::SwitchNeedsTemplate);
            }
            if !can_build_steam_template(&source) {
                return Err(ConversionError::SteamSchemaUndefined);
            }
            match steam_template_from_source(&source) {
                Ok(p) => p,
                Err(e) => return Err(ConversionError::SteamSchema(e)),
            }
        },
    };
    let (merged, _) = merge_onto_template(&source, &target);
    match merged.encode_at_offset(class_stream_offset(requested)) {
        Ok(b) => Ok(b),
        Err(e) => Err(ConversionError::EncodeFailed(e)),
    }
}

/// `finished(out)` closes with the hash of everything before the hash.
pub proof fn lemma_finished_checksum_valid(out: Seq<u8>)
    ensures
        finished(out).len() == padded4(out).len() + 4,
        checksum_status_spec(finished(out)) == ChecksumStatus::Valid,
{
    let p = padded4(out);
    let h = murmur3_32_of(p, CHECKSUM_SEED);
    let f = finished(out);
    crate::bytes::lemma_u32_le_roundtrip(h, p, Seq::empty());
    assert(p + u32_le(h) + Seq::<u8>::empty() =~= f);
    assert(f.take(f.len() - FILE_HASH_LEN) =~= p);
}

/// What a translation onto the target schema gives: with no template, the
/// built-in schema; with one, its header must be well formed and of the
/// requested platform, and its payload is read under the target keys.
pub open spec fn translate_onto_template_spec<C: CitrusCipher>(
    cipher: &C,
    payload: Seq<u8>,
    source_platform: Platform,
    requested: Platform,
    template: Option<Seq<u8>>,
    target_steamid64: Option<u64>,
    target_curve_index: Option<usize>,
) -> Result<Seq<u8>, ConversionError> {
    match template {
        None => translate_spec(payload, source_platform, None, requested),
        Some(t) => if !is_dsss_header(t) {
            Err(ConversionError::InvalidTemplateHeader(header_error_spec(t)))
        } else {
            let template_platform = platform_of(le_u32_at(t, 8) & KNOWN_FLAG_BITS);
            if template_platform != requested {
                Err(ConversionError::TemplatePlatformMismatch { template: template_platform, requested })
            } else {
                match unpack_spec(cipher, t, template_platform, target_steamid64, target_curve_index) {
                    Err(e) => Err(e),
                    Ok(template_payload) => translate_spec(
                        payload,
                        source_platform,
                        Some(template_payload),
                        requested,
                    ),
                }
            }
        },
    }
}

/// The core payload that converting the core save `d` packs for the target:
/// the header must be well formed and the closing hash must match; the
/// payload is read, and translated where the platforms differ.
pub open spec fn converted_payload_spec<C: CitrusCipher>(
    cipher: &C,
    d: Seq<u8>,
    template: Option<Seq<u8>>,
    options: ConversionOptions,
) -> Result<Seq<u8>, ConversionError> {
    if !is_dsss_header(d) {
        Err(ConversionError::InvalidSourceHeader(header_error_spec(d)))
    } else if stored_hash(d) != calculated_hash(d) {
        Err(ConversionError::InvalidChecksum)
    } else {
        let source_platform = platform_of(le_u32_at(d, 8) & KNOWN_FLAG_BITS);
        let requested = target_platform_spec(options.target);
        match unpack_spec(
            cipher,
            d,
            source_platform,
            options.source_steamid64,
            options.source_curve_index,
        ) {
            Err(e) => Err(e),
            Ok(p) => if source_platform != requested {
                translate_onto_template_spec(
                    cipher,
                    p,
                    source_platform,
                    requested,
                    template,
                    options.target_steamid64,
                    options.target_curve_index,
                )
            } else {
                Ok(p)
            },
        }
    }
}

/// What converting the core save `d` gives: its converted payload, packed
/// for the target; a packing error comes wrapped with the source platform.
pub open spec fn convert_spec<C: CitrusCipher>(
    cipher: &C,
    d: Seq<u8>,
    template: Option<Seq<u8>>,
    options: ConversionOptions,
) -> Result<Seq<u8>, ConversionError> {
    match converted_payload_spec(cipher, d, template, options) {
        Err(e) => Err(e),
        Ok(q) => match pack_spec(
            cipher,
            q,
            options.target,
            options.target_steamid64,
            options.target_curve_index,
        ) {
            Ok(v) => Ok(v),
            Err(e) => Err(
                ConversionError::PackFailed {
                    source_platform: platform_of(le_u32_at(d, 8) & KNOWN_FLAG_BITS),
                    cause: Box::new(e),
                },
            ),
        },
    }
}

// ---------------------------------------------------------------------------
// Whole files
// ---------------------------------------------------------------------------
/// Translates `payload` onto the schema of `target_template`, read under the
/// target account, or onto the built-in schema where there is no template.
fn translate_onto_template<C: CitrusCipher>(
    payload: &[u8],
    source_platform: Platform,
    requested: Platform,
    target_template: Option<&[u8]>,
    target_steamid64: Option<u64>,
    target_curve_index: Option<usize>,
    cipher: &C,
) -> (r: Result<Vec<u8>, ConversionError>)
    ensures
        res_bytes(r) == translate_onto_template_spec(
            cipher,
            payload@,
            source_platform,
            requested,
            opt_view(target_template),
            target_steamid64,
            target_curve_index,
        ),
{
    let template = match target_template {
        Some(t) => t,
        None => return translate_payload(payload, source_platform, None, requested),
    };
    let target_header = match parse_header(template) {
        Ok(h) => h,
        Err(e) => return Err(ConversionError::InvalidTemplateHeader(e)),
    };
    if target_header.platform() != requested {
        return Err(
            ConversionError::TemplatePlatformMismatch { template: target_header.platform(), requested },
        );
    }
    let template_payload = match unpack_payload_with_cipher(
        template,
        target_header,
        target_steamid64,
        target_curve_index,
        cipher,
    ) {
        Ok(p) => p,
        Err(e) => return Err(e),
    };
    translate_payload(payload, source_platform, Some(template_payload.as_slice()), requested)
}

/// Converts the core save `data` into a core save of `options.target`: the
/// source must be a DSSS container whose closing hash matches; its payload is
/// read (inflated or decrypted), translated onto `target_template` or the
/// built-in Steam schema where the platforms differ, and packed for the
/// target. Steam payloads go through `cipher`.
pub fn convert_bytes_with_cipher<C: CitrusCipher>(
    data: &[u8],
    target_template: Option<&[u8]>,
    options: ConversionOptions,
    cipher: &C,
) -> (r: Result<Vec<u8>, ConversionError>)
    requires
        data@.len() <= u32::MAX + FILE_HASH_LEN,
    ensures
        res_bytes(r) == convert_spec(cipher, data@, opt_view(target_template), options),
        r matches Ok(v) ==> is_core_file_for(v@, options.target),
        r matches Ok(v) ==> (reads_back_under(cipher, options) ==> unpack_spec(
            cipher,
            v@,
            target_platform_spec(options.target),
            options.target_steamid64,
            options.target_curve_index,
        ) == converted_payload_spec(cipher, data@, opt_view(target_template), options)),
        r matches Ok(v) ==> (stays_on_platform(cipher, data@, options) ==> unpack_spec(
            cipher,
            v@,
            target_platform_spec(options.target),
            options.target_steamid64,
            options.target_curve_index,
        ) == unpack_spec(
            cipher,
            data@,
            target_platform_spec(options.target),
            options.source_steamid64,
            options.source_curve_index,
        )),
        is_dsss_header(data@) && platform_of(le_u32_at(data@, 8) & KNOWN_FLAG_BITS)
            is NintendoSwitch && options.target is NintendoSwitch ==> (r matches Ok(v) ==> (
        unpack_deflate_spec(data@) matches Ok(p) && v@ == finished(
            switch_container(p, deflate_level5(p)),
        ) && unpack_deflate_spec(v@) == unpack_deflate_spec(data@))),
{
    let header = match parse_header(data) {
        Ok(h) => h,
        Err(e) => return Err(ConversionError::InvalidSourceHeader(e)),
    };
    match checksum_status(data) {
        Ok(ChecksumStatus::Valid) => {},
        Ok(ChecksumStatus::Invalid { .. }) => return Err(ConversionError::InvalidChecksum),
        Err(e) => return Err(ConversionError::SourceChecksum(e)),
    }
    let source_platform = header.platform();
    let payload = match unpack_payload_with_cipher(
        data,
        header,
        options.source_steamid64,
        options.source_curve_index,
        cipher,
    ) {
        Ok(p) => p,
        Err(e) => return Err(e),
    };
    let requested = target_platform(options.target);
    let payload = if source_platform != requested {
        match translate_onto_template(
            payload.as_slice(),
            source_platform,
            requested,
            target_template,
            options.target_steamid64,
            options.target_curve_index,
            cipher,
        ) {
            Ok(t) => t,
            Err(e) => return Err(e),
        }
    } else {
        payload
    };
    let packed = pack_payload_with_cipher(
        payload.as_slice(),
        options.target,
        options.target_steamid64,
        options.target_curve_index,
        cipher,
    );
    proof {
        lemma_convert_spec_shape(cipher, data@, opt_view(target_template), options);
    }
    match packed {
        Ok(v) => Ok(v),
        Err(e) => Err(ConversionError::PackFailed { source_platform, cause: Box::new(e) }),
    }
}

/// Converts the core save `data` into a core save of `options.target`,
/// without a template and without a Citrus cipher.
pub fn convert_bytes(data: &[u8], options: ConversionOptions) -> (r: Result<
    Vec<u8>,
    ConversionError,
>)
    requires
        data@.len() <= u32::MAX + FILE_HASH_LEN,
    ensures
        res_bytes(r) == convert_spec(&NoCitrus, data@, None, options),
        r matches Ok(v) ==> is_core_file_for(v@, options.target),
        r matches Ok(v) ==> (reads_back_under(&NoCitrus, options) ==> unpack_spec(
            &NoCitrus,
            v@,
            target_platform_spec(options.target),
            options.target_steamid64,
            options.target_curve_index,
        ) == converted_payload_spec(&NoCitrus, data@, None, options)),
        r matches Ok(v) ==> (stays_on_platform(&NoCitrus, data@, options) ==> unpack_spec(
            &NoCitrus,
            v@,
            target_platform_spec(options.target),
            options.target_steamid64,
            options.target_curve_index,
        ) == unpack_spec(
            &NoCitrus,
            data@,
            target_platform_spec(options.target),
            options.source_steamid64,
            options.source_curve_index,
        )),
        is_dsss_header(data@) && platform_of(le_u32_at(data@, 8) & KNOWN_FLAG_BITS)
            is NintendoSwitch && options.target is NintendoSwitch ==> (r matches Ok(v) ==> (
        unpack_deflate_spec(data@) matches Ok(p) && v@ == finished(
            switch_container(p, deflate_level5(p)),
        ) && unpack_deflate_spec(v@) == unpack_deflate_spec(data@))),
{
    convert_bytes_with_cipher(data, None, options, &NoCitrus)
}

/// Converts the core save `data` into a core save of `options.target`,
/// following `target_template` where the platforms differ, without a Citrus cipher.
pub fn convert_bytes_with_template(
    data: &[u8],
    target_template: Option<&[u8]>,
    options: ConversionOptions,
) -> (r: Result<Vec<u8>, ConversionError>)
    requires
        data@.len() <= u32::MAX + FILE_HASH_LEN,
    ensures
        res_bytes(r) == convert_spec(&NoCitrus, data@, opt_view(target_template), options),
        r matches Ok(v) ==> is_core_file_for(v@, options.target),
        r matches Ok(v) ==> (reads_back_under(&NoCitrus, options) ==> unpack_spec(
            &NoCitrus,
            v@,
            target_platform_spec(options.target),
            options.target_steamid64,
            options.target_curve_index,
        ) == converted_payload_spec(&NoCitrus, data@, opt_view(target_template), options)),
        r matches Ok(v) ==> (stays_on_platform(&NoCitrus, data@, options) ==> unpack_spec(
            &NoCitrus,
            v@,
            target_platform_spec(options.target),
            options.target_steamid64,
            options.target_curve_index,
        ) == unpack_spec(
            &NoCitrus,
            data@,
            target_platform_spec(options.target),
            options.source_steamid64,
            options.source_curve_index,
        )),
        is_dsss_header(data@) && platform_of(le_u32_at(data@, 8) & KNOWN_FLAG_BITS)
            is NintendoSwitch && options.target is NintendoSwitch ==> (r matches Ok(v) ==> (
        unpack_deflate_spec(data@) matches Ok(p) && v@ == finished(
            switch_container(p, deflate_level5(p)),
        ) && unpack_deflate_spec(v@) == unpack_deflate_spec(data@))),
{
    convert_bytes_with_cipher(data, target_template, options, &NoCitrus)
}

// ---------------------------------------------------------------------------
// Album files
// ---------------------------------------------------------------------------
/// Where the payload of an album wrapper with flags `raw_flags` starts, if
/// the flags are known: right after the header without flags, after the
/// account identifier with `HAS_ID`.
pub open spec fn auxiliary_offset_spec(raw_flags: u32) -> Option<usize> {
    if raw_flags == 0 {
        Some(12)
    } else if raw_flags == HAS_ID_BITS {
        Some(24)
    } else {
        None
    }
}

/// Where the payload of an album wrapper for `target` starts.
pub open spec fn auxiliary_target_offset(target: TargetPlatform) -> usize {
    match target {
        TargetPlatform::NintendoSwitch => 12,
        TargetPlatform::Steam => 24,
    }
}

/// The wrapper of an album file for `target` before its payload: a Switch
/// header without flags, or a Steam header with `HAS_ID`, padding to eight
/// bytes and the low 32 bits of the account identifier as eight bytes.
pub open spec fn auxiliary_header_spec(target: TargetPlatform, steamid64: u64) -> Seq<u8> {
    match target {
        TargetPlatform::NintendoSwitch => header_bytes(0),
        TargetPlatform::Steam => header_bytes(HAS_ID_BITS) + zeros(4) + u64_le(
            (steamid64 % 0x1_0000_0000) as u64,
        ),
    }
}

/// The album class stream of `d` rewritten for the payload offset of `target`.
pub open spec fn auxiliary_payload_spec(d: Seq<u8>, target: TargetPlatform) -> Result<
    Seq<u8>,
    ConversionError,
> {
    let raw = le_u32_at(d, 8);
    match auxiliary_offset_spec(raw) {
        None => Err(ConversionError::UnsupportedAuxiliaryFlags(raw)),
        Some(off) => if d.len() - FILE_HASH_LEN < off {
            Err(ConversionError::AuxiliaryPayloadOutOfBounds)
        } else {
            match parse_spec(d.subrange(off as int, d.len() - FILE_HASH_LEN), off as int) {
                Err(e) => Err(ConversionError::InvalidAuxiliaryClassStream(e)),
                Ok(p) => match encode_spec(p, auxiliary_target_offset(target) as int) {
                    Err(e) => Err(ConversionError::AuxiliaryRealignFailed(e)),
                    Ok(b) => Ok(b),
                },
            }
        }
    }
}

/// The class stream of the album file `d`, read at its payload offset.
pub open spec fn auxiliary_stream_spec(d: Seq<u8>) -> Result<PayloadModel, PayloadError> {
    let off = auxiliary_offset_spec(le_u32_at(d, 8))->Some_0;
    parse_spec(d.subrange(off as int, d.len() - FILE_HASH_LEN), off as int)
}

/// Rewrapping an album file keeps its class stream: the rewritten stream reads
/// back, at the new payload offset, as the class stream the file had.
pub proof fn lemma_auxiliary_keeps_class_stream(d: Seq<u8>, target: TargetPlatform)
    requires
        auxiliary_payload_spec(d, target) is Ok,
        auxiliary_target_offset(target) + auxiliary_payload_spec(d, target)->Ok_0.len()
            <= usize::MAX,
    ensures
        parse_spec(auxiliary_payload_spec(d, target)->Ok_0, auxiliary_target_offset(target) as int)
            == auxiliary_stream_spec(d),
{
    let off = auxiliary_offset_spec(le_u32_at(d, 8))->Some_0;
    lemma_parsed_unambiguous(d.subrange(off as int, d.len() - FILE_HASH_LEN), off as int);
    let p = auxiliary_stream_spec(d)->Ok_0;
    lemma_encode_parse_roundtrip(p, auxiliary_target_offset(target) as int);
}

/// The album class stream of `data`, rewritten for `target`.
fn realign_auxiliary_payload(data: &[u8], raw_flags: u32, target: TargetPlatform) -> (r: Result<
    Vec<u8>,
    ConversionError,
>)
    requires
        data@.len() >= DSSS_HEADER_LEN + FILE_HASH_LEN,
        raw_flags == le_u32_at(data@, 8),
    ensures
        r matches Ok(v) ==> auxiliary_payload_spec(data@, target) == Ok::<
            Seq<u8>,
            ConversionError,
        >(v@),
        r matches Err(e) ==> auxiliary_payload_spec(data@, target) == Err::<
            Seq<u8>,
            ConversionError,
        >(e),
{
    let source_offset = if raw_flags == 0 {
        DSSS_HEADER_LEN
    } else if raw_flags == SaveFlags::has_id().bits() {
        align_up(DSSS_HEADER_LEN, 8) + 8
    } else {
        return Err(ConversionError::UnsupportedAuxiliaryFlags(raw_flags));
    };
    let payload_end = data.len() - FILE_HASH_LEN;
    if payload_end < source_offset {
        return Err(ConversionError::AuxiliaryPayloadOutOfBounds);
    }
    let target_offset = match target {
        TargetPlatform::NintendoSwitch => DSSS_HEADER_LEN,
        TargetPlatform::Steam => align_up(DSSS_HEADER_LEN, 8) + 8,
    };
    let payload = match SavePayload::parse_at_offset(
        slice_range(data, source_offset, payload_end),
        source_offset,
    ) {
        Ok(p) => p,
        Err(e) => return Err(ConversionError::InvalidAuxiliaryClassStream(e)),
    };
    match payload.encode_at_offset(target_offset) {
        Ok(b) => Ok(b),
        Err(e) => Err(ConversionError::AuxiliaryRealignFailed(e)),
    }
}

/// What converting the album file `d` to `target` gives: the header must be
/// well formed and the closing hash must match; the class stream is rewritten
/// for the new payload offset and wrapped for the target, a Steam wrapper
/// with the target account.
pub open spec fn convert_auxiliary_spec(
    d: Seq<u8>,
    target: TargetPlatform,
    target_steamid64: Option<u64>,
) -> Result<Seq<u8>, ConversionError> {
    if !is_dsss_header(d) {
        Err(ConversionError::InvalidAuxiliaryHeader(header_error_spec(d)))
    } else if stored_hash(d) != calculated_hash(d) {
        Err(ConversionError::InvalidAuxiliaryChecksum)
    } else {
        match auxiliary_payload_spec(d, target) {
            Err(e) => Err(e),
            Ok(b) => if target is Steam && target_steamid64 is None {
                Err(ConversionError::MissingTargetSteamId)
            } else {
                finish_spec(auxiliary_header_spec(target, target_steamid64.unwrap_or(0)) + b)
            },
        }
    }
}

/// Converts the album file `data` to the wrapper of `target`: the class
/// stream is kept and realigned to the new payload offset, and a Steam
/// wrapper stores the target account identifier.
pub fn convert_auxiliary_bytes(
    data: &[u8],
    target: TargetPlatform,
    target_steamid64: Option<u64>,
) -> (r: Result<Vec<u8>, ConversionError>)
    requires
        data@.len() <= u32::MAX + FILE_HASH_LEN,
    ensures
        res_bytes(r) == convert_auxiliary_spec(data@, target, target_steamid64),
        r matches Ok(v) ==> is_auxiliary_file_for(
            v@,
            target,
            target_steamid64,
            auxiliary_payload_spec(data@, target)->Ok_0,
        ),
        r matches Ok(v) ==> (parse_spec(
            v@.subrange(auxiliary_target_offset(target) as int, v@.len() - FILE_HASH_LEN),
            auxiliary_target_offset(target) as int,
        ) == auxiliary_stream_spec(data@)),
{
    let header = match parse_header(data) {
        Ok(h) => h,
        Err(e) => return Err(ConversionError::InvalidAuxiliaryHeader(e)),
    };
    match checksum_status(data) {
        Ok(ChecksumStatus::Valid) => {},
        Ok(ChecksumStatus::Invalid { .. }) => return Err(ConversionError::InvalidAuxiliaryChecksum),
        Err(e) => return Err(ConversionError::AuxiliaryChecksum(e)),
    }
    let payload = match realign_auxiliary_payload(data, header.raw_flags, target) {
        Ok(p) => p,
        Err(e) => return Err(e),
    };
    let mut output: Vec<u8> = Vec::new();
    let ghost id_used: u64;
    match target {
        TargetPlatform::NintendoSwitch => {
            push_header(&mut output, SaveFlags::empty().bits());
            proof {
                id_used = target_steamid64.unwrap_or(0);
            }
        },
        TargetPlatform::Steam => {
            push_header(&mut output, SaveFlags::has_id().bits());
            let padded = align_up(output.len(), 8);
            resize_zero(&mut output, padded);
            let id = match target_steamid64 {
                Some(id) => id,
                None => return Err(ConversionError::MissingTargetSteamId),
            };
            push_le_u64(&mut output, id & 0xffff_ffff);
            proof {
                id_used = id;
                assert(id & 0xffff_ffff == id % 0x1_0000_0000) by (bit_vector);
            }
        },
    }
    assert(output@ =~= auxiliary_header_spec(target, id_used));
    push_all(&mut output, payload.as_slice());
    let r = finish_file(output);
    proof {
        lemma_convert_auxiliary_shape(data@, target, target_steamid64);
        if r is Ok {
            lemma_convert_auxiliary_rereads(data@, target, target_steamid64);
        }
    }
    r
}

/// Converts one file of a save directory: a core save with
/// `convert_bytes_with_cipher` (following `target_template`), an album file
/// with `convert_auxiliary_bytes`.
pub fn convert_save_file<C: CitrusCipher>(
    kind: SaveFileKind,
    data: &[u8],
    target_template: Option<&[u8]>,
    options: ConversionOptions,
    cipher: &C,
) -> (r: Result<Vec<u8>, ConversionError>)
    requires
        data@.len() <= u32::MAX + FILE_HASH_LEN,
    ensures
        kind is Core ==> res_bytes(r) == convert_spec(
            cipher,
            data@,
            opt_view(target_template),
            options,
        ),
        kind is Auxiliary ==> res_bytes(r) == convert_auxiliary_spec(
            data@,
            options.target,
            options.target_steamid64,
        ),
        kind is Core ==> (r matches Ok(v) ==> is_core_file_for(v@, options.target)),
        kind is Core ==> (r matches Ok(v) ==> (reads_back_under(cipher, options) ==> unpack_spec(
            cipher,
            v@,
            target_platform_spec(options.target),
            options.target_steamid64,
            options.target_curve_index,
        ) == converted_payload_spec(cipher, data@, opt_view(target_template), options))),
        kind is Core ==> (r matches Ok(v) ==> (stays_on_platform(cipher, data@, options)
            ==> unpack_spec(
            cipher,
            v@,
            target_platform_spec(options.target),
            options.target_steamid64,
            options.target_curve_index,
        ) == unpack_spec(
            cipher,
            data@,
            target_platform_spec(options.target),
            options.source_steamid64,
            options.source_curve_index,
        ))),
        kind is Auxiliary ==> (r matches Ok(v) ==> is_auxiliary_file_for(
            v@,
            options.target,
            options.target_steamid64,
            auxiliary_payload_spec(data@, options.target)->Ok_0,
        )),
        r matches Ok(v) ==> checksum_status_spec(v@) == ChecksumStatus::Valid,
{
    match kind {
        SaveFileKind::Core => convert_bytes_with_cipher(data, target_template, options, cipher),
        SaveFileKind::Auxiliary => convert_auxiliary_bytes(
            data,
            options.target,
            options.target_steamid64,
        ),
    }
}

// ---------------------------------------------------------------------------
// Inspecting files
// ---------------------------------------------------------------------------
/// The header and checksum status of the save file `data`.
pub fn inspect_bytes(data: &[u8]) -> (r: Result<(DsssHeader, ChecksumStatus), FormatError>)
    requires
        data@.len() <= u32::MAX + FILE_HASH_LEN,
    ensures
        r is Ok ==> is_dsss_header(data@),
        !is_dsss_header(data@) ==> r is Err,
        r matches Ok((h, s)) ==> h.raw_flags == le_u32_at(data@, 8) && s == checksum_status_spec(
            data@,
        ),
        r matches Ok((h, s)) ==> h.version == DSSS_VERSION && h.flags.spec_bits() == h.raw_flags
            & KNOWN_FLAG_BITS,
        r matches Err(FormatError::TooSmall) <==> data@.len() < DSSS_HEADER_LEN + FILE_HASH_LEN,
        r matches Err(FormatError::InvalidMagic) <==> data@.len() >= DSSS_HEADER_LEN
            + FILE_HASH_LEN && data@.take(4) != dsss_magic(),
        r matches Err(FormatError::UnsupportedVersion(v)) ==> v == le_u32_at(data@, 4),
        is_dsss_header(data@) ==> r is Ok,
{
    let header = match parse_header(data) {
        Ok(h) => h,
        Err(e) => return Err(e),
    };
    let checksum = match checksum_status(data) {
        Ok(s) => s,
        Err(e) => return Err(e),
    };
    Ok((header, checksum))
}

/// Whether the save file `data` has a DSSS header and a matching closing hash.
pub fn verify_bytes(data: &[u8]) -> (r: Result<bool, FormatError>)
    requires
        data@.len() <= u32::MAX + FILE_HASH_LEN,
    ensures
        r is Ok ==> is_dsss_header(data@),
        !is_dsss_header(data@) ==> r is Err,
        r matches Ok(b) ==> b == (stored_hash(data@) == calculated_hash(data@)),
        r matches Err(FormatError::TooSmall) <==> data@.len() < DSSS_HEADER_LEN + FILE_HASH_LEN,
        r matches Err(FormatError::InvalidMagic) <==> data@.len() >= DSSS_HEADER_LEN
            + FILE_HASH_LEN && data@.take(4) != dsss_magic(),
        r matches Err(FormatError::UnsupportedVersion(v)) ==> v == le_u32_at(data@, 4),
        is_dsss_header(data@) ==> r is Ok,
{
    match inspect_bytes(data) {
        Ok((_, status)) => Ok(status.is_valid()),
        Err(e) => Err(e),
    }
}

// ---------------------------------------------------------------------------
// Checks before a conversion
// ---------------------------------------------------------------------------
/// A file of a save directory the converter handles.
#[derive(Debug)]
pub struct SaveFile {
    pub path: std::path::PathBuf,
    pub kind: SaveFileKind,
    pub platform: Platform,
    pub checksum: String,
}

/// How much a preflight issue matters.
#[derive(Debug, Clone, Copy, PartialEq, Eq, Structural)]
pub enum PreflightSeverity {
    Warning,
    Error,
}

/// One thing a preflight check found.
#[derive(Debug)]
pub struct PreflightIssue {
    pub severity: PreflightSeverity,
    pub message: String,
}

/// What a preflight check found about a planned conversion.
#[derive(Debug)]
pub struct PreflightReport {
    pub source_platform: Option<Platform>,
    pub file_count: usize,
    pub core_file_count: usize,
    pub auxiliary_file_count: usize,
    pub target_reference_available: bool,
    pub issues: Vec<PreflightIssue>,
}

/// The severity and words of each issue.
pub open spec fn issues_view(issues: Seq<PreflightIssue>) -> Seq<(PreflightSeverity, Seq<char>)> {
    Seq::new(issues.len(), |i: int| (issues[i].severity, issues[i].message@))
}

/// The words of the issues of severity `severity`, in order.
pub open spec fn messages_of(issues: Seq<PreflightIssue>, severity: PreflightSeverity) -> Seq<
    Seq<char>,
>
    decreases issues.len(),
{
    if issues.len() == 0 {
        Seq::empty()
    } else {
        let rest = messages_of(issues.drop_last(), severity);
        if issues.last().severity == severity {
            rest.push(issues.last().message@)
        } else {
            rest
        }
    }
}

/// The views of `strings`.
pub open spec fn strings_view(strings: Seq<String>) -> Seq<Seq<char>> {
    Seq::new(strings.len(), |i: int| strings[i]@)
}

impl PreflightReport {
    /// The words of the issues of `severity`, in order.
    fn messages(&self, severity: PreflightSeverity) -> (r: Vec<String>)
        ensures
            strings_view(r@) == messages_of(self.issues@, severity),
    {
        let mut out: Vec<String> = Vec::new();
        let mut i: usize = 0;
        while i < self.issues.len()
            invariant
                i <= self.issues@.len(),
                strings_view(out@) == messages_of(self.issues@.take(i as int), severity),
            decreases self.issues@.len() - i,
        {
            let ghost before = out@;
            assert(self.issues@.take(i + 1).drop_last() =~= self.issues@.take(i as int));
            if self.issues[i].severity == severity {
                out.push(self.issues[i].message.clone());
                assert(strings_view(out@) =~= strings_view(before).push(
                    self.issues@[i as int].message@,
                ));
            }
            i = i + 1;
        }
        assert(self.issues@.take(i as int) =~= self.issues@);
        out
    }

    /// The words of the errors, in order.
    pub fn errors(&self) -> (r: Vec<String>)
        ensures
            strings_view(r@) == messages_of(self.issues@, PreflightSeverity::Error),
    {
        self.messages(PreflightSeverity::Error)
    }

    /// The words of the warnings, in order.
    pub fn warnings(&self) -> (r: Vec<String>)
        ensures
            strings_view(r@) == messages_of(self.issues@, PreflightSeverity::Warning),
    {
        self.messages(PreflightSeverity::Warning)
    }

    /// No issue is an error.
    pub fn can_convert(&self) -> (r: bool)
        ensures
            r == forall|i: int|
                0 <= i < self.issues@.len() ==> (#[trigger] self.issues@[i]).severity
                    != PreflightSeverity::Error,
    {
        let mut i: usize = 0;
        while i < self.issues.len()
            invariant
                i <= self.issues@.len(),
                forall|j: int|
                    0 <= j < i ==> (#[trigger] self.issues@[j]).severity != PreflightSeverity::Error,
            decreases self.issues@.len() - i,
        {
            if self.issues[i].severity == PreflightSeverity::Error {
                return false;
            }
            i = i + 1;
        }
        true
    }
}

/// The platform of the first core file of `files` from `i` on.
pub open spec fn first_core_platform(files: Seq<SaveFile>, i: int) -> Option<Platform>
    decreases files.len() - i,
{
    if i < 0 || i >= files.len() {
        None
    } else if files[i].kind == SaveFileKind::Core {
        Some(files[i].platform)
    } else {
        first_core_platform(files, i + 1)
    }
}

/// The number of core files among the first `n` of `files`.
pub open spec fn core_count(files: Seq<SaveFile>, n: int) -> nat
    decreases n,
{
    if n <= 0 {
        0
    } else {
        core_count(files, n - 1) + if files[n - 1].kind == SaveFileKind::Core {
            1nat
        } else {
            0nat
        }
    }
}

/// An issue of `severity` with the words `message`, where `cond` holds.
pub open spec fn issue_if(cond: bool, severity: PreflightSeverity, message: Seq<char>) -> Seq<
    (PreflightSeverity, Seq<char>),
> {
    if cond {
        seq![(severity, message)]
    } else {
        Seq::empty()
    }
}

/// The issues of a planned conversion of `files`, in the order they are checked.
pub open spec fn preflight_issues_spec(
    files: Seq<SaveFile>,
    output_is_input: bool,
    output_is_nonempty_dir: bool,
    request: ConversionRequest,
    target_reference_exists: bool,
) -> Seq<(PreflightSeverity, Seq<char>)> {
    let source = first_core_platform(files, 0);
    let steam_target = request.target == TargetPlatform::Steam;
    issue_if(source is None, PreflightSeverity::Error, "no core save files were found"@)
        + issue_if(
        exists|i: int| 0 <= i < files.len() && (#[trigger] files[i]).checksum@ != "valid"@,
        PreflightSeverity::Error,
        "one or more save files have an invalid outer checksum"@,
    ) + issue_if(
        output_is_input,
        PreflightSeverity::Error,
        "output must be different from the source"@,
    ) + issue_if(
        output_is_nonempty_dir && !request.force,
        PreflightSeverity::Error,
        "output directory is not empty; enable overwrite explicitly"@,
    ) + issue_if(
        source == Some(Platform::Steam) && request.source_steamid64 is None,
        PreflightSeverity::Error,
        "Steam source requires a SteamID64"@,
    ) + issue_if(
        steam_target && request.target_steamid64 is None,
        PreflightSeverity::Error,
        "Steam target requires a SteamID64"@,
    ) + issue_if(
        steam_target && request.target_reference is None && request.target_curve_index is None,
        PreflightSeverity::Error,
        "Steam target requires a target template or Curve Index"@,
    ) + issue_if(
        steam_target && request.target_reference is None,
        PreflightSeverity::Warning,
        "no Steam template selected; built-in Steam defaults will be used"@,
    ) + issue_if(
        request.target == TargetPlatform::NintendoSwitch && source == Some(Platform::Steam)
            && request.target_reference is None,
        PreflightSeverity::Error,
        "Steam-to-Switch conversion requires a Switch target template"@,
    ) + issue_if(
        request.target_reference is Some && !target_reference_exists,
        PreflightSeverity::Error,
        "selected target template does not exist"@,
    ) + issue_if(
        core_count(files, files.len() as int) == 0,
        PreflightSeverity::Error,
        "the input contains no convertible core save"@,
    )
}

/// Appends an issue of `severity` with the words `message` where `cond` holds.
fn push_issue_if(
    issues: &mut Vec<PreflightIssue>,
    cond: bool,
    severity: PreflightSeverity,
    message: &str,
)
    ensures
        issues_view(final(issues)@) == issues_view(old(issues)@) + issue_if(
            cond,
            severity,
            message@,
        ),
{
    let ghost before = issues@;
    if cond {
        issues.push(PreflightIssue { severity, message: message.to_owned() });
        assert(issues_view(issues@) =~= issues_view(before) + issue_if(cond, severity, message@));
    } else {
        assert(issues_view(issues@) =~= issues_view(before) + issue_if(cond, severity, message@));
    }
}

/// The platform of the first core file, the number of core files, and
/// whether any file's checksum is not valid.
fn survey_files(files: &Vec<SaveFile>) -> (r: (Option<Platform>, usize, bool))
    ensures
        r.0 == first_core_platform(files@, 0),
        r.1 == core_count(files@, files@.len() as int),
        r.1 <= files@.len(),
        r.2 == exists|i: int| 0 <= i < files@.len() && (#[trigger] files@[i]).checksum@ != "valid"@,
{
    let mut platform: Option<Platform> = None;
    let mut count: usize = 0;
    let mut invalid = false;
    let mut i: usize = 0;
    while i < files.len()
        invariant
            i <= files@.len(),
            count == core_count(files@, i as int),
            count <= i,
            platform is None ==> first_core_platform(files@, 0) == first_core_platform(
                files@,
                i as int,
            ),
            platform is Some ==> platform == first_core_platform(files@, 0),
            invalid == exists|j: int| 0 <= j < i && (#[trigger] files@[j]).checksum@ != "valid"@,
        decreases files@.len() - i,
    {
        let file = &files[i];
        if file.kind == SaveFileKind::Core {
            if platform.is_none() {
                platform = Some(file.platform);
            }
            count = count + 1;
        }
        let valid = "valid".to_owned();
        if file.checksum != valid {
            invalid = true;
        }
        proof {
            if !(file.checksum@ != "valid"@) && !invalid {
                assert forall|j: int| 0 <= j < i + 1 implies !((#[trigger] files@[j]).checksum@
                    != "valid"@) by {}
            }
        }
        i = i + 1;
    }
    (platform, count, invalid)
}

/// Checks a planned conversion of `files` before anything is written: which
/// platform the source is, how many files of each kind there are, and what
/// stands in the way, in order.
pub fn preflight_report(
    files: &Vec<SaveFile>,
    output_is_input: bool,
    output_is_nonempty_dir: bool,
    request: &ConversionRequest,
    target_reference_exists: bool,
) -> (r: PreflightReport)
    ensures
        r.source_platform == first_core_platform(files@, 0),
        r.file_count == files@.len(),
        r.core_file_count == core_count(files@, files@.len() as int),
        r.auxiliary_file_count == files@.len() - core_count(files@, files@.len() as int),
        r.target_reference_available == (request.target_reference is Some
            && target_reference_exists),
        issues_view(r.issues@) == preflight_issues_spec(
            files@,
            output_is_input,
            output_is_nonempty_dir,
            *request,
            target_reference_exists,
        ),
{
    let (source_platform, core_file_count, any_invalid) = survey_files(files);
    let steam_source = match source_platform {
        Some(Platform::Steam) => true,
        _ => false,
    };
    let steam_target = request.target == TargetPlatform::Steam;
    let mut issues: Vec<PreflightIssue> = Vec::new();
    assert(issues_view(issues@) =~= Seq::<(PreflightSeverity, Seq<char>)>::empty());
    push_issue_if(
        &mut issues,
        source_platform.is_none(),
        PreflightSeverity::Error,
        "no core save files were found",
    );
    push_issue_if(
        &mut issues,
        any_invalid,
        PreflightSeverity::Error,
        "one or more save files have an invalid outer checksum",
    );
    push_issue_if(
        &mut issues,
        output_is_input,
        PreflightSeverity::Error,
        "output must be different from the source",
    );
    push_issue_if(
        &mut issues,
        output_is_nonempty_dir && !request.force,
        PreflightSeverity::Error,
        "output directory is not empty; enable overwrite explicitly",
    );
    push_issue_if(
        &mut issues,
        steam_source && request.source_steamid64.is_none(),
        PreflightSeverity::Error,
        "Steam source requires a SteamID64",
    );
    push_issue_if(
        &mut issues,
        steam_target && request.target_steamid64.is_none(),
        PreflightSeverity::Error,
        "Steam target requires a SteamID64",
    );
    push_issue_if(
        &mut issues,
        steam_target && request.target_reference.is_none() && request.target_curve_index.is_none(),
        PreflightSeverity::Error,
        "Steam target requires a target template or Curve Index",
    );
    push_issue_if(
        &mut issues,
        steam_target && request.target_reference.is_none(),
        PreflightSeverity::Warning,
        "no Steam template selected; built-in Steam defaults will be used",
    );
    push_issue_if(
        &mut issues,
        request.target == TargetPlatform::NintendoSwitch && steam_source
            && request.target_reference.is_none(),
        PreflightSeverity::Error,
        "Steam-to-Switch conversion requires a Switch target template",
    );
    let target_reference_available = request.target_reference.is_some() && target_reference_exists;
    push_issue_if(
        &mut issues,
        request.target_reference.is_some() && !target_reference_available,
        PreflightSeverity::Error,
        "selected target template does not exist",
    );
    push_issue_if(
        &mut issues,
        core_file_count == 0,
        PreflightSeverity::Error,
        "the input contains no convertible core save",
    );
    PreflightReport {
        source_platform,
        file_count: files.len(),
        core_file_count,
        auxiliary_file_count: files.len() - core_file_count,
        target_reference_available,
        issues,
    }
}

} // verus!
