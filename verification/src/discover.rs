//! Which files of a save directory the converter handles, and what it reports of a core file.
use vstd::prelude::*;

use crate::bytes::le_u32_at;
use crate::format::{
    calculated_hash, checksum_status, checksum_status_spec, dsss_magic, is_dsss_header, parse_header, platform_of, stored_hash,
    ChecksumStatus, FormatError, Platform, DSSS_HEADER_LEN, FILE_HASH_LEN, KNOWN_FLAG_BITS,
};

use crate::text::{hex8_text, hex_digits};

verus! {

/// `std::path::PathBuf`, the path of a file in a save directory.
#[verifier::external_type_specification]
#[verifier::external_body]
pub struct ExPathBuf(std::path::PathBuf);

/// The bytes of `"data00-1.bin"`, the system save.
pub open spec fn system_save_name() -> Seq<u8> {
    seq![
        0x64u8, 0x61u8, 0x74u8, 0x61u8, 0x30u8, 0x30u8, 0x2du8, 0x31u8, 0x2eu8, 0x62u8, 0x69u8,
        0x6eu8,
    ]
}

/// The bytes of `"data"`.
pub open spec fn data_prefix() -> Seq<u8> {
    seq![0x64u8, 0x61u8, 0x74u8, 0x61u8]
}

/// The bytes of `"Slot.bin"`.
pub open spec fn slot_suffix() -> Seq<u8> {
    seq![0x53u8, 0x6cu8, 0x6fu8, 0x74u8, 0x2eu8, 0x62u8, 0x69u8, 0x6eu8]
}

/// An ASCII digit.
pub open spec fn is_digit(b: u8) -> bool {
    0x30 <= b <= 0x39
}

/// The file name `name` (as bytes) is a core save: `data00-1.bin`, or `data`,
/// three ASCII digits and `Slot.bin`.
pub open spec fn is_core_name(name: Seq<u8>) -> bool {
    ||| name == system_save_name()
    ||| {
        &&& name.len() == 15
        &&& name.take(4) == data_prefix()
        &&& name.skip(7) == slot_suffix()
        &&& is_digit(name[4]) && is_digit(name[5]) && is_digit(name[6])
    }
}

/// `bytes[at..]` starts with `expected`.
fn bytes_at(bytes: &[u8], at: usize, expected: &[u8]) -> (r: bool)
    requires
        at + expected@.len() <= bytes@.len(),
    ensures
        r == (bytes@.subrange(at as int, at + expected@.len()) == expected@),
{
    let n = bytes.len();
    let mut i: usize = 0;
    while i < expected.len()
        invariant
            i <= expected@.len(),
            at + expected@.len() <= bytes@.len(),
            n == bytes@.len(),
            forall|j: int| 0 <= j < i ==> bytes@[at + j] == expected@[j],
        decreases expected@.len() - i,
    {
        if bytes[at + i] != expected[i] {
            proof {
                let s = bytes@.subrange(at as int, at + expected@.len());
                assert(s[i as int] != expected@[i as int]);
            }
            return false;
        }
        i = i + 1;
    }
    assert(bytes@.subrange(at as int, at + expected@.len()) =~= expected@);
    true
}

/// Whether `name` is the file name of a core save: `data00-1.bin` or
/// `data###Slot.bin` with a three-digit slot number.
pub fn is_core_filename(name: &str) -> (r: bool)
    ensures
        r == is_core_name(vstd::string::StringSliceAdditionalSpecFns::spec_bytes(name)),
{
    let bytes = name.as_bytes();
    let system: [u8; 12] = [0x64, 0x61, 0x74, 0x61, 0x30, 0x30, 0x2d, 0x31, 0x2e, 0x62, 0x69, 0x6e];
    let prefix: [u8; 4] = [0x64, 0x61, 0x74, 0x61];
    let suffix: [u8; 8] = [0x53, 0x6c, 0x6f, 0x74, 0x2e, 0x62, 0x69, 0x6e];
    proof {
        assert(system@ =~= system_save_name());
        assert(prefix@ =~= data_prefix());
        assert(suffix@ =~= slot_suffix());
    }
    if bytes.len() == 12 {
        let r = bytes_at(bytes, 0, system.as_slice());
        assert(bytes@.subrange(0, 12) =~= bytes@);
        return r;
    }
    if bytes.len() != 15 {
        return false;
    }
    assert(bytes@.subrange(0, 4) =~= bytes@.take(4));
    assert(bytes@.subrange(7, 15) =~= bytes@.skip(7));
    bytes_at(bytes, 0, prefix.as_slice()) && bytes_at(bytes, 7, suffix.as_slice()) && is_ascii_digit(
        bytes[4],
    ) && is_ascii_digit(bytes[5]) && is_ascii_digit(bytes[6])
}

/// Whether `b` is an ASCII digit.
fn is_ascii_digit(b: u8) -> (r: bool)
    ensures
        r == is_digit(b),
{
    0x30 <= b && b <= 0x39
}

/// The two kinds of file the converter handles.
#[derive(Debug, Clone, Copy, PartialEq, Eq, Structural)]
pub enum SaveFileKind {
    /// `data00-1.bin` and `data###Slot.bin`: the payload is converted.
    Core,
    /// `SS1_*`, `SS4_*` and `SS7_*` album files: the wrapper is converted.
    Auxiliary,
}

/// The file name `name` (as bytes) is an album file: `SS1_`, `SS4_` or `SS7_` and more.
pub open spec fn is_auxiliary_name(name: Seq<u8>) -> bool {
    &&& name.len() >= 4
    &&& name[0] == 0x53u8 && name[1] == 0x53u8
    &&& name[2] == 0x31u8 || name[2] == 0x34u8 || name[2] == 0x37u8
    &&& name[3] == 0x5fu8
}

/// The kind of file `name` names, if the converter handles it.
pub open spec fn file_kind_of(name: Seq<u8>) -> Option<SaveFileKind> {
    if is_core_name(name) {
        Some(SaveFileKind::Core)
    } else if is_auxiliary_name(name) {
        Some(SaveFileKind::Auxiliary)
    } else {
        None
    }
}

/// The kind of save file `name` names: core, album, or neither.
pub fn save_file_kind(name: &str) -> (r: Option<SaveFileKind>)
    ensures
        r == file_kind_of(vstd::string::StringSliceAdditionalSpecFns::spec_bytes(name)),
{
    if is_core_filename(name) {
        return Some(SaveFileKind::Core);
    }
    let bytes = name.as_bytes();
    if bytes.len() >= 4 && bytes[0] == 0x53 && bytes[1] == 0x53 && (bytes[2] == 0x31 || bytes[2]
        == 0x34 || bytes[2] == 0x37) && bytes[3] == 0x5f {
        Some(SaveFileKind::Auxiliary)
    } else {
        None
    }
}

/// A core save file: where it is, its platform and its checksum status as text.
#[derive(Debug)]
pub struct CoreFile {
    pub path: std::path::PathBuf,
    pub platform: Platform,
    pub checksum: String,
}

/// The words for a checksum status: `valid`, or the stored and calculated
/// hashes as eight lower-case hexadecimal digits each.
pub open spec fn checksum_text_spec(status: ChecksumStatus) -> Seq<char> {
    match status {
        ChecksumStatus::Valid => "valid"@,
        ChecksumStatus::Invalid { stored, calculated } => "invalid (stored="@ + hex_digits(
            stored as nat,
            8,
        ) + ", calculated="@ + hex_digits(calculated as nat, 8) + ")"@,
    }
}

/// The words for a checksum status: `valid`, or the stored and calculated
/// hashes in hexadecimal.
pub fn checksum_text(status: ChecksumStatus) -> (r: String)
    ensures
        r@ == checksum_text_spec(status),
        r@ == "valid"@ <==> status is Valid,
{
    match status {
        ChecksumStatus::Valid => "valid".to_owned(),
        ChecksumStatus::Invalid { stored, calculated } => {
            let mut text = String::from_str("invalid (stored=");
            text.append(hex8_text(stored).as_str());
            text.append(", calculated=");
            text.append(hex8_text(calculated).as_str());
            text.append(")");
            proof {
                reveal_strlit("valid");
                reveal_strlit("invalid (stored=");
                assert(text@.len() > "valid"@.len());
            }
            text
        },
    }
}

/// Describes the core save file at `path` whose contents are `data`: its
/// platform from the header and the words for its checksum status.
pub fn describe_core_file(path: std::path::PathBuf, data: &[u8]) -> (r: Result<CoreFile, FormatError>)
    requires
        data@.len() <= u32::MAX + 4,
    ensures
        !is_dsss_header(data@) ==> r is Err,
        r matches Ok(f) ==> is_dsss_header(data@) && f.path == path && f.platform == platform_of(
            le_u32_at(data@, 8) & KNOWN_FLAG_BITS,
        ) && (f.checksum@ == "valid"@ <==> stored_hash(data@) == calculated_hash(data@))
            && f.checksum@ == checksum_text_spec(checksum_status_spec(data@)),
        r matches Err(FormatError::TooSmall) <==> data@.len() < DSSS_HEADER_LEN + FILE_HASH_LEN,
        r matches Err(FormatError::InvalidMagic) <==> data@.len() >= DSSS_HEADER_LEN
            + FILE_HASH_LEN && data@.take(4) != dsss_magic(),
        r matches Err(FormatError::UnsupportedVersion(v)) ==> v == le_u32_at(data@, 4),
        is_dsss_header(data@) ==> r is Ok,
{
    let header = match parse_header(data) {
        Ok(h) => h,
        Err(e) => return Err(e),
    };
    let status = match checksum_status(data) {
        Ok(s) => s,
        Err(e) => return Err(e),
    };
    Ok(CoreFile { path, platform: header.platform(), checksum: checksum_text(status) })
}

} // verus!
