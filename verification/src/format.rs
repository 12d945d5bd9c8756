//! The DSSS container header and the MurmurHash3 value that closes every save file.
use vstd::prelude::*;

use crate::bytes::{le_u32_at, read_le_u32};
use crate::text::{decimal, decimal_text};

verus! {

/// Bytes of a DSSS header: magic, version and flags.
pub const DSSS_HEADER_LEN: usize = 12;

/// Bytes of the MurmurHash3 value that closes a file.
pub const FILE_HASH_LEN: usize = 4;

/// The seed of the closing MurmurHash3 value.
pub const CHECKSUM_SEED: u32 = 0xffff_ffff;

/// The only DSSS version this format knows.
pub const DSSS_VERSION: u32 = 2;

/// The flag bits a DSSS header can carry.
pub const KNOWN_FLAG_BITS: u32 = 0x1f;

/// The flag bits of a DSSS header; only the known bits are ever set.
#[derive(Debug, Clone, Copy, PartialEq, Eq, Structural)]
pub struct SaveFlags {
    bits: u32,
}

impl SaveFlags {
    /// Only known bits are set.
    pub closed spec fn wf(self) -> bool {
        self.bits & !KNOWN_FLAG_BITS == 0
    }

    /// The bits of these flags.
    pub closed spec fn spec_bits(self) -> u32 {
        self.bits
    }

    /// No flag.
    pub fn empty() -> (r: SaveFlags)
        ensures
            r.spec_bits() == 0,
    {
        SaveFlags { bits: 0 }
    }

    /// Blowfish-encrypted payload.
    pub fn blowfish() -> (r: SaveFlags)
        ensures
            r.spec_bits() == 0x01,
    {
        SaveFlags { bits: 0x01 }
    }

    /// The wrapper stores an account identifier.
    pub fn has_id() -> (r: SaveFlags)
        ensures
            r.spec_bits() == 0x02,
    {
        SaveFlags { bits: 0x02 }
    }

    /// Citrus-encrypted payload (Steam).
    pub fn citrus() -> (r: SaveFlags)
        ensures
            r.spec_bits() == 0x04,
    {
        SaveFlags { bits: 0x04 }
    }

    /// DEFLATE-compressed payload (Nintendo Switch).
    pub fn deflate() -> (r: SaveFlags)
        ensures
            r.spec_bits() == 0x08,
    {
        SaveFlags { bits: 0x08 }
    }

    /// Mandarin-encrypted payload.
    pub fn mandarin() -> (r: SaveFlags)
        ensures
            r.spec_bits() == 0x10,
    {
        SaveFlags { bits: 0x10 }
    }

    /// The flags of `bits`, with the unknown bits dropped.
    pub fn from_bits_truncate(bits: u32) -> (r: SaveFlags)
        ensures
            r.spec_bits() == bits & KNOWN_FLAG_BITS,
            r.wf(),
    {
        let r = SaveFlags { bits: bits & KNOWN_FLAG_BITS };
        assert(bits & 0x1f & !0x1fu32 == 0) by (bit_vector);
        r
    }

    /// The bits of these flags.
    pub fn bits(&self) -> (r: u32)
        ensures
            r == self.spec_bits(),
    {
        self.bits
    }

    /// Every flag of `other` is set here.
    pub fn contains(&self, other: SaveFlags) -> (r: bool)
        ensures
            r == (self.spec_bits() & other.spec_bits() == other.spec_bits()),
    {
        self.bits & other.bits == other.bits
    }
}

/// What kind of save a DSSS container holds, by its flags.
#[derive(Debug, Clone, Copy, PartialEq, Eq, Structural)]
pub enum Platform {
    NintendoSwitch,
    Steam,
    Auxiliary,
    Unknown,
}

impl Platform {
    /// The platform's display name.
    pub fn name(self) -> (r: &'static str)
        ensures
            r@ == platform_name(self),
    {
        match self {
            Platform::NintendoSwitch => "Nintendo Switch",
            Platform::Steam => "Steam",
            Platform::Auxiliary => "Auxiliary",
            Platform::Unknown => "Unknown",
        }
    }
}

/// The display name of `p`.
pub open spec fn platform_name(p: Platform) -> Seq<char> {
    match p {
        Platform::NintendoSwitch => "Nintendo Switch"@,
        Platform::Steam => "Steam"@,
        Platform::Auxiliary => "Auxiliary"@,
        Platform::Unknown => "Unknown"@,
    }
}

/// The platform of a container with flag bits `bits`: DEFLATE alone is the
/// Switch, CITRUS alone is Steam, neither is an auxiliary wrapper, both is unknown.
pub open spec fn platform_of(bits: u32) -> Platform {
    let deflate = bits & 0x08 == 0x08;
    let citrus = bits & 0x04 == 0x04;
    if deflate && !citrus {
        Platform::NintendoSwitch
    } else if !deflate && citrus {
        Platform::Steam
    } else if !deflate && !citrus {
        Platform::Auxiliary
    } else {
        Platform::Unknown
    }
}

/// Whether the closing hash of a file matches its contents.
#[derive(Debug, Clone, Copy, PartialEq, Eq, Structural)]
pub enum ChecksumStatus {
    Valid,
    Invalid { stored: u32, calculated: u32 },
}

impl ChecksumStatus {
    /// The hash matches.
    pub fn is_valid(&self) -> (r: bool)
        ensures
            r == (*self is Valid),
    {
        match self {
            ChecksumStatus::Valid => true,
            ChecksumStatus::Invalid { .. } => false,
        }
    }
}

/// A parsed DSSS header.
#[derive(Debug, Clone, Copy, PartialEq, Eq, Structural)]
pub struct DsssHeader {
    pub version: u32,
    pub flags: SaveFlags,
    pub raw_flags: u32,
}

impl DsssHeader {
    /// The platform the header's flags name.
    pub open spec fn platform_spec(self) -> Platform {
        platform_of(self.flags.spec_bits())
    }

    /// The platform the header's flags name.
    pub fn platform(self) -> (r: Platform)
        ensures
            r == self.platform_spec(),
    {
        let deflate = self.flags.contains(SaveFlags::deflate());
        let citrus = self.flags.contains(SaveFlags::citrus());
        if deflate && !citrus {
            Platform::NintendoSwitch
        } else if !deflate && citrus {
            Platform::Steam
        } else if !deflate && !citrus {
            Platform::Auxiliary
        } else {
            Platform::Unknown
        }
    }
}

/// `std::io::Error`, which the checksum calculation can report.
#[verifier::external_type_specification]
#[verifier::external_body]
pub struct ExIoError(std::io::Error);

/// Why a DSSS container could not be read.
#[derive(Debug)]
pub enum FormatError {
    /// The data is too short for a header and a closing hash.
    TooSmall,
    /// The data does not start with `DSSS`.
    InvalidMagic,
    /// A DSSS version other than 2.
    UnsupportedVersion(u32),
    /// Reading the data for the checksum failed.
    Hash(std::io::Error),
}

/// The sentence of a format error; for a failed hash read, only the words
/// before the underlying error.
pub open spec fn format_error_text(e: FormatError) -> Seq<char> {
    match e {
        FormatError::TooSmall => "file is too small to contain a DSSS header and checksum"@,
        FormatError::InvalidMagic => "invalid DSSS magic"@,
        FormatError::UnsupportedVersion(v) => "unsupported DSSS version "@ + decimal(v as nat),
        FormatError::Hash(_) => "could not calculate MurmurHash3: "@,
    }
}

impl FormatError {
    /// This error as a sentence.
    pub fn message(&self) -> (r: String)
        ensures
            !(*self is Hash) ==> r@ == format_error_text(*self),
    {
        match self {
            FormatError::TooSmall => {
                "file is too small to contain a DSSS header and checksum".to_owned()
            },
            FormatError::InvalidMagic => "invalid DSSS magic".to_owned(),
            FormatError::UnsupportedVersion(version) => {
                let mut text = String::from_str("unsupported DSSS version ");
                text.append(decimal_text(*version as u64).as_str());
                text
            },
            FormatError::Hash(error) => hash_error_text(error),
        }
    }
}

/// The sentence for a failed hash read, formatted by `format!` with the error's display.
#[verifier::external_body]
fn hash_error_text(error: &std::io::Error) -> String {
    format!("could not calculate MurmurHash3: {error}")
}

/// `"DSSS"`, the magic that opens every container.
pub open spec fn dsss_magic() -> Seq<u8> {
    seq![0x44u8, 0x53u8, 0x53u8, 0x53u8]
}

/// `data` opens with a well-formed DSSS header and is long enough to hold a
/// closing hash after it.
pub open spec fn is_dsss_header(data: Seq<u8>) -> bool {
    &&& data.len() >= DSSS_HEADER_LEN + FILE_HASH_LEN
    &&& data.take(4) == dsss_magic()
    &&& le_u32_at(data, 4) == DSSS_VERSION
}

/// The error a header read gives for `data`, which does not open with a
/// well-formed DSSS header: too short, a wrong magic, or another version.
pub open spec fn header_error_spec(data: Seq<u8>) -> FormatError {
    if data.len() < DSSS_HEADER_LEN + FILE_HASH_LEN {
        FormatError::TooSmall
    } else if data.take(4) != dsss_magic() {
        FormatError::InvalidMagic
    } else {
        FormatError::UnsupportedVersion(le_u32_at(data, 4))
    }
}

/// Reads the DSSS header at the start of `data`.
pub fn parse_header(data: &[u8]) -> (r: Result<DsssHeader, FormatError>)
    ensures
        r is Ok <==> is_dsss_header(data@),
        r matches Ok(h) ==> h.version == DSSS_VERSION && h.raw_flags == le_u32_at(data@, 8)
            && h.flags.spec_bits() == h.raw_flags & KNOWN_FLAG_BITS && h.flags.wf(),
        r matches Err(FormatError::TooSmall) <==> data@.len() < DSSS_HEADER_LEN + FILE_HASH_LEN,
        r matches Err(FormatError::InvalidMagic) <==> data@.len() >= DSSS_HEADER_LEN
            + FILE_HASH_LEN && data@.take(4) != dsss_magic(),
        r matches Err(FormatError::UnsupportedVersion(v)) ==> v == le_u32_at(data@, 4),
        r is Err ==> !(r matches Err(FormatError::Hash(_))),
        r matches Err(e) ==> e == header_error_spec(data@),
{
    if data.len() < DSSS_HEADER_LEN + FILE_HASH_LEN {
        return Err(FormatError::TooSmall);
    }
    if !(data[0] == 0x44 && data[1] == 0x53 && data[2] == 0x53 && data[3] == 0x53) {
        proof {
            assert(data@.take(4) != dsss_magic()) by {
                if data@.take(4) == dsss_magic() {
                    assert(data@.take(4)[0] == data@[0]);
                    assert(data@.take(4)[1] == data@[1]);
                    assert(data@.take(4)[2] == data@[2]);
                    assert(data@.take(4)[3] == data@[3]);
                }
            }
        }
        return Err(FormatError::InvalidMagic);
    }
    assert(data@.take(4) =~= dsss_magic());
    let version = read_le_u32(data, 4);
    if version != DSSS_VERSION {
        return Err(FormatError::UnsupportedVersion(version));
    }
    let raw_flags = read_le_u32(data, 8);
    Ok(DsssHeader { version, flags: SaveFlags::from_bits_truncate(raw_flags), raw_flags })
}

/// The MurmurHash3 (32-bit) value of `data` under `seed`.
pub uninterp spec fn murmur3_32_of(data: Seq<u8>, seed: u32) -> u32;

/// Calls `murmur3::murmur3_32` on the bytes of `data` through a `Cursor`.
/// Claimed: it returns `Ok` with the MurmurHash3 of exactly those bytes under
/// `seed`, a function of the bytes and the seed alone. It only fails where its
/// reader fails, and reading from a `Cursor` over a slice copies bytes out of
/// memory, which does not fail. Its byte counter is a `u32`, so the data is at
/// most `u32::MAX` bytes long.
#[verifier::external_body]
pub(crate) fn murmur3_32_bytes(data: &[u8], seed: u32) -> (r: Result<u32, std::io::Error>)
    requires
        data@.len() <= u32::MAX,
    ensures
        r is Ok,
        r matches Ok(h) ==> h == murmur3_32_of(data@, seed),
{
    murmur3::murmur3_32(&mut std::io::Cursor::new(data), seed)
}

/// The closing hash a file holds: its last four bytes.
pub open spec fn stored_hash(data: Seq<u8>) -> u32 {
    le_u32_at(data, data.len() - FILE_HASH_LEN)
}

/// The closing hash a file should hold: the hash of everything before it.
pub open spec fn calculated_hash(data: Seq<u8>) -> u32 {
    murmur3_32_of(data.take(data.len() - FILE_HASH_LEN), CHECKSUM_SEED)
}

/// The checksum status of a file that the hash read succeeds on.
pub open spec fn checksum_status_spec(data: Seq<u8>) -> ChecksumStatus {
    if stored_hash(data) == calculated_hash(data) {
        ChecksumStatus::Valid
    } else {
        ChecksumStatus::Invalid { stored: stored_hash(data), calculated: calculated_hash(data) }
    }
}

/// Compares the closing hash of `data` with the hash of the bytes before it.
pub fn checksum_status(data: &[u8]) -> (r: Result<ChecksumStatus, FormatError>)
    requires
        data@.len() <= u32::MAX + FILE_HASH_LEN,
    ensures
        r matches Err(FormatError::TooSmall) <==> data@.len() < DSSS_HEADER_LEN + FILE_HASH_LEN,
        r matches Ok(s) ==> s == checksum_status_spec(data@),
        r is Err ==> r matches Err(FormatError::TooSmall),
        data@.len() >= DSSS_HEADER_LEN + FILE_HASH_LEN ==> r == Ok::<ChecksumStatus, FormatError>(
            checksum_status_spec(data@),
        ),
{
    if data.len() < DSSS_HEADER_LEN + FILE_HASH_LEN {
        return Err(FormatError::TooSmall);
    }
    let end = data.len() - FILE_HASH_LEN;
    let stored = read_le_u32(data, end);
    let body = slice_prefix(data, end);
    match murmur3_32_bytes(body, CHECKSUM_SEED) {
        Ok(calculated) => {
            if stored == calculated {
                Ok(ChecksumStatus::Valid)
            } else {
                Ok(ChecksumStatus::Invalid { stored, calculated })
            }
        },
        Err(e) => Err(FormatError::Hash(e)),
    }
}

/// The first `end` bytes of `data`.
pub fn slice_prefix(data: &[u8], end: usize) -> (r: &[u8])
    requires
        end <= data@.len(),
    ensures
        r@ == data@.take(end as int),
{
    slice_range(data, 0, end)
}

/// The bytes of `data` from `start` up to `end`.
pub fn slice_range(data: &[u8], start: usize, end: usize) -> (r: &[u8])
    requires
        start <= end <= data@.len(),
    ensures
        r@ == data@.subrange(start as int, end as int),
{
    vstd::slice::slice_subrange(data, start, end)
}

} // verus!
