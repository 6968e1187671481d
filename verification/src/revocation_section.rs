//! The `.sbatlevel` section of a shim executable.
//!
//! The section starts with three little-endian 32-bit fields: a version
//! (always zero), the offset of the previous revocation data and the
//! offset of the latest revocation data. Both offsets count from the
//! end of the version field, four bytes into the section, and point to
//! null-terminated CSV that `RevocationSbat::parse` accepts.

use crate::lines::{find_byte, index_of, lemma_index_of, lemma_index_of_is};
use crate::text::{append_decimal, decimal_text};
use vstd::prelude::*;
use vstd::string::StringExecFns;
use vstd::slice::slice_subrange;

verus! {

/// Name of the revocation section embedded in shim executables.
pub const REVOCATION_SECTION_NAME: &'static str = ".sbatlevel";

/// Size in bytes of the version field.
pub const VERSION_SIZE: usize = 4;

/// Size in bytes of the two offsets that follow the version field.
pub const PAYLOAD_HEADER_SIZE: usize = 8;

/// Error returned by `RevocationSection::parse`.
#[derive(Clone, Copy, Debug, PartialEq, Eq, Structural)]
pub enum RevocationSectionError {
    /// The section is not big enough to contain the version field.
    MissingVersion,
    /// The section's version is not 0.
    InvalidVersion(u32),
    /// The section is not big enough to contain the payload header.
    MissingHeader,
    /// The offset of the previous revocation data is invalid.
    InvalidPreviousOffset(u32),
    /// The offset of the latest revocation data is invalid.
    InvalidLatestOffset(u32),
    /// The previous revocation data is not null-terminated.
    MissingPreviousNull,
    /// The latest revocation data is not null-terminated.
    MissingLatestNull,
}

/// The message that describes `e`.
pub open spec fn section_error_text(e: RevocationSectionError) -> Seq<char> {
    match e {
        RevocationSectionError::MissingVersion => "missing version field"@,
        RevocationSectionError::InvalidVersion(version) => "invalid version: "@ + decimal_text(
            version as nat,
        ),
        RevocationSectionError::MissingHeader => "missing payload header"@,
        RevocationSectionError::InvalidPreviousOffset(offset) => "invalid previous offset: "@
            + decimal_text(offset as nat),
        RevocationSectionError::InvalidLatestOffset(offset) => "invalid latest offset: "@
            + decimal_text(offset as nat),
        RevocationSectionError::MissingPreviousNull => "missing null terminator for previous data"@,
        RevocationSectionError::MissingLatestNull => "missing null terminator for latest data"@,
    }
}

impl RevocationSectionError {
    /// A message that describes the error. Numbers are shown in base
    /// 10.
    pub fn message(&self) -> (text: String)
        ensures
            text@ == section_error_text(*self),
    {
        match self {
            RevocationSectionError::MissingVersion => String::from_str("missing version field"),
            RevocationSectionError::InvalidVersion(version) => {
                let mut text = String::from_str("invalid version: ");
                append_decimal(&mut text, *version);
                text
            },
            RevocationSectionError::MissingHeader => String::from_str("missing payload header"),
            RevocationSectionError::InvalidPreviousOffset(offset) => {
                let mut text = String::from_str("invalid previous offset: ");
                append_decimal(&mut text, *offset);
                text
            },
            RevocationSectionError::InvalidLatestOffset(offset) => {
                let mut text = String::from_str("invalid latest offset: ");
                append_decimal(&mut text, *offset);
                text
            },
            RevocationSectionError::MissingPreviousNull => String::from_str(
                "missing null terminator for previous data",
            ),
            RevocationSectionError::MissingLatestNull => String::from_str(
                "missing null terminator for latest data",
            ),
        }
    }
}

/// The little-endian 32-bit number in the four bytes of `s` that start
/// at `at`.
pub open spec fn le_u32(s: Seq<u8>, at: int) -> int {
    s[at] + 0x100 * s[at + 1] + 0x1_0000 * s[at + 2] + 0x100_0000 * s[at + 3]
}

/// The bytes of `s` from `start` up to, and without, the next null
/// byte, if there is one.
pub open spec fn null_terminated_at(s: Seq<u8>, start: int) -> Option<Seq<u8>> {
    let tail = s.skip(start);
    let len = index_of(tail, 0);
    if len < tail.len() {
        Some(tail.take(len))
    } else {
        None
    }
}

/// What a section decodes to: the previous and the latest revocation
/// data, in this order, or the first of the checks that fails.
pub open spec fn section_payloads(data: Seq<u8>) -> Result<
    (Seq<u8>, Seq<u8>),
    RevocationSectionError,
> {
    if data.len() < VERSION_SIZE {
        Err(RevocationSectionError::MissingVersion)
    } else if le_u32(data, 0) != 0 {
        Err(RevocationSectionError::InvalidVersion(le_u32(data, 0) as u32))
    } else {
        let rest = data.skip(VERSION_SIZE as int);
        if rest.len() < PAYLOAD_HEADER_SIZE {
            Err(RevocationSectionError::MissingHeader)
        } else {
            let previous_offset = le_u32(rest, 0);
            let latest_offset = le_u32(rest, 4);
            if previous_offset >= rest.len() {
                Err(RevocationSectionError::InvalidPreviousOffset(previous_offset as u32))
            } else if latest_offset >= rest.len() {
                Err(RevocationSectionError::InvalidLatestOffset(latest_offset as u32))
            } else {
                match null_terminated_at(rest, previous_offset) {
                    None => Err(RevocationSectionError::MissingPreviousNull),
                    Some(previous) => match null_terminated_at(rest, latest_offset) {
                        None => Err(RevocationSectionError::MissingLatestNull),
                        Some(latest) => Ok((previous, latest)),
                    },
                }
            }
        }
    }
}

/// A null-terminated run of bytes is the same whatever follows the
/// data it was found in.
pub proof fn lemma_null_terminated_prefix(s: Seq<u8>, extra: Seq<u8>, start: int)
    requires
        0 <= start <= s.len(),
        null_terminated_at(s, start) is Some,
    ensures
        null_terminated_at(s + extra, start) == null_terminated_at(s, start),
{
    let tail = s.skip(start);
    let longer = (s + extra).skip(start);
    let len = index_of(tail, 0);
    lemma_index_of(tail, 0);
    assert(longer =~= tail + extra);
    assert forall|j: int| 0 <= j < len implies longer[j] != 0 by {
        assert(longer[j] == tail[j]);
    }
    assert(longer[len] == tail[len]);
    lemma_index_of_is(longer, 0, len);
    assert(longer.take(len) =~= tail.take(len));
}

/// Bytes after the two payloads are ignored: a section that decodes
/// decodes to the same payloads when more bytes follow it.
pub proof fn lemma_trailing_bytes_ignored(data: Seq<u8>, extra: Seq<u8>)
    requires
        section_payloads(data) is Ok,
    ensures
        section_payloads(data + extra) == section_payloads(data),
{
    let longer = data + extra;
    let rest = data.skip(VERSION_SIZE as int);
    let longer_rest = longer.skip(VERSION_SIZE as int);
    assert(longer_rest =~= rest + extra);
    assert(le_u32(longer, 0) == le_u32(data, 0));
    assert(le_u32(longer_rest, 0) == le_u32(rest, 0));
    assert(le_u32(longer_rest, 4) == le_u32(rest, 4));
    lemma_null_terminated_prefix(rest, extra, le_u32(rest, 0));
    lemma_null_terminated_prefix(rest, extra, le_u32(rest, 4));
}

/// Reads the little-endian 32-bit number at `at`.
pub fn read_le_u32(data: &[u8], at: usize) -> (v: u32)
    requires
        at + 4 <= data@.len(),
    ensures
        v == le_u32(data@, at as int),
{
    let b0 = data[at] as u32;
    let b1 = data[at + 1] as u32;
    let b2 = data[at + 2] as u32;
    let b3 = data[at + 3] as u32;
    b0 + b1 * 0x100 + b2 * 0x1_0000 + b3 * 0x100_0000
}

/// The bytes of `data` from `start` up to the next null byte, if there
/// is one.
pub fn read_null_terminated<'a>(data: &'a [u8], start: usize) -> (r: Option<&'a [u8]>)
    requires
        start <= data@.len(),
    ensures
        match r {
            Some(bytes) => null_terminated_at(data@, start as int) == Some(bytes@),
            None => null_terminated_at(data@, start as int) is None,
        },
{
    let tail = slice_subrange(data, start, data.len());
    assert(tail@ =~= data@.skip(start as int));
    let len = find_byte(tail, 0);
    if len < tail.len() {
        let bytes = slice_subrange(tail, 0, len);
        assert(bytes@ =~= tail@.take(len as int));
        Some(bytes)
    } else {
        None
    }
}

/// Revocation data embedded in the `.sbatlevel` section of a shim
/// executable.
#[derive(Clone, Copy, Debug, PartialEq, Eq)]
pub struct RevocationSection<'a> {
    previous: &'a [u8],
    latest: &'a [u8],
}

impl<'a> RevocationSection<'a> {
    /// The previous revocation data, without its null terminator.
    pub closed spec fn previous_view(&self) -> Seq<u8> {
        self.previous@
    }

    /// The latest revocation data, without its null terminator.
    pub closed spec fn latest_view(&self) -> Seq<u8> {
        self.latest@
    }

    /// Parse `RevocationSection` from raw data.
    ///
    /// Typically this data is read from the `.sbatlevel` section of a
    /// shim executable. Bytes after the two payloads are ignored.
    pub fn parse(data: &'a [u8]) -> (r: Result<RevocationSection<'a>, RevocationSectionError>)
        ensures
            match r {
                Ok(section) => section_payloads(data@) == Ok::<
                    (Seq<u8>, Seq<u8>),
                    RevocationSectionError,
                >((section.previous_view(), section.latest_view())),
                Err(e) => section_payloads(data@) == Err::<
                    (Seq<u8>, Seq<u8>),
                    RevocationSectionError,
                >(e),
            },
    {
        if data.len() < VERSION_SIZE {
            return Err(RevocationSectionError::MissingVersion);
        }
        let version = read_le_u32(data, 0);
        if version != 0 {
            return Err(RevocationSectionError::InvalidVersion(version));
        }
        let rest = slice_subrange(data, VERSION_SIZE, data.len());
        assert(rest@ =~= data@.skip(VERSION_SIZE as int));
        if rest.len() < PAYLOAD_HEADER_SIZE {
            return Err(RevocationSectionError::MissingHeader);
        }
        let previous_offset = read_le_u32(rest, 0);
        let latest_offset = read_le_u32(rest, 4);
        if previous_offset as usize >= rest.len() {
            return Err(RevocationSectionError::InvalidPreviousOffset(previous_offset));
        }
        if latest_offset as usize >= rest.len() {
            return Err(RevocationSectionError::InvalidLatestOffset(latest_offset));
        }
        let previous = match read_null_terminated(rest, previous_offset as usize) {
            Some(previous) => previous,
            None => {
                return Err(RevocationSectionError::MissingPreviousNull);
            },
        };
        let latest = match read_null_terminated(rest, latest_offset as usize) {
            Some(latest) => latest,
            None => {
                return Err(RevocationSectionError::MissingLatestNull);
            },
        };
        Ok(RevocationSection { previous, latest })
    }

    /// Get the raw previous revocation data.
    ///
    /// This data can be parsed with `RevocationSbat::parse`.
    pub fn previous(&self) -> (bytes: &'a [u8])
        ensures
            bytes@ == self.previous_view(),
    {
        self.previous
    }

    /// Get the raw latest revocation data.
    ///
    /// This data can be parsed with `RevocationSbat::parse`.
    pub fn latest(&self) -> (bytes: &'a [u8])
        ensures
            bytes@ == self.latest_view(),
    {
        self.latest
    }
}

} // verus!
