//! Failures while reading a revlog or decoding one of its payloads.
use vstd::prelude::*;

verus! {

/// Why reading a revlog, or decoding one of its payloads, failed.
#[derive(Debug, Clone, Copy, PartialEq, Eq, Structural)]
pub enum RevlogError {
    /// Fewer than the four bytes of the version word are present.
    MalformedHeader,
    /// The version word names a layout other than 0 (legacy) or 1 (modern).
    UnsupportedVersion,
    /// Fewer bytes remain than one index record takes.
    TruncatedIndex,
    /// Fewer bytes are present than a payload's stored length.
    ShortRead,
    /// The index records do not end exactly at the end of the file.
    CorruptIndex,
    /// A payload starts with a tag byte other than the three known ones.
    UnknownEncoding,
    /// The date line of a changeset is not two integers.
    MalformedDate,
    /// A zlib payload does not decompress.
    CorruptPayload,
    /// A payload's text is not valid UTF-8.
    InvalidText,
}

} // verus!
