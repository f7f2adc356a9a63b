//! The error values that decoding, lookup and text extraction can surface.
//!
//! No recovery is attempted anywhere in the library: every failed check is
//! reported to the caller as one of these variants, carrying the fields
//! needed to diagnose it.

use vstd::prelude::*;

verus! {

/// Everything that can go wrong while decoding or querying a container.
#[derive(Debug, Clone, Copy, PartialEq, Eq, Structural)]
pub enum Error {
    /// Fewer than the 12 bytes a record needs at minimum
    /// (4 length + 4 type + 0 payload + 4 checksum).
    ChunkTooSmall,
    /// A chunk type byte falls outside the ASCII letter ranges.
    InvalidChunkType,
    /// The declared payload length exceeds the bytes actually available.
    InvalidChunkSize { bytes_recv: usize, length_field: u32 },
    /// The stored checksum disagrees with the one recomputed over
    /// type and payload.
    InvalidCRC,
    /// The payload was requested as text but is not valid UTF-8.
    DataNotUTF8,
    /// Fewer than the 8 bytes of the file signature.
    PngTooSmall,
    /// The first 8 bytes are not the fixed file signature.
    InvalidHeader,
    /// No record of the requested chunk type is present.
    NoChunkOfGivenTypeFound,
}

} // verus!
