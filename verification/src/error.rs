//! The closed set of failures the container model can report.
use vstd::prelude::*;

verus! {

/// Everything that can go wrong while parsing, searching or re-encoding a
/// PNG chunk stream. Each variant is detected at the point of violation and
/// returned to the caller; nothing is retried or silently recovered.
#[derive(Debug, Clone, Copy, PartialEq, Eq, Structural)]
pub enum PngError {
    /// The first 8 bytes of the file are not the PNG signature.
    InvalidSignature,
    /// A chunk type byte lies outside the ASCII letter ranges.
    InvalidChunkType,
    /// The checksum recomputed over type and payload differs from the stored one.
    InvalidCrc,
    /// The declared payload length exceeds the bytes that remain in the buffer.
    TruncatedInput,
    /// No chunk of the requested type exists in the container.
    ChunkNotFound,
    /// A payload was requested as text but is not valid UTF-8.
    Utf8DecodeError,
}

} // verus!
