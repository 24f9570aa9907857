use vstd::prelude::*;

verus! {

/// Every way in which building, decoding or querying chunks can fail.
#[derive(Debug, Clone, Copy, PartialEq, Eq, Structural)]
pub enum PngError {
    /// A chunk-type byte lies outside `A-Z` and `a-z`.
    InvalidChunkTypeBytes,
    /// A chunk-type string is not four ASCII letters.
    InvalidChunkTypeString,
    /// The input ended before a field was complete.
    TruncatedInput,
    /// The stored checksum differs from the one computed over type and data.
    CrcMismatch,
    /// The first eight bytes are not the PNG signature.
    InvalidSignature,
    /// Chunk data asked for as text is not valid UTF-8.
    NotUtf8,
    /// No chunk of the requested type exists.
    ChunkNotFound,
}

} // verus!
