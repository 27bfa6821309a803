use vstd::prelude::*;

verus! {

/// Every way in which an operation of the codec can fail.
#[derive(Debug, Clone, Copy, PartialEq, Eq, Structural)]
pub enum PngError {
    /// A chunk type given as text is not four ASCII letters.
    InvalidTypeString,
    /// The length field of a chunk promises more payload than the input holds.
    TruncatedInput,
    /// The input ends before the checksum field of a chunk.
    MissingChecksum,
    /// The stored checksum of a chunk differs from the one computed.
    ChecksumMismatch,
    /// The input does not start with the PNG signature.
    BadSignature,
    /// A payload read as text is not valid UTF-8.
    InvalidUtf8,
    /// No chunk has the requested type.
    NotFound,
}

} // verus!
