use vstd::prelude::*;

verus! {

/// Every way in which decoding, lookup or text rendering can fail.
#[derive(Debug, Clone, Copy, PartialEq, Eq, Structural)]
pub enum PngError {
    /// A type code holds a byte outside `A`-`Z` / `a`-`z`, or is not four bytes long.
    InvalidTypeCode,
    /// A buffer ends before the chunk it should hold is complete.
    TooShort,
    /// Inside a container, a chunk header claims more data than is left.
    TruncatedChunk,
    /// The stored checksum differs from the one recomputed over type and data.
    CrcMismatch,
    /// The buffer does not start with the PNG signature.
    BadSignature,
    /// No chunk of the requested type is present.
    NotFound,
    /// Text was requested of a chunk without data.
    EmptyPayload,
    /// Text was requested of data that is not UTF-8.
    InvalidEncoding,
}

} // verus!
