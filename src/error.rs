use vstd::prelude::*;

verus! {

/// Everything that can go wrong while reading or editing a PNG document.
#[derive(Debug, Clone, Copy, PartialEq, Eq, Structural)]
pub enum PngError {
    /// The buffer does not begin with the eight-byte PNG signature.
    BadSignature,
    /// The buffer ends before the framing of a chunk does.
    Truncated,
    /// A chunk's length field disagrees with the bytes it was given.
    LengthMismatch,
    /// A chunk type holds a byte that is not an ASCII letter.
    InvalidTypeCode,
    /// A chunk type string is not exactly four characters long.
    WrongLength,
    /// The stored CRC differs from the one computed over type and data.
    ChecksumMismatch,
    /// No chunk of the requested type is present.
    ChunkNotFound,
    /// A chunk's data is not valid UTF-8.
    InvalidText,
    /// A chunk of that type is already present.
    DuplicateChunk,
}

} // verus!
