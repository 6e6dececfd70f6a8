use vstd::prelude::*;

verus! {

/// Every way in which an operation of this crate can fail.
#[derive(Clone, Copy, Debug, PartialEq, Eq, Structural)]
pub enum PngError {
    /// A chunk type is not made of four ASCII letters.
    ChunkTypeError,
    /// A chunk record is too short, or its length field disagrees with its size.
    ChunkError,
    /// The stored CRC of a chunk differs from the one computed over its type and data.
    CRCError,
    /// The file does not start with the PNG signature.
    ChunkHeaderError,
    /// No chunk of the requested type is present.
    NotFoundChunkType,
    /// A chunk's data is not valid UTF-8 text.
    EncodingError,
    /// Reading or writing a file failed.
    IOError,
}

} // verus!
