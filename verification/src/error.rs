use crate::chunk::FourCC;
use vstd::prelude::*;

verus! {

/// Why an operation on a container file was refused.
#[derive(Debug, Clone, Copy, PartialEq, Eq, Structural)]
pub enum Error {
    /// The signature of a PNG file is missing or wrong.
    InvalidSignature,
    /// The header of a WebP file is wrong in a tag or in its size field, or
    /// the tag of a chunk is no text.
    InvalidData,
    /// The file ends inside a chunk.
    TruncatedData,
    /// The file ends exactly where the next chunk would begin.
    UnexpectedEof,
    /// The CRC stored with a PNG chunk differs from the one computed.
    ChecksumError,
    /// The first chunk is not the one the operation needs; the tag is that
    /// of the chunk found in its place.
    UnexpectedChunkOrder(FourCC),
    /// A chunk list does not describe the bytes it is used with.
    InconsistentState,
    /// The file holds no EXIF metadata.
    NoMetadata,
    /// The file would have to be converted to the extended format first.
    NotImplemented,
    /// The result would not fit the format's 32-bit length fields.
    TooLarge,
}

} // verus!
