use vstd::prelude::*;

verus! {

/// Every way in which decoding a PNG byte stream can fail.
#[derive(Debug, Clone, Copy, PartialEq, Eq, Structural)]
pub enum DecodeError {
    /// The stream does not start with the eight-byte PNG signature.
    BadSignature,
    /// The first chunk is not a well-formed IHDR chunk.
    MissingHeader,
    /// The header names a color type outside {0, 2, 3, 4, 6}.
    UnsupportedColorType,
    /// The header names a bit depth that its color type does not allow.
    UnsupportedBitDepth,
    /// A chunk's stored CRC differs from the CRC of its type and data.
    CrcMismatch,
    /// A critical chunk that this decoder does not know, or one out of place.
    UnknownCriticalChunk,
    /// The stream ends before the data that it announces.
    TruncatedStream,
    /// The zlib stream is corrupt (bad Huffman code, block type, distance or checksum).
    InvalidCompressedData,
    /// A scanline starts with a filter type outside 0..=4.
    InvalidFilterType,
    /// An indexed pixel names an entry past the end of the palette.
    PaletteIndexOutOfRange,
    /// The image's byte sizes do not fit in memory.
    OutputSizeOverflow,
    /// A byte read would run past the end of the buffer.
    UnexpectedEof,
}

} // verus!
