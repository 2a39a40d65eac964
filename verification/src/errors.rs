use vstd::prelude::*;

verus! {

/// Everything that can stop the decoder.
#[derive(Debug, Clone, Copy, PartialEq, Eq)]
#[allow(inconsistent_fields)]
pub enum ScryError {
    /// A read was asked for that is longer than a position can count.
    BufferSizeTooLarge,
    /// A NUL-terminated header string is not UTF-8.
    UTF8Invalid,
    /// The member does not begin with the bytes 0x1F 0x8B.
    NotGZIPHeader,
    /// The compression method of the member is not 8.
    InvalidCompressionMethod,
    /// The CRC-16 stored in the header differs from the one computed.
    InvalidHeaderCRC { expected: u16, found: u16 },
    /// A block announces the reserved type 0b11.
    InvalidBlockType,
    /// NLEN of a stored block is not the complement of LEN.
    InvalidNonCompressedBlockHeader { expected: u16, found: u16 },
    /// The CRC-32 in the member trailer differs from that of the output.
    InvalidGZIPCRC { position: usize, expected: u32, found: u32 },
    /// ISIZE in the member trailer differs from the output length.
    InvalidGZIPIsize { position: usize, expected: u32, found: u32 },
    /// A back-reference reaches outside the window.
    InvalidLengthDistancePair { lookback: u16, size: u16 },
    /// More than sixteen bits were asked for at once.
    InvalidNumberOfBits { num: u8 },
    /// Sixteen bits were read without reaching a code of the table.
    InvalidHuffmanCode { code: u16, position: usize, bit: u8 },
    /// A dynamic block repeats the previous code length before there is one.
    InvalidDynamicBlockCodeLength,
    /// The input ended inside a read.
    EOF,
    /// The input ended exactly where a new member would begin.
    ExpectedEOF,
}

} // verus!
