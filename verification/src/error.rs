use vstd::prelude::*;

verus! {

/// Everything that can be wrong with a stream, a frame or a header.
#[derive(Debug, Clone, Copy, PartialEq, Eq)]
#[non_exhaustive]
#[allow(inconsistent_fields)]
pub enum Error {
    /// The input ends before the structure that it should hold.
    UnexpectedEof,
    /// None of the four sync sequences stands at the start of the input.
    NoSync,
    /// A 14-bit container frame was handed to a raw 16-bit entry point.
    UnsupportedFourteenBit,
    /// A raw 16-bit frame was handed to a 14-bit container walker.
    UnsupportedRaw16Bit,
    /// The block count code is below 5 or does not fit in seven bits.
    BlockCountOutOfRange {
        /// The offending block count code.
        blocks: u8,
    },
    /// The frame size is below 95 bytes or above 16384 bytes.
    FrameSizeOutOfRange {
        /// The offending frame size in bytes.
        frame_size: u16,
    },
    /// A header field does not fit in the bits that it is written with.
    FieldOutOfRange {
        /// The name of the field.
        field: &'static str,
        /// The offending value.
        value: u32,
        /// The largest value that the field can carry.
        max: u32,
    },
    /// A field of the audio coding header holds a reserved value.
    InvalidSideInfo {
        /// The name of the field.
        field: &'static str,
        /// The offending value.
        value: u32,
    },
    /// The check word after a subsubframe is not `0xffff`.
    DsyncMismatch {
        /// The word that was found.
        found: u16,
        /// The subsubframe that the word follows.
        n_subsubframe: u8,
    },
    /// The word at the given offset is not the second-revision auxiliary sync.
    Rev2AuxSyncMismatch {
        /// The word that was found.
        found: u32,
    },
    /// The declared size of an auxiliary chunk cannot hold its fields.
    Rev2AuxSizeOutOfRange {
        /// The declared size in bytes.
        size: u8,
    },
    /// The embedded downmix scale index is outside 40..=240.
    Rev2AuxEsScaleIndexOutOfRange {
        /// The offending index.
        index: u8,
    },
    /// The frame is not a whole number of subsubframes long.
    Rev2AuxDrcCountUnresolved {
        /// The number of blocks in the frame.
        blocks: u8,
    },
}

} // verus!
