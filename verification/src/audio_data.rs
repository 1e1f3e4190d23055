//! How the audio data of a subband is quantized and coded.

use vstd::prelude::*;

verus! {

/// The number of bit allocation indices that have a code book selector.
pub const ABITS_TABLE_LEN: usize = 12;

/// The largest bit allocation index that has a code book selector.
pub const ABITS_MAX_SEL: u8 = 11;

/// The largest bit allocation index whose last selector is a block code.
pub const ABITS_MAX_BLOCK_CODE: u8 = 7;

/// The number of quantization levels of each bit allocation index.
pub const QUANT_LEVELS: [u16; 12] = [0, 3, 5, 7, 9, 13, 17, 25, 33, 65, 129, 256];

/// The number of code books of each bit allocation index.
pub const CODEBOOK_GROUP_SIZE: [u8; 12] = [0, 2, 4, 4, 4, 4, 8, 8, 8, 8, 8, 1];

/// How the samples of a subband are coded.
#[derive(Debug, Clone, Copy, PartialEq, Eq, Hash, Structural)]
pub enum AudioQuantType {
    /// No bits are allocated; the samples are zero.
    NoBits,
    /// Huffman codes.
    Huffman,
    /// Plain numbers.
    NoEncoding,
    /// Block codes.
    BlockCode,
}

/// The selector that ends a code book group, where the index has a group.
pub open spec fn terminal_sel(abits: u8) -> Option<u8> {
    if 1 <= abits <= 11 {
        Some((CODEBOOK_GROUP_SIZE@[abits as int] - 1) as u8)
    } else {
        None
    }
}

/// How an allocation index and a code book selector code the samples.
pub open spec fn quant_type(abits: u8, sel: u8) -> AudioQuantType {
    if abits == 0 {
        AudioQuantType::NoBits
    } else if abits > 11 {
        AudioQuantType::NoEncoding
    } else if terminal_sel(abits) != Some(sel) {
        AudioQuantType::Huffman
    } else if abits <= 7 {
        AudioQuantType::BlockCode
    } else {
        AudioQuantType::NoEncoding
    }
}

/// The selector that ends a code book group, where the index has a group.
#[must_use]
pub fn terminal_sel_index(abits: u8) -> (r: Option<u8>)
    ensures
        r == terminal_sel(abits),
{
    let idx: usize = abits as usize;
    if idx == 0 || idx >= ABITS_TABLE_LEN {
        return None;
    }
    Some(CODEBOOK_GROUP_SIZE[idx] - 1)
}

/// How an allocation index and a code book selector code the samples.
#[must_use]
pub fn audio_quant_type(abits: u8, sel: u8) -> (r: AudioQuantType)
    ensures
        r == quant_type(abits, sel),
{
    if abits == 0 {
        return AudioQuantType::NoBits;
    }
    if abits > ABITS_MAX_SEL {
        return AudioQuantType::NoEncoding;
    }
    match terminal_sel_index(abits) {
        Some(top) if sel == top => {
            if abits <= ABITS_MAX_BLOCK_CODE {
                AudioQuantType::BlockCode
            } else {
                AudioQuantType::NoEncoding
            }
        },
        _ => AudioQuantType::Huffman,
    }
}

/// Every index but zero has a selector below which its samples are Huffman
/// coded and at which they are not, and an index above the table never has
/// coded samples.
pub proof fn law_terminal_selector_ends_huffman(abits: u8, sel: u8)
    ensures
        terminal_sel(abits) is Some <==> 1 <= abits <= 11,
        terminal_sel(abits) matches Some(top) ==> (sel == top <==> quant_type(abits, sel)
            != AudioQuantType::Huffman),
        abits > 11 ==> quant_type(abits, sel) == AudioQuantType::NoEncoding,
        quant_type(abits, sel) == AudioQuantType::NoBits <==> abits == 0,
{
}

} // verus!
