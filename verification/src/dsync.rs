//! The check word that ends a subsubframe.

use crate::bitreader::field_at;
use crate::bits::{field, lemma_field_bound};
use crate::error::Error;
use vstd::prelude::*;

verus! {

/// The value of the check word.
pub const DSYNC_WORD: u16 = 0xffff;

/// The width of the check word in bits.
pub const DSYNC_WIRE_BITS: u32 = 16;

/// Whether a check word follows subsubframe `n_subsubframe` of `n_ssc`: after
/// the last one always, after the others where `aspf` asks for it.
#[must_use]
pub fn dsync_present(n_subsubframe: u8, n_ssc: u8, aspf: bool) -> (r: bool)
    ensures
        r == (aspf || n_subsubframe + 1 == n_ssc),
{
    aspf || (n_ssc != 0 && n_subsubframe == n_ssc - 1)
}

/// Reads the check word at `bit_offset` and gives its width.
pub fn decode_dsync_at(bytes: &[u8], bit_offset: usize, n_subsubframe: u8) -> (r: Result<
    usize,
    Error,
>)
    requires
        8 * bytes@.len() <= usize::MAX,
    ensures
        r == (if bit_offset + 16 > 8 * bytes@.len() {
            Err::<usize, Error>(Error::UnexpectedEof)
        } else if field(bytes@, bit_offset as int, 16) != 0xffff {
            Err::<usize, Error>(
                Error::DsyncMismatch {
                    found: field(bytes@, bit_offset as int, 16) as u16,
                    n_subsubframe,
                },
            )
        } else {
            Ok::<usize, Error>(16)
        }),
{
    let total: usize = bytes.len() * 8;
    if bit_offset > total || total - bit_offset < 16 {
        return Err(Error::UnexpectedEof);
    }
    proof {
        lemma_field_bound(bytes@, bit_offset as int, 16);
        vstd::arithmetic::power2::lemma2_to64();
    }
    let word: u16 = field_at(bytes, bit_offset, DSYNC_WIRE_BITS) as u16;
    if word != DSYNC_WORD {
        return Err(Error::DsyncMismatch { found: word, n_subsubframe });
    }
    Ok(DSYNC_WIRE_BITS as usize)
}

} // verus!
