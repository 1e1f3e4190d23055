//! The 16-bit cyclic check word over whole bytes.

use crate::bits::{bit, bit_at};
use vstd::prelude::*;

verus! {

/// The generator polynomial without its leading term.
pub const CRC16_POLYNOMIAL: u16 = 0x1021;

/// The value that a check starts with.
pub const CRC16_INIT: u16 = 0xFFFF;

/// The register after one more bit, the most significant bit leaving it.
pub open spec fn crc_step(crc: u16, one: bool) -> u16 {
    let shifted: u16 = ((crc as int % 32768) * 2) as u16;
    if (crc >= 32768) != one {
        shifted ^ CRC16_POLYNOMIAL
    } else {
        shifted
    }
}

/// The register after the first `n` bits of `s`.
pub open spec fn crc_of_bits(s: Seq<u8>, n: nat) -> u16
    decreases n,
{
    if n == 0 {
        CRC16_INIT
    } else {
        crc_step(crc_of_bits(s, (n - 1) as nat), bit(s, n - 1) == 1)
    }
}

/// The check word of a byte string.
pub open spec fn crc16_of(s: Seq<u8>) -> u16 {
    crc_of_bits(s, 8 * s.len())
}

/// The check word of `bytes`.
pub fn dts_crc16(bytes: &[u8]) -> (r: u16)
    requires
        8 * bytes@.len() <= usize::MAX,
    ensures
        r == crc16_of(bytes@),
{
    let total: usize = bytes.len() * 8;
    let mut crc: u16 = CRC16_INIT;
    let mut i: usize = 0;
    while i < total
        invariant
            total == 8 * bytes@.len(),
            i <= total,
            crc == crc_of_bits(bytes@, i as nat),
        decreases total - i,
    {
        let one: bool = bit_at(bytes, i);
        let shifted: u16 = (crc % 32768) * 2;
        crc = if (crc >= 32768) != one {
            shifted ^ CRC16_POLYNOMIAL
        } else {
            shifted
        };
        i = i + 1;
    }
    crc
}

} // verus!
