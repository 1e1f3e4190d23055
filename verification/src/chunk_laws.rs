//! Laws on the auxiliary chunk: where its fields stand, when it is refused, which
//! bytes its check word covers, and where a frame is searched for it.

use crate::bits::{field, flag, lemma_field_bound};
use crate::crc16::{crc16_of, crc_of_bits, crc_step};
use crate::error::Error;
use crate::rev2_aux::{
    last_rev2_candidate, rev2_aux_at, rev2_candidate, subsubframes_of, Rev2AuxView, Rev2Layout,
};
use vstd::arithmetic::power2::lemma2_to64;
use vstd::prelude::*;

verus! {

/// A frame is searched for a chunk at every fourth byte, for the four bytes of its
/// sync word, and the last place counts.
pub proof fn law_where_a_chunk_is_searched(s: Seq<u8>, i: int)
    ensures
        rev2_candidate(s, i) <==> {
            &&& 0 <= i && i % 4 == 0 && i + 3 < s.len()
            &&& s[i] == 0x70 && s[i + 1] == 0x04 && s[i + 2] == 0xC0 && s[i + 3] == 0x70
        },
        last_rev2_candidate(s, i) ==> forall|j: int|
            i < j && j % 4 == 0 && j + 3 < s.len() ==> !(#[trigger] s[j] == 0x70 && s[j + 1] == 0x04
                && s[j + 2] == 0xC0 && s[j + 3] == 0x70),
{
    if last_rev2_candidate(s, i) {
        assert forall|j: int| i < j && j % 4 == 0 && j + 3 < s.len() implies !(#[trigger] s[j]
            == 0x70 && s[j + 1] == 0x04 && s[j + 2] == 0xC0 && s[j + 3] == 0x70) by {
            assert(!rev2_candidate(s, j));
        }
    }
}

/// Where the fields of a chunk that was read stand: behind the 32 bits of the sync word
/// its size minus one in seven bits, the flag of the downmix scale and, where it is set,
/// its index in eight bits. In a chunk of more than four bytes a flag for the broadcast
/// part follows, and where it is set, a flag for the gain codes, one for the dialog
/// normalization, and the version of the codes in four bits, where there are any. From
/// the next whole byte on come the codes of the first version, one for each
/// subsubframe, and the dialog normalization in five bits. It cannot be located behind
/// codes of another version. The check word is the last two bytes of the chunk, and
/// covers all bytes between the sync word and itself.
pub proof fn law_chunk_fields_stand_in_order(
    s: Seq<u8>,
    off: int,
    blocks_per_frame: u8,
    chunk: Rev2AuxView,
)
    requires
        0 <= off,
        rev2_aux_at(s, off, blocks_per_frame) == Ok::<Rev2AuxView, Error>(chunk),
    ensures
        field(s, 8 * off, 32) == 0x7004_C070,
        chunk.offset == off,
        chunk.data_byte_size == field(s, 8 * off + 32, 7) + 1,
        chunk.data_byte_size >= 3,
        off + 4 + chunk.data_byte_size <= s.len(),
        chunk.es_downmix_scale_index == (if field(s, 8 * off + 39, 1) == 1 {
            Some(field(s, 8 * off + 40, 8) as u8)
        } else {
            None::<u8>
        }),
        ({
            let at: int = off + 5 + (if field(s, 8 * off + 39, 1) == 1 {
                1int
            } else {
                0int
            });
            let broadcast: bool = chunk.data_byte_size > 4 && field(s, 8 * at, 1) == 1;
            let gains: bool = broadcast && field(s, 8 * at + 1, 1) == 1;
            let norm: bool = broadcast && field(s, 8 * at + 2, 1) == 1;
            let version: nat = field(s, 8 * at + 3, 4);
            let count: int = if gains && version == 1 {
                (blocks_per_frame + 1) / 8
            } else {
                0
            };
            &&& gains <==> chunk.drc is Some
            &&& chunk.drc matches Some((v, codes)) ==> {
                &&& v == version
                &&& codes.len() == count
                &&& version == 1 ==> (blocks_per_frame + 1) % 8 == 0
                &&& at + 1 + count <= s.len()
                &&& forall|i: int| 0 <= i < count ==> #[trigger] codes[i] == s[at + 1 + i]
            }
            &&& chunk.dialnorm is Some <==> norm && (gains ==> version == 1)
            &&& chunk.dialnorm matches Some(code) ==> code == field(s, 8 * (at + 1 + count), 5)
            &&& chunk.dialnorm is Some ==> 8 * (at + 1 + count) + 5 <= 8 * (off
                + chunk.data_byte_size + 2)
        }),
        chunk.crc16 == field(s, 8 * (off + 2 + chunk.data_byte_size), 16),
        chunk.crc_valid == (chunk.crc16 == crc16_of(
            s.subrange(off + 4, off + 2 + chunk.data_byte_size),
        )),
{
    let l: Rev2Layout = Rev2Layout { s, off };
    reveal(flag);
    lemma2_to64();
    lemma_field_bound(s, 8 * off + 32, 7);
    lemma_field_bound(s, 8 * off + 40, 8);
    lemma_field_bound(s, l.scale_end() + 3, 4);
    lemma_field_bound(s, 8 * l.crc_offset(), 16);
    let at: int = off + 5 + (if field(s, 8 * off + 39, 1) == 1 {
        1int
    } else {
        0int
    });
    assert(l.scale_end() == 8 * at);
    assert(l.codes_at() == at + 1);
    lemma_field_bound(s, 8 * l.codes_at(), 5);
    if let Ok(n) = subsubframes_of(blocks_per_frame) {
        lemma_field_bound(s, 8 * (l.codes_at() + n), 5);
    }
}

/// Why a chunk is refused, in turn: no room for the sync word or another word there, no
/// room for its size, a size below three or behind the frame, and a downmix scale index
/// that is out of range.
pub proof fn law_why_chunks_are_refused(s: Seq<u8>, off: int, blocks_per_frame: u8)
    requires
        0 <= off,
    ensures
        off + 4 > s.len() ==> rev2_aux_at(s, off, blocks_per_frame) == Err::<Rev2AuxView, Error>(
            Error::UnexpectedEof,
        ),
        off + 4 <= s.len() && field(s, 8 * off, 32) != 0x7004_C070 ==> rev2_aux_at(
            s,
            off,
            blocks_per_frame,
        ) == Err::<Rev2AuxView, Error>(
            Error::Rev2AuxSyncMismatch { found: field(s, 8 * off, 32) as u32 },
        ),
        off + 5 <= s.len() && field(s, 8 * off, 32) == 0x7004_C070 && field(s, 8 * off + 32, 7) < 2
            ==> rev2_aux_at(s, off, blocks_per_frame) == Err::<Rev2AuxView, Error>(
            Error::Rev2AuxSizeOutOfRange { size: (field(s, 8 * off + 32, 7) + 1) as u8 },
        ),
        off + 5 <= s.len() && field(s, 8 * off, 32) == 0x7004_C070 && field(s, 8 * off + 32, 7)
            >= 2 && off + 5 + field(s, 8 * off + 32, 7) > s.len() ==> rev2_aux_at(
            s,
            off,
            blocks_per_frame,
        ) == Err::<Rev2AuxView, Error>(Error::UnexpectedEof),
        off + 5 <= s.len() && field(s, 8 * off, 32) == 0x7004_C070 && field(s, 8 * off + 32, 7)
            >= 2 && off + 5 + field(s, 8 * off + 32, 7) <= s.len() && field(s, 8 * off + 39, 1) == 1
            && !(40 <= field(s, 8 * off + 40, 8) <= 240) ==> rev2_aux_at(s, off, blocks_per_frame)
            == Err::<Rev2AuxView, Error>(
            Error::Rev2AuxEsScaleIndexOutOfRange { index: field(s, 8 * off + 40, 8) as u8 },
        ),
{
    reveal(flag);
}

/// The check word of no bytes has all bits set.
pub proof fn law_check_word_of_nothing()
    ensures
        crc16_of(Seq::<u8>::empty()) == 0xFFFF,
{
}

/// One more bit shifts the register by one, and takes in the polynomial exactly where
/// the bit that leaves differs from it.
pub proof fn law_check_word_step(crc: u16, one: bool)
    ensures
        crc_step(crc, one) == (if (crc & 0x8000 != 0) != one {
            (crc << 1) ^ 0x1021
        } else {
            crc << 1
        }),
{
    let shifted: u16 = ((crc as int % 32768) * 2) as u16;
    assert(crc & 0x8000 != 0 <==> crc >= 32768) by (bit_vector);
    assert(crc << 1 == ((crc % 32768) * 2) as u16) by (bit_vector);
    assert(shifted == (crc % 32768) * 2);
}

/// The register behind more bits is that behind the first ones and one more step.
pub proof fn law_check_word_takes_bits_in_order(s: Seq<u8>, n: nat)
    requires
        n < 8 * s.len(),
    ensures
        crc_of_bits(s, n + 1) == crc_step(crc_of_bits(s, n), field(s, n as int, 1) == 1),
        crc16_of(s) == crc_of_bits(s, 8 * s.len()),
{
    reveal(field);
    reveal_with_fuel(field, 2);
}

} // verus!
