//! The 14-bit container transform: 14 payload bits in each 16-bit word, the
//! two upper bits of a word repeating the first payload bit.

use crate::bits::{
    bit, bit_at, bits_to_bytes, byte_bit, byte_of, bytes_of_bits, lemma_bit_bound, lemma_bytes_ext,
    lemma_packed_bit, lemma_swapped_twice, lemma_zero_byte, swapped, zero_padded,
};
use crate::error::Error;
use crate::header::SyncWordEncoding;
use vstd::prelude::*;

verus! {

/// The byte order of the 16-bit container words.
#[derive(Debug, Clone, Copy, PartialEq, Eq, Hash, Structural)]
pub enum FourteenBitByteOrder {
    /// The upper byte of a word comes first.
    BigEndian,
    /// The lower byte of a word comes first.
    LittleEndian,
}

impl FourteenBitByteOrder {
    /// The container byte order that a sync encoding implies, if it is packed.
    pub open spec fn of_sync(sync: SyncWordEncoding) -> Option<FourteenBitByteOrder> {
        match sync {
            SyncWordEncoding::FourteenBitBigEndian => Some(FourteenBitByteOrder::BigEndian),
            SyncWordEncoding::FourteenBitLittleEndian => Some(FourteenBitByteOrder::LittleEndian),
            _ => None,
        }
    }

    /// The container byte order that a sync encoding implies, if it is packed.
    pub fn from_sync(sync: SyncWordEncoding) -> (r: Option<FourteenBitByteOrder>)
        ensures
            r == Self::of_sync(sync),
    {
        match sync {
            SyncWordEncoding::FourteenBitBigEndian => Some(FourteenBitByteOrder::BigEndian),
            SyncWordEncoding::FourteenBitLittleEndian => Some(FourteenBitByteOrder::LittleEndian),
            SyncWordEncoding::RawBigEndian | SyncWordEncoding::RawLittleEndian => None,
        }
    }
}

/// Container bytes with the upper byte of each word first.
pub open spec fn big_endian_words(s: Seq<u8>, order: FourteenBitByteOrder) -> Seq<u8> {
    match order {
        FourteenBitByteOrder::BigEndian => s,
        FourteenBitByteOrder::LittleEndian => swapped(s),
    }
}

/// The payload bits of a container stream: the lower 14 bits of every word.
pub open spec fn payload_bits(s: Seq<u8>, order: FourteenBitByteOrder) -> Seq<bool> {
    Seq::new(
        (14 * (s.len() / 2)) as nat,
        |i: int| bit(big_endian_words(s, order), 16 * (i / 14) + 2 + i % 14) == 1,
    )
}

/// The payload of a container stream as bytes.
pub open spec fn unpacked(s: Seq<u8>, order: FourteenBitByteOrder) -> Seq<u8> {
    bytes_of_bits(payload_bits(s, order))
}

/// The number of containers that `n` bytes need.
pub open spec fn container_count(n: nat) -> nat {
    ((8 * n + 13) / 14) as nat
}

/// The payload bit that bit `i` of the container words repeats.
pub open spec fn container_source(i: int) -> int {
    14 * (i / 16) + (if i % 16 < 2 {
        0
    } else {
        i % 16 - 2
    })
}

/// The bits of the container words that carry `s`, zero behind its end.
pub open spec fn container_bits(s: Seq<u8>) -> Seq<bool> {
    Seq::new(
        16 * container_count(s.len()),
        |i: int| container_source(i) < 8 * s.len() && bit(s, container_source(i)) == 1,
    )
}

/// The container stream that carries `s`.
pub open spec fn packed(s: Seq<u8>, order: FourteenBitByteOrder) -> Seq<u8> {
    big_endian_words(bytes_of_bits(container_bits(s)), order)
}

/// The payload of a 14-bit container stream. A stream that ends inside a
/// container word is refused.
pub fn unpack_14bit_to_16bit(bytes: &[u8], order: FourteenBitByteOrder) -> (r: Result<
    Vec<u8>,
    Error,
>)
    requires
        8 * bytes@.len() <= usize::MAX,
    ensures
        match r {
            Ok(v) => bytes@.len() % 2 == 0 && v@ == unpacked(bytes@, order),
            Err(e) => bytes@.len() % 2 == 1 && e == Error::UnexpectedEof,
        },
{
    if bytes.len() % 2 == 1 {
        return Err(Error::UnexpectedEof);
    }
    let ghost want: Seq<bool> = payload_bits(bytes@, order);
    let mut bits: Vec<bool> = Vec::new();
    let mut c: usize = 0;
    while c < bytes.len() / 2
        invariant
            bytes@.len() % 2 == 0,
            c <= bytes@.len() / 2,
            want == payload_bits(bytes@, order),
            bits@.len() == 14 * c,
            forall|i: int| 0 <= i < bits@.len() ==> bits@[i] == want[i],
        decreases bytes@.len() / 2 - c,
    {
        let word: [u8; 2] = match order {
            FourteenBitByteOrder::BigEndian => [bytes[2 * c], bytes[2 * c + 1]],
            FourteenBitByteOrder::LittleEndian => [bytes[2 * c + 1], bytes[2 * c]],
        };
        let ghost words: Seq<u8> = big_endian_words(bytes@, order);
        assert(word@[0] == words[2 * c] && word@[1] == words[2 * c + 1]);
        let mut k: usize = 0;
        while k < 14
            invariant
                c < bytes@.len() / 2,
                k <= 14,
                want == payload_bits(bytes@, order),
                words == big_endian_words(bytes@, order),
                word@.len() == 2,
                word@[0] == words[2 * c],
                word@[1] == words[2 * c + 1],
                bits@.len() == 14 * c + k,
                forall|i: int| 0 <= i < bits@.len() ==> bits@[i] == want[i],
            decreases 14 - k,
        {
            let b: bool = bit_at(word.as_slice(), 2 + k);
            proof {
                let i: int = 14 * c + k;
                let src: int = 16 * c + 2 + k;
                assert(i / 14 == c && i % 14 == k);
                assert(src / 8 == 2 * c + (2 + k) / 8 && src % 8 == (2 + k) % 8);
                assert(bit(word@, 2 + k) == bit(words, src));
                assert(want[i] == (bit(words, src) == 1));
            }
            bits.push(b);
            k = k + 1;
        }
        c = c + 1;
    }
    assert(bits@ =~= want);
    Ok(bits_to_bytes(bits.as_slice()))
}

/// The 14-bit container stream that carries `bytes`, and its payload bit count.
/// The last container is filled up with zero bits.
pub fn pack_16bit_to_14bit(bytes: &[u8], order: FourteenBitByteOrder) -> (r: (Vec<u8>, usize))
    requires
        8 * bytes@.len() <= usize::MAX,
    ensures
        r.0@ == packed(bytes@, order),
        r.1 == 8 * bytes@.len(),
{
    let total: usize = bytes.len() * 8;
    let ghost want: Seq<bool> = container_bits(bytes@);
    let ghost words: Seq<u8> = bytes_of_bits(want);
    let count: usize = if total % 14 == 0 {
        total / 14
    } else {
        total / 14 + 1
    };
    assert(count == container_count(bytes@.len()));
    assert(words.len() == 2 * count);
    let mut out: Vec<u8> = Vec::new();
    let mut c: usize = 0;
    while c < count
        invariant
            total == 8 * bytes@.len(),
            total <= usize::MAX,
            want == container_bits(bytes@),
            words == bytes_of_bits(want),
            count == container_count(bytes@.len()),
            words.len() == 2 * count,
            c <= count,
            out@.len() == 2 * c,
            forall|j: int|
                0 <= j < out@.len() ==> #[trigger] out@[j] == big_endian_words(words, order)[j],
        decreases count - c,
    {
        let left: usize = total - 14 * c;
        let mut word: Vec<bool> = Vec::new();
        let mut k: usize = 0;
        while k < 16
            invariant
                total == 8 * bytes@.len(),
                want == container_bits(bytes@),
                count == container_count(bytes@.len()),
                c < count,
                left == total - 14 * c,
                14 * c <= total <= usize::MAX,
                k <= 16,
                word@.len() == k,
                forall|i: int| 0 <= i < k ==> word@[i] == want[16 * c + i],
            decreases 16 - k,
        {
            let payload: usize = if k < 2 {
                0
            } else {
                k - 2
            };
            assert((16 * c + k) / 16 == c && (16 * c + k) % 16 == k);
            assert(container_source(16 * c + k) == 14 * c + payload);
            let b: bool = payload < left && bit_at(bytes, 14 * c + payload);
            assert(b == want[16 * c + k]);
            word.push(b);
            k = k + 1;
        }
        let pair: Vec<u8> = bits_to_bytes(word.as_slice());
        assert(pair@.len() == 2);
        proof {
            lemma_same_byte(word@, 0, want, 16 * c);
            lemma_same_byte(word@, 8, want, 16 * c + 8);
            assert(pair@[0] == byte_of(word@, 0) && pair@[1] == byte_of(word@, 8));
            assert(8 * (2 * c) == 16 * c && 8 * (2 * c + 1) == 16 * c + 8);
            assert(pair@[0] == words[2 * c] && pair@[1] == words[2 * c + 1]);
        }
        match order {
            FourteenBitByteOrder::BigEndian => {
                out.push(pair[0]);
                out.push(pair[1]);
            },
            FourteenBitByteOrder::LittleEndian => {
                out.push(pair[1]);
                out.push(pair[0]);
            },
        }
        c = c + 1;
    }
    assert(out@ =~= packed(bytes@, order));
    (out, total)
}

/// Equal bits make equal bytes.
pub proof fn lemma_same_byte(a: Seq<bool>, p: int, b: Seq<bool>, q: int)
    requires
        0 <= p,
        p + 8 <= a.len(),
        0 <= q,
        q + 8 <= b.len(),
        forall|i: int| 0 <= i < 8 ==> #[trigger] a[p + i] == b[q + i],
    ensures
        byte_of(a, p) == byte_of(b, q),
{
    reveal(byte_of);
    assert(a[p + 0] == b[q + 0]);
    assert(a[p + 1] == b[q + 1]);
    assert(a[p + 2] == b[q + 2]);
    assert(a[p + 3] == b[q + 3]);
    assert(a[p + 4] == b[q + 4]);
    assert(a[p + 5] == b[q + 5]);
    assert(a[p + 6] == b[q + 6]);
    assert(a[p + 7] == b[q + 7]);
}

/// Where payload bit `i` stands in the container words.
proof fn lemma_payload_index(i: int, count: nat)
    requires
        0 <= i < 14 * count,
    ensures
        0 <= 16 * (i / 14) + 2 + i % 14 < 16 * count,
        container_source(16 * (i / 14) + 2 + i % 14) == i,
{
    let c: int = i / 14;
    let k: int = i % 14;
    assert(0 <= c < count && 0 <= k < 14 && i == 14 * c + k);
    assert((16 * c + 2 + k) / 16 == c);
    assert((16 * c + 2 + k) % 16 == 2 + k);
}

/// Unpacking undoes packing: what comes back is what was packed, followed by
/// the zero bits that filled the last container.
pub proof fn law_unpack_undoes_pack(s: Seq<u8>, order: FourteenBitByteOrder)
    ensures
        unpacked(packed(s, order), order) == zero_padded(
            s,
            ((14 * container_count(s.len()) + 7) / 8) as nat,
        ),
{
    let count: nat = container_count(s.len());
    let words: Seq<u8> = bytes_of_bits(container_bits(s));
    let stream: Seq<u8> = packed(s, order);
    assert(words.len() == 2 * count);
    lemma_swapped_twice(words);
    assert(big_endian_words(stream, order) == words);
    let bits: Seq<bool> = payload_bits(stream, order);
    assert(bits.len() == 14 * count);
    let got: Seq<u8> = unpacked(stream, order);
    let want: Seq<u8> = zero_padded(s, ((14 * count + 7) / 8) as nat);
    assert(8 * s.len() <= 14 * count);
    assert(s.len() <= want.len());
    assert forall|i: int| 0 <= i < 8 * got.len() implies #[trigger] bit(got, i) == bit(
        want,
        i,
    ) by {
        lemma_packed_bit(bits, i);
        if i < 14 * count {
            let src: int = 16 * (i / 14) + 2 + i % 14;
            lemma_payload_index(i, count);
            lemma_packed_bit(container_bits(s), src);
            assert(bits[i] == (bit(words, src) == 1));
            assert(container_bits(s)[src] == (i < 8 * s.len() && bit(s, i) == 1));
        }
        lemma_zero_byte(i % 8);
        if i < 8 * s.len() {
            assert(want[i / 8] == s[i / 8]);
            lemma_bit_bound(s, i);
        } else {
            assert(want[i / 8] == 0);
        }
    }
    lemma_bytes_ext(got, want);
}

/// The little-endian container stream is the big-endian one with the bytes of
/// every word exchanged.
pub proof fn law_little_endian_swaps_words(s: Seq<u8>)
    ensures
        packed(s, FourteenBitByteOrder::LittleEndian) == swapped(
            packed(s, FourteenBitByteOrder::BigEndian),
        ),
{
}

/// The upper two bits of every container word repeat the first payload bit.
pub proof fn law_containers_are_sign_extended(s: Seq<u8>, order: FourteenBitByteOrder, c: int)
    requires
        0 <= c < container_count(s.len()),
    ensures
        bit(big_endian_words(packed(s, order), order), 16 * c) == bit(
            big_endian_words(packed(s, order), order),
            16 * c + 2,
        ),
        bit(big_endian_words(packed(s, order), order), 16 * c + 1) == bit(
            big_endian_words(packed(s, order), order),
            16 * c + 2,
        ),
{
    let b: Seq<bool> = container_bits(s);
    let words: Seq<u8> = bytes_of_bits(b);
    lemma_swapped_twice(words);
    assert(words.len() == 2 * container_count(s.len()));
    lemma_packed_bit(b, 16 * c);
    lemma_packed_bit(b, 16 * c + 1);
    lemma_packed_bit(b, 16 * c + 2);
    assert((16 * c) / 16 == c && (16 * c + 1) / 16 == c && (16 * c + 2) / 16 == c);
    assert((16 * c) % 16 == 0 && (16 * c + 1) % 16 == 1 && (16 * c + 2) % 16 == 2);
}

/// Unpacking keeps the lower 14 bits of every word in order: payload bit `k` of word `w`
/// stands at bit `14 * w + k`. A word has its upper byte first, or second in a
/// little-endian stream.
pub proof fn law_unpacking_keeps_fourteen_bits(
    s: Seq<u8>,
    order: FourteenBitByteOrder,
    w: int,
    k: int,
)
    requires
        0 <= w < s.len() / 2,
        0 <= k < 14,
    ensures
        unpacked(s, order).len() == (14 * (s.len() / 2) + 7) / 8,
        14 * w + k < 8 * unpacked(s, order).len(),
        ({
            let upper: u8 = if order == FourteenBitByteOrder::BigEndian {
                s[2 * w]
            } else {
                s[2 * w + 1]
            };
            let lower: u8 = if order == FourteenBitByteOrder::BigEndian {
                s[2 * w + 1]
            } else {
                s[2 * w]
            };
            bit(unpacked(s, order), 14 * w + k) == (if k < 6 {
                byte_bit(upper, k + 2)
            } else {
                byte_bit(lower, k - 6)
            })
        }),
{
    let b: Seq<bool> = payload_bits(s, order);
    let i: int = 14 * w + k;
    let words: Seq<u8> = big_endian_words(s, order);
    lemma_packed_bit(b, i);
    assert(i / 14 == w && i % 14 == k);
    let p: int = 16 * w + 2 + k;
    lemma_bit_bound(words, p);
    assert(b[i] == (bit(words, p) == 1));
    if k < 6 {
        assert(p / 8 == 2 * w && p % 8 == k + 2);
    } else {
        assert(p / 8 == 2 * w + 1 && p % 8 == k - 6);
    }
}

} // verus!
