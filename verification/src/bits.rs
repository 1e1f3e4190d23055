//! Byte strings read as bit strings, most significant bit of byte 0 first.

use vstd::arithmetic::power2::*;
use vstd::bits::*;
use vstd::prelude::*;

verus! {

/// Bit `k` of a byte, counted from the most significant one.
#[verifier::opaque]
pub open spec fn byte_bit(b: u8, k: int) -> nat {
    if k == 0 {
        (b as nat / 128) % 2
    } else if k == 1 {
        (b as nat / 64) % 2
    } else if k == 2 {
        (b as nat / 32) % 2
    } else if k == 3 {
        (b as nat / 16) % 2
    } else if k == 4 {
        (b as nat / 8) % 2
    } else if k == 5 {
        (b as nat / 4) % 2
    } else if k == 6 {
        (b as nat / 2) % 2
    } else {
        (b as nat) % 2
    }
}

/// Bit `i` of a byte string.
pub open spec fn bit(s: Seq<u8>, i: int) -> nat {
    byte_bit(s[i / 8], i % 8)
}

/// The unsigned number in the `n` bits that start at bit `pos`.
#[verifier::opaque]
pub open spec fn field(s: Seq<u8>, pos: int, n: nat) -> nat
    decreases n,
{
    if n == 0 {
        0
    } else {
        2 * field(s, pos, (n - 1) as nat) + bit(s, pos + n - 1)
    }
}

/// Whether the one-bit field at `pos` is set.
#[verifier::opaque]
pub open spec fn flag(s: Seq<u8>, pos: int) -> bool {
    field(s, pos, 1) == 1
}

/// The `w` low bits of `v`, most significant first.
pub open spec fn value_bits(v: nat, w: nat) -> Seq<bool>
    decreases w,
{
    if w == 0 {
        Seq::empty()
    } else {
        value_bits(v / 2, (w - 1) as nat).push(v % 2 == 1)
    }
}

/// The bits of a list of `(value, width)` fields, one after the other.
pub open spec fn fields_bits(fs: Seq<(u32, u32)>) -> Seq<bool>
    decreases fs.len(),
{
    if fs.len() == 0 {
        Seq::empty()
    } else {
        fields_bits(fs.drop_last()) + value_bits(fs.last().0 as nat, fs.last().1 as nat)
    }
}

/// The bit position at which field `k` of the list starts.
pub open spec fn field_offset(fs: Seq<(u32, u32)>, k: nat) -> nat
    decreases k,
{
    if k == 0 {
        0
    } else {
        field_offset(fs, (k - 1) as nat) + fs[k - 1].1 as nat
    }
}

/// The weighted bit `i` of a bit string; zero past its end.
pub open spec fn weighted(b: Seq<bool>, i: int, weight: nat) -> nat {
    if 0 <= i < b.len() && b[i] {
        weight
    } else {
        0
    }
}

/// The byte made of the eight bits that start at `p`; bits past the end are zero.
#[verifier::opaque]
pub open spec fn byte_of(b: Seq<bool>, p: int) -> u8 {
    (weighted(b, p, 128) + weighted(b, p + 1, 64) + weighted(b, p + 2, 32) + weighted(b, p + 3, 16)
        + weighted(b, p + 4, 8) + weighted(b, p + 5, 4) + weighted(b, p + 6, 2) + weighted(
        b,
        p + 7,
        1,
    )) as u8
}

/// A bit string packed into bytes; the last byte is filled up with zero bits.
pub open spec fn bytes_of_bits(b: Seq<bool>) -> Seq<u8> {
    Seq::new(((b.len() + 7) / 8) as nat, |j: int| byte_of(b, 8 * j))
}

/// `s` with zero bytes behind it, `n` bytes in all.
pub open spec fn zero_padded(s: Seq<u8>, n: nat) -> Seq<u8> {
    Seq::new(n, |i: int| if i < s.len() { s[i] } else { 0u8 })
}

/// Every pair of bytes exchanged; a last odd byte stays where it is.
pub open spec fn swapped(s: Seq<u8>) -> Seq<u8> {
    Seq::new(
        s.len(),
        |i: int|
            if i % 2 == 1 {
                s[i - 1]
            } else if i + 1 < s.len() {
                s[i + 1]
            } else {
                s[i]
            },
    )
}

pub proof fn lemma_bit_bound(s: Seq<u8>, i: int)
    ensures
        bit(s, i) < 2,
{
    reveal(byte_bit);
}

/// A bit is zero or one.
pub proof fn lemma_byte_bits_bound(b: u8)
    ensures
        forall|k: int| #[trigger] byte_bit(b, k) < 2,
{
    reveal(byte_bit);
}

/// A zero byte has no bit set.
pub proof fn lemma_zero_byte(k: int)
    ensures
        byte_bit(0, k) == 0,
{
    reveal(byte_bit);
}

/// A field of `n` bits is below two to the `n`.
pub proof fn lemma_field_bound(s: Seq<u8>, pos: int, n: nat)
    ensures
        field(s, pos, n) < pow2(n),
    decreases n,
{
    reveal(field);
    if n == 0 {
        lemma2_to64();
    } else {
        lemma_field_bound(s, pos, (n - 1) as nat);
        lemma_pow2_unfold(n);
        lemma_bit_bound(s, pos + n - 1);
    }
}

/// Equal bits make equal fields.
pub proof fn lemma_field_ext(a: Seq<u8>, pa: int, b: Seq<u8>, pb: int, n: nat)
    requires
        forall|k: int| 0 <= k < n ==> #[trigger] bit(a, pa + k) == bit(b, pb + k),
    ensures
        field(a, pa, n) == field(b, pb, n),
    decreases n,
{
    reveal(field);
    if n > 0 {
        lemma_field_ext(a, pa, b, pb, (n - 1) as nat);
        assert(bit(a, pa + (n - 1)) == bit(b, pb + (n - 1)));
    }
}

/// Equal fields have equal bits.
pub proof fn lemma_field_bits(a: Seq<u8>, pa: int, b: Seq<u8>, pb: int, n: nat)
    requires
        field(a, pa, n) == field(b, pb, n),
    ensures
        forall|k: int| 0 <= k < n ==> #[trigger] bit(a, pa + k) == bit(b, pb + k),
    decreases n,
{
    reveal(field);
    if n > 0 {
        lemma_bit_bound(a, pa + n - 1);
        lemma_bit_bound(b, pb + n - 1);
        lemma_field_bits(a, pa, b, pb, (n - 1) as nat);
        assert forall|k: int| 0 <= k < n implies #[trigger] bit(a, pa + k) == bit(b, pb + k) by {
            if k == n - 1 {
                assert(pa + k == pa + n - 1 && pb + k == pb + n - 1);
            }
        }
    }
}

/// Two byte strings that agree on their first `n` bytes agree on every field there.
pub proof fn lemma_field_prefix(a: Seq<u8>, b: Seq<u8>, n: nat)
    requires
        n <= a.len(),
        n <= b.len(),
        forall|i: int| 0 <= i < n ==> a[i] == b[i],
    ensures
        forall|pos: int, w: nat|
            0 <= pos && pos + w <= 8 * n ==> #[trigger] field(a, pos, w) == field(b, pos, w),
{
    assert forall|pos: int, w: nat| 0 <= pos && pos + w <= 8 * n implies #[trigger] field(
        a,
        pos,
        w,
    ) == field(b, pos, w) by {
        assert forall|k: int| 0 <= k < w implies #[trigger] bit(a, pos + k) == bit(b, pos + k) by {
            assert(0 <= (pos + k) / 8 < n);
        }
        lemma_field_ext(a, pos, b, pos, w);
    }
}

/// A byte is the weighted sum of its bits.
pub proof fn lemma_byte_sum(b: u8)
    ensures
        b == 128 * byte_bit(b, 0) + 64 * byte_bit(b, 1) + 32 * byte_bit(b, 2) + 16 * byte_bit(b, 3)
            + 8 * byte_bit(b, 4) + 4 * byte_bit(b, 5) + 2 * byte_bit(b, 6) + byte_bit(b, 7),
{
    reveal(byte_bit);
    lemma_halvings(b as nat);
}

/// Division by a power of two up to 128, one halving at a time.
proof fn lemma_halvings(x: nat)
    ensures
        x / 4 == (x / 2) / 2,
        x / 8 == (x / 4) / 2,
        x / 16 == (x / 8) / 2,
        x / 32 == (x / 16) / 2,
        x / 64 == (x / 32) / 2,
        x / 128 == (x / 64) / 2,
        x < 256 ==> x / 128 < 2,
{
}

/// The bits of a number that is built up one bit at a time.
proof fn lemma_bits_of_sum(
    b0: nat,
    b1: nat,
    b2: nat,
    b3: nat,
    b4: nat,
    b5: nat,
    b6: nat,
    b7: nat,
    x: u8,
)
    requires
        b0 < 2 && b1 < 2 && b2 < 2 && b3 < 2 && b4 < 2 && b5 < 2 && b6 < 2 && b7 < 2,
        x == 128 * b0 + 64 * b1 + 32 * b2 + 16 * b3 + 8 * b4 + 4 * b5 + 2 * b6 + b7,
    ensures
        byte_bit(x, 0) == b0,
        byte_bit(x, 1) == b1,
        byte_bit(x, 2) == b2,
        byte_bit(x, 3) == b3,
        byte_bit(x, 4) == b4,
        byte_bit(x, 5) == b5,
        byte_bit(x, 6) == b6,
        byte_bit(x, 7) == b7,
{
    reveal(byte_bit);
    let n: nat = x as nat;
    lemma_halvings(n);
    let h2: nat = 2 * b0 + b1;
    let h3: nat = 2 * h2 + b2;
    let h4: nat = 2 * h3 + b3;
    let h5: nat = 2 * h4 + b4;
    let h6: nat = 2 * h5 + b5;
    let h7: nat = 2 * h6 + b6;
    assert(n == 2 * h7 + b7);
    assert(n / 2 == h7);
    assert(n / 4 == h6);
    assert(n / 8 == h5);
    assert(n / 16 == h4);
    assert(n / 32 == h3);
    assert(n / 64 == h2);
    assert(n / 128 == b0);
}

/// Two byte strings of one length with equal bits are equal.
pub proof fn lemma_bytes_ext(a: Seq<u8>, b: Seq<u8>)
    requires
        a.len() == b.len(),
        forall|i: int| 0 <= i < 8 * a.len() ==> #[trigger] bit(a, i) == bit(b, i),
    ensures
        a == b,
{
    assert forall|j: int| 0 <= j < a.len() implies a[j] == b[j] by {
        assert forall|k: int| 0 <= k < 8 implies byte_bit(a[j], k) == byte_bit(b[j], k) by {
            assert(bit(a, 8 * j + k) == bit(b, 8 * j + k));
            assert((8 * j + k) / 8 == j && (8 * j + k) % 8 == k);
        }
        lemma_byte_sum(a[j]);
        lemma_byte_sum(b[j]);
        assert(byte_bit(a[j], 0) == byte_bit(b[j], 0));
        assert(byte_bit(a[j], 1) == byte_bit(b[j], 1));
        assert(byte_bit(a[j], 2) == byte_bit(b[j], 2));
        assert(byte_bit(a[j], 3) == byte_bit(b[j], 3));
        assert(byte_bit(a[j], 4) == byte_bit(b[j], 4));
        assert(byte_bit(a[j], 5) == byte_bit(b[j], 5));
        assert(byte_bit(a[j], 6) == byte_bit(b[j], 6));
        assert(byte_bit(a[j], 7) == byte_bit(b[j], 7));
    }
    assert(a =~= b);
}

/// Eight bits that start on a byte are that byte.
pub proof fn lemma_byte_field(s: Seq<u8>, j: int)
    requires
        0 <= j < s.len(),
    ensures
        field(s, 8 * j, 8) == s[j],
{
    reveal_with_fuel(field, 9);
    lemma_byte_sum(s[j]);
    assert forall|k: int| 0 <= k < 8 implies #[trigger] bit(s, 8 * j + k) == byte_bit(
        s[j],
        k,
    ) by {
        assert((8 * j + k) / 8 == j && (8 * j + k) % 8 == k);
    }
    assert(bit(s, 8 * j + 0) == byte_bit(s[j], 0));
    assert(bit(s, 8 * j + 1) == byte_bit(s[j], 1));
    assert(bit(s, 8 * j + 2) == byte_bit(s[j], 2));
    assert(bit(s, 8 * j + 3) == byte_bit(s[j], 3));
    assert(bit(s, 8 * j + 4) == byte_bit(s[j], 4));
    assert(bit(s, 8 * j + 5) == byte_bit(s[j], 5));
    assert(bit(s, 8 * j + 6) == byte_bit(s[j], 6));
    assert(bit(s, 8 * j + 7) == byte_bit(s[j], 7));
}

/// A field is its upper part shifted up, plus its lower part.
pub proof fn lemma_field_split(s: Seq<u8>, pos: int, a: nat, b: nat)
    ensures
        field(s, pos, a + b) == field(s, pos, a) * pow2(b) + field(s, pos + a, b),
    decreases b,
{
    reveal(field);
    if b == 0 {
        lemma2_to64();
    } else {
        let c: nat = (b - 1) as nat;
        lemma_field_split(s, pos, a, c);
        lemma_pow2_unfold(b);
        assert((a + b - 1) as nat == a + c);
        assert(pos + (a + b) - 1 == (pos + a) + b - 1);
        assert(field(s, pos, a + b) == 2 * field(s, pos, a + c) + bit(s, pos + a + b - 1));
        assert(field(s, pos + a, b) == 2 * field(s, pos + a, c) + bit(s, pos + a + b - 1));
        let f: nat = field(s, pos, a);
        let p: nat = pow2(c);
        assert(2 * (f * p) == f * (2 * p)) by (nonlinear_arith);
        assert(pow2(b) == 2 * p);
    }
}

/// The bits of a packed bit string are the bits that were packed, then zeros.
pub proof fn lemma_packed_bit(b: Seq<bool>, i: int)
    requires
        0 <= i < 8 * bytes_of_bits(b).len(),
    ensures
        bit(bytes_of_bits(b), i) == weighted(b, i, 1),
{
    let j: int = i / 8;
    let x: u8 = bytes_of_bits(b)[j];
    let p: int = 8 * j;
    reveal(byte_of);
    assert(x == byte_of(b, p));
    assert(i == p + i % 8);
    lemma_bits_of_sum(
        weighted(b, p, 1),
        weighted(b, p + 1, 1),
        weighted(b, p + 2, 1),
        weighted(b, p + 3, 1),
        weighted(b, p + 4, 1),
        weighted(b, p + 5, 1),
        weighted(b, p + 6, 1),
        weighted(b, p + 7, 1),
        x,
    );
}

pub proof fn lemma_value_bits_len(v: nat, w: nat)
    ensures
        value_bits(v, w).len() == w,
    decreases w,
{
    if w > 0 {
        lemma_value_bits_len(v / 2, (w - 1) as nat);
    }
}

/// A number written in `w` bits at `pos` is read back from there.
pub proof fn lemma_field_of_value(b: Seq<bool>, pos: int, v: nat, w: nat)
    requires
        0 <= pos,
        pos + w <= b.len(),
        b.subrange(pos, pos + w) == value_bits(v, w),
        v < pow2(w),
    ensures
        field(bytes_of_bits(b), pos, w) == v,
    decreases w,
{
    reveal(field);
    if w == 0 {
        lemma2_to64();
    } else {
        let u: nat = (w - 1) as nat;
        lemma_pow2_unfold(w);
        lemma_value_bits_len(v, w);
        assert(b.subrange(pos, pos + u) =~= value_bits(v, w).drop_last());
        assert(value_bits(v, w).drop_last() =~= value_bits(v / 2, u));
        lemma_field_of_value(b, pos, v / 2, u);
        lemma_packed_bit(b, pos + w - 1);
        assert(b[pos + w - 1] == b.subrange(pos, pos + w)[w - 1]);
        assert(value_bits(v, w)[w - 1] == (v % 2 == 1));
    }
}

pub proof fn lemma_fields_bits_len(fs: Seq<(u32, u32)>)
    ensures
        fields_bits(fs).len() == field_offset(fs, fs.len()),
    decreases fs.len(),
{
    if fs.len() > 0 {
        lemma_fields_bits_len(fs.drop_last());
        lemma_value_bits_len(fs.last().0 as nat, fs.last().1 as nat);
        lemma_field_offset_prefix(fs.drop_last(), fs, (fs.len() - 1) as nat);
    }
}

proof fn lemma_field_offset_prefix(a: Seq<(u32, u32)>, b: Seq<(u32, u32)>, k: nat)
    requires
        k <= a.len(),
        k <= b.len(),
        forall|i: int| 0 <= i < k ==> a[i] == b[i],
    ensures
        field_offset(a, k) == field_offset(b, k),
    decreases k,
{
    if k > 0 {
        lemma_field_offset_prefix(a, b, (k - 1) as nat);
    }
}

proof fn lemma_field_offset_monotone(fs: Seq<(u32, u32)>, j: nat, k: nat)
    requires
        j <= k,
    ensures
        field_offset(fs, j) <= field_offset(fs, k),
    decreases k,
{
    if j < k {
        lemma_field_offset_monotone(fs, j, (k - 1) as nat);
    }
}

/// Field `k` of a list is read back at its offset.
pub proof fn lemma_packed_field(fs: Seq<(u32, u32)>, k: int)
    requires
        0 <= k < fs.len(),
        (fs[k].0 as nat) < pow2(fs[k].1 as nat),
    ensures
        field(bytes_of_bits(fields_bits(fs)), field_offset(fs, k as nat) as int, fs[k].1 as nat)
            == fs[k].0,
{
    lemma_fields_slice(fs, k);
    lemma_field_of_value(
        fields_bits(fs),
        field_offset(fs, k as nat) as int,
        fs[k].0 as nat,
        fs[k].1 as nat,
    );
}

proof fn lemma_fields_slice(fs: Seq<(u32, u32)>, k: int)
    requires
        0 <= k < fs.len(),
    ensures
        field_offset(fs, k as nat) + fs[k].1 <= fields_bits(fs).len(),
        fields_bits(fs).subrange(
            field_offset(fs, k as nat) as int,
            (field_offset(fs, k as nat) + fs[k].1) as int,
        ) == value_bits(fs[k].0 as nat, fs[k].1 as nat),
    decreases fs.len(),
{
    let pre: Seq<(u32, u32)> = fs.drop_last();
    let last: Seq<bool> = value_bits(fs.last().0 as nat, fs.last().1 as nat);
    let all: Seq<bool> = fields_bits(fs);
    lemma_fields_bits_len(pre);
    lemma_fields_bits_len(fs);
    lemma_value_bits_len(fs.last().0 as nat, fs.last().1 as nat);
    lemma_field_offset_prefix(pre, fs, k as nat);
    let lo: int = field_offset(fs, k as nat) as int;
    let hi: int = lo + fs[k].1 as nat;
    if k == fs.len() - 1 {
        assert(all.subrange(lo, hi) =~= last);
    } else {
        lemma_fields_slice(pre, k);
        assert(all.subrange(lo, hi) =~= fields_bits(pre).subrange(lo, hi));
    }
}

/// Two byte strings that agree on the first `k` fields of a list agree on the
/// bits under them.
pub proof fn lemma_fields_cover(a: Seq<u8>, b: Seq<u8>, fs: Seq<(u32, u32)>, k: nat)
    requires
        k <= fs.len(),
        forall|j: int|
            0 <= j < k ==> field(a, #[trigger] field_offset(fs, j as nat) as int, fs[j].1 as nat)
                == field(b, field_offset(fs, j as nat) as int, fs[j].1 as nat),
    ensures
        forall|i: int| 0 <= i < field_offset(fs, k) ==> #[trigger] bit(a, i) == bit(b, i),
    decreases k,
{
    if k > 0 {
        let j: int = k - 1;
        let lo: int = field_offset(fs, j as nat) as int;
        lemma_fields_cover(a, b, fs, j as nat);
        lemma_field_bits(a, lo, b, lo, fs[j].1 as nat);
        assert forall|i: int| 0 <= i < field_offset(fs, k) implies #[trigger] bit(a, i) == bit(
            b,
            i,
        ) by {
            if i >= lo {
                assert(bit(a, lo + (i - lo)) == bit(b, lo + (i - lo)));
            }
        }
    }
}

/// Exchanging byte pairs twice changes nothing.
pub proof fn lemma_swapped_twice(s: Seq<u8>)
    ensures
        swapped(swapped(s)) == s,
{
    assert(swapped(swapped(s)) =~= s);
}

/// Bit `i` of `bytes`.
pub fn bit_at(bytes: &[u8], i: usize) -> (r: bool)
    requires
        i / 8 < bytes@.len(),
    ensures
        r == (bit(bytes@, i as int) == 1),
{
    proof {
        reveal(byte_bit);
    }
    let byte: u8 = bytes[i / 8];
    let top: u8 = match i % 8 {
        0 => byte / 128,
        1 => byte / 64,
        2 => byte / 32,
        3 => byte / 16,
        4 => byte / 8,
        5 => byte / 4,
        6 => byte / 2,
        _ => byte,
    };
    top % 2 == 1
}

/// The bits of `value`, `width` of them, most significant first, at the end of `bits`.
pub fn push_field(bits: &mut Vec<bool>, value: u32, width: u32)
    requires
        width <= 32,
    ensures
        final(bits)@ == old(bits)@ + value_bits(value as nat, width as nat),
{
    let ghost before: Seq<bool> = bits@;
    let mut i: u32 = width;
    proof {
        lemma2_to64();
        lemma_pow2_strictly_increases(0, 33);
        assert(value_bits(0, 0) =~= Seq::<bool>::empty());
        assert(bits@ =~= before + value_bits((value as nat) / pow2(i as nat), 0));
    }
    while i > 0
        invariant
            i <= width <= 32,
            bits@ == before + value_bits(
                (value as nat) / pow2(i as nat),
                (width - i) as nat,
            ),
        decreases i,
    {
        i = i - 1;
        let part: u32 = value >> i;
        bits.push(part % 2 == 1);
        proof {
            lemma_u32_shr_is_div(value, i);
            lemma_pow2_pos(i as nat);
            lemma_pow2_unfold((i + 1) as nat);
            vstd::arithmetic::div_mod::lemma_div_denominator(
                value as int,
                pow2(i as nat) as int,
                2,
            );
            assert(pow2(i as nat) * 2 == pow2((i + 1) as nat));
            assert((part as nat) / 2 == (value as nat) / pow2((i + 1) as nat));
            assert(bits@ =~= before + value_bits(part as nat, (width - i) as nat));
        }
    }
    proof {
        lemma2_to64();
        assert((value as nat) / 1 == value as nat);
    }
}

/// The list of `(value, width)` fields packed into bytes.
pub fn pack_fields(fields: &[(u32, u32)]) -> (r: Vec<u8>)
    requires
        forall|k: int| 0 <= k < fields@.len() ==> (#[trigger] fields@[k]).1 <= 32,
    ensures
        r@ == bytes_of_bits(fields_bits(fields@)),
{
    let mut bits: Vec<bool> = Vec::new();
    let mut k: usize = 0;
    assert(fields@.subrange(0, 0) =~= Seq::<(u32, u32)>::empty());
    while k < fields.len()
        invariant
            k <= fields@.len(),
            forall|j: int| 0 <= j < fields@.len() ==> (#[trigger] fields@[j]).1 <= 32,
            bits@ == fields_bits(fields@.subrange(0, k as int)),
        decreases fields@.len() - k,
    {
        push_field(&mut bits, fields[k].0, fields[k].1);
        proof {
            let done: Seq<(u32, u32)> = fields@.subrange(0, k + 1);
            assert(done.drop_last() =~= fields@.subrange(0, k as int));
            assert(done.last() == fields@[k as int]);
        }
        k = k + 1;
    }
    assert(fields@.subrange(0, k as int) =~= fields@);
    bits_to_bytes(&bits)
}

/// A bit string packed into bytes, the last byte filled up with zero bits.
pub fn bits_to_bytes(bits: &[bool]) -> (r: Vec<u8>)
    ensures
        r@ == bytes_of_bits(bits@),
{
    let mut out: Vec<u8> = Vec::new();
    let mut p: usize = 0;
    let n: usize = bits.len();
    while p < n
        invariant
            n == bits@.len(),
            p <= n,
            p < n ==> p == 8 * out@.len(),
            p == n ==> out@.len() == (n + 7) / 8,
            out@.len() <= (n + 7) / 8,
            forall|j: int| 0 <= j < out@.len() ==> out@[j] == byte_of(bits@, 8 * j),
        decreases n - p,
    {
        let left: usize = n - p;
        let mut b: u8 = 0;
        if bits[p] {
            b = b + 128;
        }
        if left > 1 && bits[p + 1] {
            b = b + 64;
        }
        if left > 2 && bits[p + 2] {
            b = b + 32;
        }
        if left > 3 && bits[p + 3] {
            b = b + 16;
        }
        if left > 4 && bits[p + 4] {
            b = b + 8;
        }
        if left > 5 && bits[p + 5] {
            b = b + 4;
        }
        if left > 6 && bits[p + 6] {
            b = b + 2;
        }
        if left > 7 && bits[p + 7] {
            b = b + 1;
        }
        assert(b == byte_of(bits@, p as int)) by {
            reveal(byte_of);
        }
        out.push(b);
        if left > 8 {
            p = p + 8;
        } else {
            p = n;
        }
    }
    assert(out@ =~= bytes_of_bits(bits@));
    out
}

} // verus!
