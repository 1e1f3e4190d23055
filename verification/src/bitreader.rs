//! A cursor over the bits of a byte string.

use crate::bits::{bit, bit_at, field, flag, lemma_bit_bound, lemma_field_bound};
use crate::error::Error;
use vstd::arithmetic::power2::{lemma2_to64, lemma_pow2_strictly_increases};
use vstd::prelude::*;

verus! {

/// Reads fields of up to 32 bits, most significant bit first.
#[derive(Debug)]
pub struct BitReader<'a> {
    bytes: &'a [u8],
    pos: usize,
}

impl<'a> BitReader<'a> {
    /// The bytes that are read.
    pub closed spec fn data(&self) -> Seq<u8> {
        self.bytes@
    }

    /// The position of the next bit.
    pub closed spec fn at(&self) -> nat {
        self.pos as nat
    }

    /// The number of bits fits in a `usize`.
    pub open spec fn wf(&self) -> bool {
        8 * self.data().len() <= usize::MAX
    }

    /// A reader on the first bit of `bytes`.
    pub fn new(bytes: &'a [u8]) -> (r: Self)
        requires
            8 * bytes@.len() <= usize::MAX,
        ensures
            r.wf(),
            r.data() == bytes@,
            r.at() == 0,
    {
        BitReader { bytes, pos: 0 }
    }

    /// A reader on the first bit of byte `byte_offset`.
    pub fn from_byte_offset(bytes: &'a [u8], byte_offset: usize) -> (r: Self)
        requires
            8 * bytes@.len() <= usize::MAX,
            8 * byte_offset <= usize::MAX,
        ensures
            r.wf(),
            r.data() == bytes@,
            r.at() == 8 * byte_offset,
    {
        BitReader { bytes, pos: byte_offset * 8 }
    }

    /// A reader on bit `bit_offset`.
    pub fn from_bit_offset(bytes: &'a [u8], bit_offset: usize) -> (r: Self)
        requires
            8 * bytes@.len() <= usize::MAX,
        ensures
            r.wf(),
            r.data() == bytes@,
            r.at() == bit_offset,
    {
        BitReader { bytes, pos: bit_offset }
    }

    /// The next `n` bits as a number. Without `n` bits left nothing is read.
    pub fn read_bits(&mut self, n: u32) -> (r: Result<u32, Error>)
        requires
            old(self).wf(),
            1 <= n <= 32,
        ensures
            final(self).wf(),
            final(self).data() == old(self).data(),
            match r {
                Ok(v) => {
                    &&& old(self).at() + n <= 8 * old(self).data().len()
                    &&& v == field(old(self).data(), old(self).at() as int, n as nat)
                    &&& final(self).at() == old(self).at() + n
                },
                Err(e) => {
                    &&& old(self).at() + n > 8 * old(self).data().len()
                    &&& e == Error::UnexpectedEof
                    &&& final(self).at() == old(self).at()
                },
            },
    {
        let total: usize = self.bytes.len() * 8;
        if self.pos > total || total - self.pos < n as usize {
            return Err(Error::UnexpectedEof);
        }
        let mut value: u32 = 0;
        let mut done: u32 = 0;
        let ghost start: nat = self.at();
        let ghost data: Seq<u8> = self.data();
        proof {
            reveal(field);
            lemma2_to64();
        }
        while done < n
            invariant
                done <= n <= 32,
                self.wf(),
                self.data() == data,
                self.at() == start + done,
                start + n <= 8 * data.len(),
                value == field(data, start as int, done as nat),
            decreases n - done,
        {
            let one: u32 = if bit_at(self.bytes, self.pos) {
                1
            } else {
                0
            };
            proof {
                reveal(field);
                lemma_bit_bound(data, start + done);
                lemma_field_bound(data, start as int, done as nat);
                lemma_field_bound(data, start as int, (done + 1) as nat);
                if done < 31 {
                    lemma_pow2_strictly_increases(
                        (done + 1) as nat,
                        32,
                    );
                }
                lemma2_to64();
                assert(field(data, start as int, (done + 1) as nat) == 2 * value + one);
            }
            value = value * 2 + one;
            self.pos = self.pos + 1;
            done = done + 1;
        }
        Ok(value)
    }

    /// The next bit as a flag.
    pub fn read_bit(&mut self) -> (r: Result<bool, Error>)
        requires
            old(self).wf(),
        ensures
            final(self).wf(),
            final(self).data() == old(self).data(),
            match r {
                Ok(v) => {
                    &&& old(self).at() + 1 <= 8 * old(self).data().len()
                    &&& v == flag(old(self).data(), old(self).at() as int)
                    &&& final(self).at() == old(self).at() + 1
                },
                Err(e) => {
                    &&& old(self).at() + 1 > 8 * old(self).data().len()
                    &&& e == Error::UnexpectedEof
                    &&& final(self).at() == old(self).at()
                },
            },
    {
        proof {
            reveal(flag);
        }
        Ok(self.read_bits(1)? == 1)
    }

    /// The position of the next bit, counted from the first byte.
    pub fn position_bits(&self) -> (r: usize)
        ensures
            r == self.at(),
    {
        self.pos
    }

    /// The position of the next bit, counted from the first byte.
    pub fn absolute_bit_position(&self) -> (r: usize)
        ensures
            r == self.at(),
    {
        self.pos
    }

    /// The bytes that are read.
    pub fn backing_bytes(&self) -> (r: &'a [u8])
        ensures
            r@ == self.data(),
    {
        self.bytes
    }

    /// Moves past `n` bits. Without `n` bits left the reader stays where it is.
    pub fn skip_bits(&mut self, n: u32) -> (r: Result<(), Error>)
        requires
            old(self).wf(),
        ensures
            final(self).wf(),
            final(self).data() == old(self).data(),
            match r {
                Ok(_) => {
                    &&& old(self).at() + n <= 8 * old(self).data().len()
                    &&& final(self).at() == old(self).at() + n
                },
                Err(e) => {
                    &&& old(self).at() + n > 8 * old(self).data().len()
                    &&& e == Error::UnexpectedEof
                    &&& final(self).at() == old(self).at()
                },
            },
    {
        let total: usize = self.bytes.len() * 8;
        if self.pos > total || total - self.pos < n as usize {
            return Err(Error::UnexpectedEof);
        }
        self.pos = self.pos + n as usize;
        Ok(())
    }
}

/// The number in the `n` bits of `bytes` that start at bit `pos`.
pub fn field_at(bytes: &[u8], pos: usize, n: u32) -> (r: u32)
    requires
        8 * bytes@.len() <= usize::MAX,
        1 <= n <= 32,
        pos + n <= 8 * bytes@.len(),
    ensures
        r == field(bytes@, pos as int, n as nat),
{
    let mut br = BitReader { bytes, pos };
    match br.read_bits(n) {
        Ok(v) => v,
        Err(_) => 0,
    }
}

/// The bit of `bytes` at `pos` as a flag.
pub fn flag_at(bytes: &[u8], pos: usize) -> (r: bool)
    requires
        8 * bytes@.len() <= usize::MAX,
        pos < 8 * bytes@.len(),
    ensures
        r == flag(bytes@, pos as int),
{
    proof {
        reveal(flag);
    }
    field_at(bytes, pos, 1) == 1
}

} // verus!
