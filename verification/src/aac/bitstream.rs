//! Bit reader over AAC bitstreams, most significant bit first.
use vstd::prelude::*;
use vstd::arithmetic::power2::{pow2, lemma2_to64};
use crate::error::{Error, Result};
use crate::h264::nal::{bit_at, bits_value, lemma_bits_value_bound};

verus! {

/// The two's-complement value of the `n`-bit pattern `v`.
pub open spec fn sign_extend(v: nat, n: nat) -> int {
    if n >= 1 && v >= pow2((n - 1) as nat) { v - pow2(n) } else { v as int }
}

/// Reads bits from a byte slice, most significant bit of each byte first.
pub struct BitReader<'a> {
    data: &'a [u8],
    byte_pos: usize,
    bit_pos: u8,
}

impl<'a> BitReader<'a> {
    /// The bytes being read.
    pub closed spec fn bytes(&self) -> Seq<u8> {
        self.data@
    }

    /// The position in bits from the start.
    pub closed spec fn pos(&self) -> int {
        self.byte_pos * 8 + self.bit_pos
    }

    /// The byte and bit positions of the reader.
    pub closed spec fn positions(&self) -> (int, int) {
        (self.byte_pos as int, self.bit_pos as int)
    }

    /// The position lies within the data, or just past it after a final alignment.
    pub closed spec fn wf(&self) -> bool {
        &&& self.bit_pos < 8
        &&& self.data.len() == self.data@.len()
        &&& (self.byte_pos < self.data@.len() || (self.byte_pos == self.data@.len() && self.bit_pos == 0))
        &&& self.pos() == self.positions().0 * 8 + self.positions().1
    }

    /// Facts about the position of a well-formed reader.
    pub proof fn lemma_wf(&self)
        requires
            self.wf(),
        ensures
            0 <= self.positions().1 < 8,
            self.pos() == self.positions().0 * 8 + self.positions().1,
            0 <= self.positions().0,
            self.positions().0 <= self.bytes().len(),
            self.positions().0 == self.bytes().len() ==> self.positions().1 == 0,
            0 <= self.pos() <= self.bytes().len() * 8,
    {
    }

    /// A reader at the first bit of `data`.
    pub fn new(data: &'a [u8]) -> (r: BitReader<'a>)
        ensures
            r.wf(),
            r.bytes() == data@,
            r.pos() == 0,
            r.positions() == (0int, 0int),
    {
        BitReader { data, byte_pos: 0, bit_pos: 0 }
    }

    fn read_one(&mut self) -> (r: Result<u8>)
        requires
            old(self).wf(),
        ensures
            final(self).wf(),
            final(self).bytes() == old(self).bytes(),
            old(self).pos() < old(self).bytes().len() * 8 ==>
                (r matches Ok(b) && b == bit_at(old(self).bytes(), old(self).pos()) && b <= 1
                && final(self).pos() == old(self).pos() + 1),
            old(self).pos() >= old(self).bytes().len() * 8 ==> (r matches Err(e) && e.is_invalid() && *final(self) == *old(self)),
    {
        if self.byte_pos >= self.data.len() {
            return Err(Error::invalid("AAC", "Bitstream underrun"));
        }
        let byte = self.data[self.byte_pos];
        let bit = (byte >> (7 - self.bit_pos)) & 1;
        proof {
            let p = self.byte_pos * 8 + self.bit_pos;
            assert(p / 8 == self.byte_pos as int && p % 8 == self.bit_pos as int);
            let sh = (7 - self.bit_pos) as u8;
            assert((byte >> sh) & 1u8 <= 1u8) by (bit_vector);
        }
        self.bit_pos += 1;
        if self.bit_pos == 8 {
            self.bit_pos = 0;
            self.byte_pos += 1;
        }
        Ok(bit)
    }

    /// Read `n` bits (at most 32) as an unsigned value. Running out of data fails
    /// and leaves the reader at the end of the data.
    pub fn read_bits(&mut self, n: u8) -> (r: Result<u32>)
        requires
            old(self).wf(),
        ensures
            final(self).wf(),
            final(self).bytes() == old(self).bytes(),
            n > 32 ==> (r matches Err(e) && e.is_invalid() && *final(self) == *old(self)),
            n <= 32 && old(self).pos() + n <= old(self).bytes().len() * 8 ==>
                (r matches Ok(v) && v == bits_value(old(self).bytes(), old(self).pos(), n as nat)
                && final(self).pos() == old(self).pos() + n),
            n <= 32 && old(self).pos() + n > old(self).bytes().len() * 8 ==>
                (r matches Err(e) && e.is_invalid() && final(self).pos() == old(self).bytes().len() * 8),
    {
        if n > 32 {
            return Err(Error::invalid("AAC", "Cannot read more than 32 bits"));
        }
        let ghost start = self.pos();
        let mut value: u32 = 0;
        let mut k: u8 = 0;
        while k < n
            invariant
                self.wf(),
                self.bytes() == old(self).bytes(),
                start == old(self).pos(),
                k <= n <= 32,
                self.pos() == start + k,
                value == bits_value(self.bytes(), start, k as nat),
            decreases n - k,
        {
            proof {
                lemma_bits_value_bound(self.bytes(), start, k as nat);
                assert(pow2(k as nat) <= pow2(31)) by {
                    if k < 31 {
                        vstd::arithmetic::power2::lemma_pow2_strictly_increases(k as nat, 31);
                    }
                }
                lemma2_to64();
                self.lemma_wf();
            }
            let b = match self.read_one() {
                Ok(b) => b,
                Err(e) => {
                    return Err(e);
                },
            };
            value = value * 2 + b as u32;
            k += 1;
        }
        Ok(value)
    }

    /// Read one bit as a flag.
    pub fn read_bool(&mut self) -> (r: Result<bool>)
        requires
            old(self).wf(),
        ensures
            final(self).wf(),
            final(self).bytes() == old(self).bytes(),
            old(self).pos() < old(self).bytes().len() * 8 ==>
                (r matches Ok(b) && b == (bit_at(old(self).bytes(), old(self).pos()) != 0)
                && final(self).pos() == old(self).pos() + 1),
            old(self).pos() >= old(self).bytes().len() * 8 ==> r is Err,
    {
        proof {
            reveal_with_fuel(bits_value, 2);
        }
        let v = self.read_bits(1)?;
        Ok(v != 0)
    }

    /// Read `n` bits as a two's-complement signed value.
    pub fn read_signed(&mut self, n: u8) -> (r: Result<i32>)
        requires
            old(self).wf(),
            n >= 1,
            n == 32 && old(self).pos() + 32 <= old(self).bytes().len() * 8 ==>
                bits_value(old(self).bytes(), old(self).pos(), 32) < 0x8000_0000,
        ensures
            final(self).wf(),
            final(self).bytes() == old(self).bytes(),
            n <= 32 && old(self).pos() + n <= old(self).bytes().len() * 8 ==>
                (r matches Ok(v) && v == sign_extend(bits_value(old(self).bytes(), old(self).pos(), n as nat), n as nat)
                && final(self).pos() == old(self).pos() + n),
            n > 32 ==> r is Err,
            n <= 32 && old(self).pos() + n > old(self).bytes().len() * 8 ==>
                (r is Err && final(self).pos() == old(self).bytes().len() * 8),
    {
        let ghost start = self.pos();
        let value = self.read_bits(n)?;
        proof {
            lemma_bits_value_bound(self.bytes(), start, n as nat);
            lemma2_to64();
        }
        if n == 32 {
            return Ok(value as i32);
        }
        let full: u64 = 1u64 << n;
        let half: u64 = 1u64 << (n - 1);
        proof {
            vstd::bits::lemma_u64_shl_is_mul(1, n as u64);
            vstd::bits::lemma_u64_shl_is_mul(1, (n - 1) as u64);
            vstd::arithmetic::power2::lemma_pow2_unfold(n as nat);
            if n < 31 {
                vstd::arithmetic::power2::lemma_pow2_strictly_increases(n as nat, 31);
            }
        }
        if (value as u64) >= half {
            Ok(((value as i64) - (full as i64)) as i32)
        } else {
            Ok(value as i32)
        }
    }

    /// Skip to the next byte boundary.
    pub fn byte_align(&mut self)
        requires
            old(self).wf(),
        ensures
            final(self).wf(),
            final(self).bytes() == old(self).bytes(),
            final(self).positions() == (if old(self).positions().1 == 0 { old(self).positions() }
                else { (old(self).positions().0 + 1, 0int) }),
    {
        if self.bit_pos != 0 {
            self.bit_pos = 0;
            self.byte_pos += 1;
        }
    }

    /// The bits left to read: none past the data, else the rest of the bytes less the
    /// bits already taken from the current one.
    pub fn bits_remaining(&self) -> (r: usize)
        requires
            self.wf(),
            self.bytes().len() * 8 <= usize::MAX,
        ensures
            r == (if self.positions().0 >= self.bytes().len() { 0 }
                else { (self.bytes().len() - self.positions().0) * 8 - self.positions().1 }),
            r == self.bytes().len() * 8 - self.pos(),
    {
        if self.byte_pos >= self.data.len() {
            0
        } else {
            (self.data.len() - self.byte_pos) * 8 - (self.bit_pos as usize)
        }
    }

    /// The index of the current byte.
    pub fn byte_position(&self) -> (r: usize)
        ensures
            r == self.positions().0,
    {
        self.byte_pos
    }

    /// The index of the next bit within the current byte.
    pub fn bit_position(&self) -> (r: u8)
        ensures
            r == self.positions().1,
    {
        self.bit_pos
    }
}


/// Reading `n` bits takes exactly `n` from what `BitReader::bits_remaining` counts:
/// that count is the bits of the data less the position, and a successful
/// `BitReader::read_bits` of `n` bits moves the position on by `n`.
pub proof fn lemma_read_takes_remaining(before: BitReader, after: BitReader, n: nat)
    requires
        before.wf(),
        after.wf(),
        after.bytes() == before.bytes(),
        after.pos() == before.pos() + n,
    ensures
        after.bytes().len() * 8 - after.pos() == (before.bytes().len() * 8 - before.pos()) - n,
        n <= before.bytes().len() * 8 - before.pos(),
{
    after.lemma_wf();
}

/// Bits are read most significant first: the eight bits that start at a byte
/// boundary are that byte's value, and the first of them is its top bit.
pub proof fn lemma_byte_read_msb_first(s: Seq<u8>, k: int)
    requires
        0 <= k < s.len(),
    ensures
        bits_value(s, 8 * k, 8) == s[k] as nat,
        bits_value(s, 8 * k, 1) == (s[k] / 128) as nat,
{
    let b = s[k];
    reveal_with_fuel(bits_value, 9);
    assert forall|j: int| 0 <= j < 8 implies #[trigger] bit_at(s, 8 * k + j) == (b >> ((7 - j) as u8)) & 1u8 by {
        assert((8 * k + j) / 8 == k && (8 * k + j) % 8 == j);
    }
    let (b0, b1, b2, b3) = (bit_at(s, 8 * k), bit_at(s, 8 * k + 1), bit_at(s, 8 * k + 2), bit_at(s, 8 * k + 3));
    let (b4, b5, b6, b7) = (bit_at(s, 8 * k + 4), bit_at(s, 8 * k + 5), bit_at(s, 8 * k + 6), bit_at(s, 8 * k + 7));
    assert(b == b0 * 128 + b1 * 64 + b2 * 32 + b3 * 16 + b4 * 8 + b5 * 4 + b6 * 2 + b7 && b0 == b / 128) by (bit_vector)
        requires
            b0 == (b >> 7u8) & 1u8, b1 == (b >> 6u8) & 1u8, b2 == (b >> 5u8) & 1u8, b3 == (b >> 4u8) & 1u8,
            b4 == (b >> 3u8) & 1u8, b5 == (b >> 2u8) & 1u8, b6 == (b >> 1u8) & 1u8, b7 == (b >> 0u8) & 1u8;
}

} // verus!
