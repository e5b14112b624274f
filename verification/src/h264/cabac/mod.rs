//! CABAC: context models, the binary arithmetic decoding engine, and the
//! unary, truncated unary and Exp-Golomb binarizations.
use vstd::prelude::*;
use crate::error::{Error, Result};
use super::nal::bit_at;

pub mod binarization;

verus! {

/// A context model: probability state index and most probable symbol.
#[derive(Debug, Clone, Copy, PartialEq, Eq, Structural)]
pub struct CabacContext {
    pub state: u8,
    pub mps: u8,
}

/// Next state after a least probable symbol.
pub open spec fn trans_idx_lps() -> Seq<u8> {
    seq![0u8, 0, 1, 2, 2, 4, 4, 5, 6, 7, 8, 9, 9, 11, 11, 12,
        13, 13, 15, 15, 16, 16, 18, 18, 19, 19, 21, 21, 22, 22, 23, 24,
        24, 25, 26, 26, 27, 27, 28, 29, 29, 30, 30, 30, 31, 32, 32, 33,
        33, 33, 34, 34, 35, 35, 35, 36, 36, 36, 37, 37, 37, 38, 38, 63]
}

/// Next state after a most probable symbol.
pub open spec fn trans_idx_mps() -> Seq<u8> {
    seq![1u8, 2, 3, 4, 5, 6, 7, 8, 9, 10, 11, 12, 13, 14, 15, 16,
        17, 18, 19, 20, 21, 22, 23, 24, 25, 26, 27, 28, 29, 30, 31, 32,
        33, 34, 35, 36, 37, 38, 39, 40, 41, 42, 43, 44, 45, 46, 47, 48,
        49, 50, 51, 52, 53, 54, 55, 56, 57, 58, 59, 60, 61, 62, 62, 63]
}

/// A context whose state indexes the transition tables and whose most probable
/// symbol is a bit.
pub open spec fn ctx_ok(c: CabacContext) -> bool {
    c.state < 64 && c.mps <= 1
}

/// The context after decoding `bin`: the state moves by the table of the symbol
/// seen, and a least probable symbol at state 0 swaps the most probable one.
pub open spec fn updated(c: CabacContext, bin: u8) -> CabacContext {
    if bin == c.mps {
        CabacContext { state: trans_idx_mps()[c.state as int], mps: c.mps }
    } else {
        CabacContext {
            state: trans_idx_lps()[c.state as int],
            mps: if c.state == 0 { (1 - c.mps) as u8 } else { c.mps },
        }
    }
}

/// Updating a valid context keeps it valid.
pub proof fn lemma_updated_ok(c: CabacContext, bin: u8)
    requires
        ctx_ok(c),
    ensures
        ctx_ok(updated(c, bin)),
{
    assert(trans_idx_lps()[c.state as int] < 64);
    assert(trans_idx_mps()[c.state as int] < 64);
}

/// The adaptation of a context: on the most probable symbol a state below 63 moves
/// up by one, to at most 62, and the most probable symbol stays; on the least
/// probable symbol the most probable symbol changes exactly when the state is 0.
pub proof fn lemma_update_law(c: CabacContext, bin: u8)
    requires
        ctx_ok(c),
    ensures
        bin == c.mps && c.state < 63 ==> updated(c, bin).state == (if c.state < 62 { c.state + 1 } else { 62 })
            && updated(c, bin).mps == c.mps,
        bin != c.mps ==> (updated(c, bin).mps != c.mps <==> c.state == 0),
{
    assert(trans_idx_mps() =~= Seq::new(64, |i: int| if i < 62 { (i + 1) as u8 } else if i == 62 { 62u8 } else { 63u8 }));
}

impl CabacContext {
    /// A context with the state capped at 63 and the low bit of `mps`.
    pub fn new(state: u8, mps: u8) -> (c: CabacContext)
        ensures
            c.state == (if state < 63 { state } else { 63 }),
            c.mps == mps % 2,
            ctx_ok(c),
    {
        let m = mps & 1;
        assert(mps & 1 == mps % 2) by (bit_vector);
        CabacContext { state: if state < 63 { state } else { 63 }, mps: m }
    }

    /// The initial context for a slice QP. With zero slope and offset the
    /// pre-state clamps to 1, so every context starts at state 62 with MPS 0.
    pub fn init(ctx_idx: usize, slice_qp: i32) -> (c: CabacContext)
        ensures
            c.state == 62,
            c.mps == 0,
    {
        let m: i32 = 0;
        let n: i32 = 0;
        let scaled: i32 = m * slice_qp;
        let pre = (scaled >> 4) + n;
        assert(pre == 0) by (bit_vector)
            requires scaled == 0i32, n == 0i32, pre == (scaled >> 4) + n;
        let pre = if pre < 1 { 1 } else if pre > 126 { 126 } else { pre };
        if pre <= 63 {
            CabacContext::new((63 - pre) as u8, 0)
        } else {
            CabacContext::new((pre - 64) as u8, 1)
        }
    }

    /// Move to the next state after decoding `bin_val`.
    pub fn update(&mut self, bin_val: u8)
        requires
            old(self).state < 64,
            bin_val != old(self).mps && old(self).state == 0 ==> old(self).mps <= 1,
        ensures
            *final(self) == updated(*old(self), bin_val),
    {
        let lps: [u8; 64] = [
            0, 0, 1, 2, 2, 4, 4, 5, 6, 7, 8, 9, 9, 11, 11, 12,
            13, 13, 15, 15, 16, 16, 18, 18, 19, 19, 21, 21, 22, 22, 23, 24,
            24, 25, 26, 26, 27, 27, 28, 29, 29, 30, 30, 30, 31, 32, 32, 33,
            33, 33, 34, 34, 35, 35, 35, 36, 36, 36, 37, 37, 37, 38, 38, 63,
        ];
        let mps_tab: [u8; 64] = [
            1, 2, 3, 4, 5, 6, 7, 8, 9, 10, 11, 12, 13, 14, 15, 16,
            17, 18, 19, 20, 21, 22, 23, 24, 25, 26, 27, 28, 29, 30, 31, 32,
            33, 34, 35, 36, 37, 38, 39, 40, 41, 42, 43, 44, 45, 46, 47, 48,
            49, 50, 51, 52, 53, 54, 55, 56, 57, 58, 59, 60, 61, 62, 62, 63,
        ];
        assert(lps@ =~= trans_idx_lps());
        assert(mps_tab@ =~= trans_idx_mps());
        if bin_val == self.mps {
            self.state = mps_tab[self.state as usize];
        } else {
            if self.state == 0 {
                self.mps = 1 - self.mps;
            }
            self.state = lps[self.state as usize];
        }
    }
}

/// The LPS sub-range for a state and quantized range: only the rows of states
/// 0 and 63 are filled; every other row is zero.
pub open spec fn range_lps(state: u8, idx: int) -> u16 {
    if state == 0 {
        if idx == 0 { 128 } else if idx == 1 { 176 } else if idx == 2 { 208 } else { 240 }
    } else if state == 63 {
        2
    } else {
        0
    }
}

/// `x` shifted left by one within 16 bits, with `b` as its new low bit.
pub open spec fn shifted(x: u16, b: u8) -> u16 {
    ((x as int * 2) % 0x10000 + b) as u16
}

/// Renormalization from bit `pos`: while the range is below 256, double range and
/// offset, shifting the next bit into the offset; `None` when the data ends first.
/// The result is the position, range and offset after it.
pub open spec fn renorm(s: Seq<u8>, pos: int, range: u16, offset: u16) -> Option<(int, u16, u16)>
    decreases s.len() * 8 - pos,
{
    if range >= 0x100 {
        Some((pos, range, offset))
    } else if pos < 0 || pos >= s.len() * 8 {
        None
    } else {
        renorm(s, pos + 1, shifted(range, 0), shifted(offset, bit_at(s, pos)))
    }
}

/// One context-coded bin from engine state `e` (position, range, offset): the bin,
/// the engine state after renormalization and the updated context.
pub open spec fn decision(s: Seq<u8>, e: (int, u16, u16), c: CabacContext) -> Option<(u8, (int, u16, u16), CabacContext)> {
    let (pos, range, offset) = e;
    let lps = range_lps(c.state, (range / 64) as int % 4);
    let rmps = (range - lps) as u16;
    let (bin, r1, o1) = if offset >= rmps {
        ((1 - c.mps) as u8, lps, (offset - rmps) as u16)
    } else {
        (c.mps, rmps, offset)
    };
    match renorm(s, pos, r1, o1) {
        None => None,
        Some(e2) => Some((bin, e2, updated(c, bin))),
    }
}

/// One bypass bin: the offset takes the next bit, and the bin is whether it
/// reaches the range (which is then taken off).
pub open spec fn bypass(s: Seq<u8>, e: (int, u16, u16)) -> Option<(u8, (int, u16, u16))> {
    let (pos, range, offset) = e;
    if pos < 0 || pos >= s.len() * 8 {
        None
    } else {
        let o = shifted(offset, bit_at(s, pos));
        if o >= range {
            Some((1u8, (pos + 1, range, (o - range) as u16)))
        } else {
            Some((0u8, (pos + 1, range, o)))
        }
    }
}

/// The terminating bin: the range drops by two; the bin is 1, with no
/// renormalization, when the offset reaches the new range.
pub open spec fn terminate(s: Seq<u8>, e: (int, u16, u16)) -> Option<(u8, (int, u16, u16))> {
    let (pos, range, offset) = e;
    let r = (range - 2) as u16;
    if offset >= r {
        Some((1u8, (pos, r, offset)))
    } else {
        match renorm(s, pos, r, offset) {
            None => None,
            Some(e2) => Some((0u8, e2)),
        }
    }
}

/// Renormalization leaves the range at least 256 and moves forward within the data.
pub proof fn lemma_renorm(s: Seq<u8>, pos: int, range: u16, offset: u16)
    requires
        0 <= pos <= s.len() * 8,
    ensures
        renorm(s, pos, range, offset) matches Some((p, r, o)) ==> r >= 0x100 && pos <= p <= s.len() * 8,
    decreases s.len() * 8 - pos,
{
    if range < 0x100 && pos < s.len() * 8 {
        lemma_renorm(s, pos + 1, shifted(range, 0), shifted(offset, bit_at(s, pos)));
    }
}

/// The arithmetic decoding engine over a byte slice.
pub struct CabacDecoder<'a> {
    data: &'a [u8],
    byte_pos: usize,
    bit_pos: u8,
    range: u16,
    offset: u16,
}

impl<'a> CabacDecoder<'a> {
    /// The bytes being decoded.
    pub closed spec fn bytes(&self) -> Seq<u8> {
        self.data@
    }

    /// The engine state: bit position, range and offset.
    pub closed spec fn engine(&self) -> (int, u16, u16) {
        (self.byte_pos * 8 + self.bit_pos, self.range, self.offset)
    }

    /// The position lies within the data.
    pub closed spec fn pos_ok(&self) -> bool {
        &&& self.bit_pos < 8
        &&& self.data.len() == self.data@.len()
        &&& (self.byte_pos < self.data@.len() || (self.byte_pos == self.data@.len() && self.bit_pos == 0))
    }

    /// The position lies within the data and the range is normalized (at least 256).
    pub open spec fn wf(&self) -> bool {
        &&& self.pos_ok()
        &&& self.engine().1 >= 0x100
        &&& 0 <= self.engine().0 <= self.bytes().len() * 8
    }

    /// A decoder whose position lies within the data and whose range is normalized
    /// is well formed.
    pub proof fn lemma_wf(&self)
        requires
            self.pos_ok(),
            self.engine().1 >= 0x100,
        ensures
            self.wf(),
    {
    }

    /// An engine on `data` after its first nine bits were read into the offset,
    /// with the range at 0x1FE; fewer than two bytes are refused.
    pub fn new(data: &'a [u8]) -> (r: Result<CabacDecoder<'a>>)
        ensures
            data@.len() < 2 <==> r is Err,
            r matches Ok(d) ==> d.wf() && d.bytes() == data@
                && d.engine() == (9int, 0x1FEu16, initial_offset(data@)),
    {
        if data.len() < 2 {
            return Err(Error::invalid("CABAC", "Insufficient data for initialization"));
        }
        let mut decoder = CabacDecoder { data, byte_pos: 0, bit_pos: 0, range: 0x01FE, offset: 0 };
        let mut i: usize = 0;
        while i < 9
            invariant
                i <= 9,
                decoder.pos_ok(),
                decoder.data@ == data@,
                data@.len() >= 2,
                decoder.range == 0x1FE,
                decoder.engine().0 == i as int,
                decoder.offset == offset_bits(data@, i as int),
            decreases 9 - i,
        {
            proof { lemma_bit(data@, i as int); }
            let b = decoder.read_bit()?;
            decoder.offset = shift_in(decoder.offset, b);
            i += 1;
        }
        Ok(decoder)
    }

    /// Read one bit.
    fn read_bit(&mut self) -> (r: Result<bool>)
        requires
            old(self).pos_ok(),
        ensures
            final(self).pos_ok(),
            final(self).data@ == old(self).data@,
            final(self).range == old(self).range,
            final(self).offset == old(self).offset,
            old(self).engine().0 < old(self).bytes().len() * 8 ==>
                (r matches Ok(b) && b == (bit_at(old(self).bytes(), old(self).engine().0) == 1)
                && final(self).engine().0 == old(self).engine().0 + 1),
            old(self).engine().0 >= old(self).bytes().len() * 8 ==> r is Err,
    {
        if self.byte_pos >= self.data.len() {
            return Err(Error::invalid("CABAC", "Unexpected end of data"));
        }
        let byte = self.data[self.byte_pos];
        let sh = 7 - self.bit_pos;
        let bit = (byte >> sh) & 1;
        assert(bit <= 1) by (bit_vector)
            requires bit == (byte >> sh) & 1u8;
        proof {
            let p = self.byte_pos * 8 + self.bit_pos;
            assert(p / 8 == self.byte_pos as int && p % 8 == self.bit_pos as int);
        }
        self.bit_pos += 1;
        if self.bit_pos == 8 {
            self.bit_pos = 0;
            self.byte_pos += 1;
        }
        Ok(bit != 0)
    }

    /// Double range and offset until the range is at least 256, shifting bits into
    /// the offset.
    fn renormalize(&mut self) -> (r: Result<()>)
        requires
            old(self).pos_ok(),
            0 <= old(self).engine().0 <= old(self).bytes().len() * 8,
        ensures
            final(self).data@ == old(self).data@,
            match renorm(old(self).bytes(), old(self).engine().0, old(self).range, old(self).offset) {
                Some(e) => r is Ok && final(self).engine() == e && final(self).wf(),
                None => r is Err,
            },
    {
        let ghost s = self.bytes();
        let ghost target = renorm(s, self.engine().0, self.range, self.offset);
        proof { lemma_renorm(s, self.engine().0, self.range, self.offset); }
        while self.range < 0x0100
            invariant
                self.pos_ok(),
                self.data@ == s,
                s == old(self).data@,
                target == renorm(old(self).bytes(), old(self).engine().0, old(self).range, old(self).offset),
                0 <= self.engine().0 <= s.len() * 8,
                renorm(s, self.engine().0, self.range, self.offset) == target,
            decreases s.len() * 8 - self.engine().0,
        {
            let ghost e0 = self.engine();
            proof {
                lemma_bit(s, e0.0);
                if e0.0 >= s.len() * 8 {
                    assert(target is None);
                }
            }
            self.range = shift_in(self.range, false);
            let b = self.read_bit()?;
            self.offset = shift_in(self.offset, b);
            assert(renorm(s, e0.0, e0.1, e0.2) == renorm(s, e0.0 + 1, shifted(e0.1, 0), shifted(e0.2, bit_at(s, e0.0))));
        }
        Ok(())
    }

    /// Decode one context-coded bin and update the context.
    pub fn decode_decision(&mut self, ctx: &mut CabacContext) -> (r: Result<u8>)
        requires
            old(self).wf(),
            ctx_ok(*old(ctx)),
        ensures
            final(self).bytes() == old(self).bytes(),
            match decision(old(self).bytes(), old(self).engine(), *old(ctx)) {
                Some((b, e, c)) => r == Ok::<u8, Error>(b) && final(self).engine() == e && final(self).wf()
                    && *final(ctx) == c && ctx_ok(c),
                None => r is Err,
            },
    {
        let range = self.range;
        let idx = (range >> 6) & 3;
        assert(idx == (range / 64) % 4) by (bit_vector)
            requires idx == (range >> 6) & 3;
        let lps: u16 = if ctx.state == 0 {
            if idx == 0 { 128 } else if idx == 1 { 176 } else if idx == 2 { 208 } else { 240 }
        } else if ctx.state == 63 {
            2
        } else {
            0
        };
        let range_mps = self.range - lps;
        let bin_val: u8;
        if self.offset >= range_mps {
            bin_val = 1 - ctx.mps;
            self.offset = self.offset - range_mps;
            self.range = lps;
        } else {
            bin_val = ctx.mps;
            self.range = range_mps;
        }
        proof { lemma_updated_ok(*ctx, bin_val); }
        ctx.update(bin_val);
        self.renormalize()?;
        Ok(bin_val)
    }

    /// Decode one bypass (equiprobable) bin.
    pub fn decode_bypass(&mut self) -> (r: Result<u8>)
        requires
            old(self).wf(),
        ensures
            final(self).bytes() == old(self).bytes(),
            match bypass(old(self).bytes(), old(self).engine()) {
                Some((b, e)) => r == Ok::<u8, Error>(b) && final(self).engine() == e && final(self).wf(),
                None => r is Err,
            },
    {
        proof { lemma_bit(self.bytes(), self.engine().0); }
        let b = self.read_bit()?;
        self.offset = shift_in(self.offset, b);
        if self.offset >= self.range {
            self.offset = self.offset - self.range;
            Ok(1)
        } else {
            Ok(0)
        }
    }

    /// Decode the terminating bin: 1 at the end of a slice (the engine is then left
    /// as it is), else 0 after renormalization.
    pub fn decode_terminate(&mut self) -> (r: Result<u8>)
        requires
            old(self).wf(),
        ensures
            final(self).bytes() == old(self).bytes(),
            match terminate(old(self).bytes(), old(self).engine()) {
                Some((b, e)) => r == Ok::<u8, Error>(b) && final(self).engine() == e
                    && final(self).pos_ok() && (b == 0 ==> final(self).wf()),
                None => r is Err,
            },
    {
        self.range = self.range - 2;
        if self.offset >= self.range {
            Ok(1)
        } else {
            self.renormalize()?;
            Ok(0)
        }
    }
}

/// `x` shifted left by one within 16 bits with `b` as the new low bit.
fn shift_in(x: u16, b: bool) -> (r: u16)
    ensures
        r == shifted(x, if b { 1u8 } else { 0u8 }),
{
    let s = x << 1;
    assert(s == ((x as int * 2) % 0x10000) as u16) by (bit_vector)
        requires s == x << 1;
    assert(s % 2 == 0) by (bit_vector)
        requires s == x << 1;
    if b {
        assert(s | 1 == s + 1) by (bit_vector)
            requires s % 2 == 0;
        s | 1
    } else {
        s
    }
}

/// A bit of the data is 0 or 1.
proof fn lemma_bit(s: Seq<u8>, i: int)
    ensures
        bit_at(s, i) <= 1,
{
    let x = s[i / 8];
    let sh = (7 - i % 8) as u8;
    assert((x >> sh) & 1u8 <= 1u8) by (bit_vector);
}

/// The offset after the first `n` bits of `s`, shifted in one by one.
pub open spec fn offset_bits(s: Seq<u8>, n: int) -> u16
    decreases n,
{
    if n <= 0 { 0 } else { shifted(offset_bits(s, n - 1), bit_at(s, n - 1)) }
}

/// The initial offset: the first nine bits.
pub open spec fn initial_offset(s: Seq<u8>) -> u16 {
    offset_bits(s, 9)
}

} // verus!
