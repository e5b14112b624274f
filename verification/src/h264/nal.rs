//! NAL units in an Annex B byte stream, RBSP extraction and the Exp-Golomb bit reader.
use vstd::prelude::*;
use vstd::arithmetic::power2::{pow2, lemma_pow2_unfold, lemma2_to64};
use crate::error::{Error, Result};
use super::{NalType, spec_nal_type};

verus! {

/// NAL unit header fields.
#[derive(Debug, Clone)]
pub struct NalHeader {
    pub forbidden_zero_bit: u8,
    pub nal_ref_idc: u8,
    pub nal_unit_type: NalType,
}

impl NalHeader {
    /// Split the first byte of a NAL unit into its three fields.
    pub fn parse(byte: u8) -> (h: NalHeader)
        ensures
            h.forbidden_zero_bit == byte / 128,
            h.nal_ref_idc == (byte / 32) % 4,
            h.nal_unit_type == spec_nal_type(byte % 32),
    {
        let f = (byte >> 7) & 0x1;
        let r = (byte >> 5) & 0x3;
        let t = byte & 0x1F;
        assert(f == byte / 128 && r == (byte / 32) % 4 && t == byte % 32) by (bit_vector)
            requires
                f == (byte >> 7) & 0x1,
                r == (byte >> 5) & 0x3,
                t == byte & 0x1F;
        NalHeader { forbidden_zero_bit: f, nal_ref_idc: r, nal_unit_type: NalType::from_u8(t) }
    }
}

/// A NAL unit: its header and its payload with emulation prevention removed.
#[derive(Debug, Clone)]
pub struct NalUnit {
    pub header: NalHeader,
    pub rbsp: Vec<u8>,
}

/// A start code `00 00 01` begins at `i`.
pub open spec fn start_code3_at(s: Seq<u8>, i: int) -> bool {
    0 <= i && i + 2 < s.len() && s[i] == 0 && s[i + 1] == 0 && s[i + 2] == 1
}

/// A start code `00 00 00 01` begins at `i`.
pub open spec fn start_code4_at(s: Seq<u8>, i: int) -> bool {
    0 <= i && i + 3 < s.len() && s[i] == 0 && s[i + 1] == 0 && s[i + 2] == 0 && s[i + 3] == 1
}

/// The start codes met by a left-to-right scan from `i`: after a start code the scan
/// resumes behind it, else one byte further.
pub open spec fn scan_start_codes(s: Seq<u8>, i: int) -> Seq<int>
    decreases s.len() - i,
{
    if i < 0 || i + 2 >= s.len() {
        Seq::empty()
    } else if start_code3_at(s, i) {
        seq![i] + scan_start_codes(s, i + 3)
    } else if start_code4_at(s, i) {
        seq![i] + scan_start_codes(s, i + 4)
    } else {
        scan_start_codes(s, i + 1)
    }
}

/// Every position of a scan begins a start code, lies at or behind `i`, and the
/// positions strictly increase.
pub proof fn lemma_scan_start_codes(s: Seq<u8>, i: int)
    requires
        0 <= i,
    ensures
        forall|k: int| 0 <= k < scan_start_codes(s, i).len() ==>
            (start_code3_at(s, #[trigger] scan_start_codes(s, i)[k]) || start_code4_at(s, scan_start_codes(s, i)[k]))
            && i <= scan_start_codes(s, i)[k],
        forall|a: int, b: int| 0 <= a < b < scan_start_codes(s, i).len() ==>
            #[trigger] scan_start_codes(s, i)[a] < #[trigger] scan_start_codes(s, i)[b],
    decreases s.len() - i,
{
    let cur = scan_start_codes(s, i);
    if i + 2 >= s.len() {
        assert(cur.len() == 0);
    } else if start_code3_at(s, i) || start_code4_at(s, i) {
        let step: int = if start_code3_at(s, i) { 3 } else { 4 };
        lemma_scan_start_codes(s, i + step);
        let r = scan_start_codes(s, i + step);
        assert(cur == seq![i] + r);
        assert forall|k: int| 0 <= k < cur.len() implies
            (start_code3_at(s, #[trigger] cur[k]) || start_code4_at(s, cur[k])) && i <= cur[k] by {
            if k > 0 {
                assert(cur[k] == r[k - 1]);
            }
        }
        assert forall|a: int, b: int| 0 <= a < b < cur.len() implies #[trigger] cur[a] < #[trigger] cur[b] by {
            assert(cur[b] == r[b - 1]);
            assert(i + step <= r[b - 1]);
            if a > 0 {
                assert(cur[a] == r[a - 1]);
            }
        }
    } else {
        lemma_scan_start_codes(s, i + 1);
        let r = scan_start_codes(s, i + 1);
        assert(cur == r);
        assert forall|k: int| 0 <= k < cur.len() implies
            (start_code3_at(s, #[trigger] cur[k]) || start_code4_at(s, cur[k])) && i <= cur[k] by {
            assert(cur[k] == r[k]);
        }
        assert forall|a: int, b: int| 0 <= a < b < cur.len() implies #[trigger] cur[a] < #[trigger] cur[b] by {
            assert(cur[a] == r[a] && cur[b] == r[b]);
        }
    }
}

/// Positions of the start codes (`00 00 01` or `00 00 00 01`) in an Annex B byte stream.
pub fn find_nal_units(data: &[u8]) -> (positions: Vec<usize>)
    ensures
        positions@.map_values(|p: usize| p as int) == scan_start_codes(data@, 0),
{
    let mut positions: Vec<usize> = Vec::new();
    let mut i: usize = 0;
    while data.len() >= 3 && i < data.len() - 2
        invariant
            i <= data@.len(),
            positions@.map_values(|p: usize| p as int) + scan_start_codes(data@, i as int)
                == scan_start_codes(data@, 0),
        decreases data@.len() - i,
    {
        let ghost old_pos = positions@;
        if data[i] == 0 && data[i + 1] == 0 {
            if data[i + 2] == 1 {
                positions.push(i);
                proof {
                    assert(positions@.map_values(|p: usize| p as int) =~= old_pos.map_values(|p: usize| p as int) + seq![i as int]);
                }
                i += 3;
            } else if i + 3 < data.len() && data[i + 2] == 0 && data[i + 3] == 1 {
                positions.push(i);
                proof {
                    assert(positions@.map_values(|p: usize| p as int) =~= old_pos.map_values(|p: usize| p as int) + seq![i as int]);
                }
                i += 4;
            } else {
                i += 1;
            }
        } else {
            i += 1;
        }
    }
    proof {
        assert(scan_start_codes(data@, i as int) =~= Seq::<int>::empty());
        assert(i + 2 >= data@.len());
        assert(positions@.map_values(|p: usize| p as int) + Seq::<int>::empty() =~= positions@.map_values(|p: usize| p as int));
    }
    positions
}

/// The bytes of `s` with every `00 00 03` sequence replaced by `00 00`.
pub open spec fn unescape(s: Seq<u8>) -> Seq<u8>
    decreases s.len(),
{
    if s.len() == 0 {
        Seq::empty()
    } else if s.len() > 2 && s[0] == 0 && s[1] == 0 && s[2] == 3 {
        seq![0u8, 0u8] + unescape(s.skip(3))
    } else {
        seq![s[0]] + unescape(s.skip(1))
    }
}

/// Remove emulation prevention bytes: each `00 00 03` becomes `00 00`.
pub fn remove_emulation_prevention(data: &[u8]) -> (r: Result<Vec<u8>>)
    ensures
        r matches Ok(v) && v@ == unescape(data@),
{
    let mut rbsp: Vec<u8> = Vec::new();
    let mut i: usize = 0;
    assert(data@.skip(0) =~= data@);
    while i < data.len()
        invariant
            i <= data@.len(),
            rbsp@ + unescape(data@.skip(i as int)) == unescape(data@),
        decreases data@.len() - i,
    {
        let ghost rest = data@.skip(i as int);
        if data.len() - i > 2 && data[i] == 0 && data[i + 1] == 0 && data[i + 2] == 3 {
            rbsp.push(0);
            rbsp.push(0);
            proof {
                assert(rest.skip(3) =~= data@.skip(i + 3));
                assert(unescape(rest) == seq![0u8, 0u8] + unescape(rest.skip(3)));
            }
            i += 3;
        } else {
            rbsp.push(data[i]);
            proof {
                assert(rest.skip(1) =~= data@.skip(i + 1));
                assert(unescape(rest) == seq![data@[i as int]] + unescape(rest.skip(1)));
            }
            i += 1;
        }
    }
    proof {
        assert(data@.skip(i as int) =~= Seq::<u8>::empty());
    }
    Ok(rbsp)
}

/// Length of the start code that begins at a scanned position.
pub open spec fn start_code_len(s: Seq<u8>, p: int) -> int {
    if start_code3_at(s, p) { 3 } else { 4 }
}

/// The (header byte, payload) of each non-empty NAL unit between the start codes at
/// positions `ps[k..]`; a unit ends at the next start code or at the end of the data.
pub open spec fn nal_payloads(s: Seq<u8>, ps: Seq<int>, k: int) -> Seq<(u8, Seq<u8>)>
    decreases ps.len() - k,
{
    if k < 0 || k >= ps.len() {
        Seq::empty()
    } else {
        let start = ps[k] + start_code_len(s, ps[k]);
        let end = if k + 1 < ps.len() { ps[k + 1] } else { s.len() as int };
        if start >= end {
            nal_payloads(s, ps, k + 1)
        } else {
            seq![(s[start], s.subrange(start + 1, end))] + nal_payloads(s, ps, k + 1)
        }
    }
}

/// Split an Annex B byte stream into NAL units.
pub fn extract_nal_units(data: &[u8]) -> (r: Result<Vec<NalUnit>>)
    ensures
        r matches Ok(units) && {
            let spec_units = nal_payloads(data@, scan_start_codes(data@, 0), 0);
            &&& units@.len() == spec_units.len()
            &&& forall|k: int| 0 <= k < units@.len() ==> {
                let b = #[trigger] spec_units[k].0;
                &&& units@[k].header.forbidden_zero_bit == b / 128
                &&& units@[k].header.nal_ref_idc == (b / 32) % 4
                &&& units@[k].header.nal_unit_type == spec_nal_type(b % 32)
                &&& units@[k].rbsp@ == unescape(spec_units[k].1)
            }
        },
{
    let positions = find_nal_units(data);
    let ghost ps = scan_start_codes(data@, 0);
    proof {
        lemma_scan_start_codes(data@, 0);
        assert forall|k: int| 0 <= k < positions@.len() implies positions@[k] as int == #[trigger] ps[k] by {
            assert(positions@.map_values(|p: usize| p as int)[k] == positions@[k] as int);
        }
    }
    let mut nal_units: Vec<NalUnit> = Vec::new();
    let mut i: usize = 0;
    while i < positions.len()
        invariant
            i <= positions@.len(),
            positions@.len() == ps.len(),
            ps == scan_start_codes(data@, 0),
            forall|k: int| 0 <= k < positions@.len() ==> positions@[k] as int == #[trigger] ps[k],
            forall|k: int| 0 <= k < ps.len() ==>
                (start_code3_at(data@, #[trigger] ps[k]) || start_code4_at(data@, ps[k])) && 0 <= ps[k],
            forall|a: int, b: int| 0 <= a < b < ps.len() ==> #[trigger] ps[a] < #[trigger] ps[b],
            nal_units@.len() + nal_payloads(data@, ps, i as int).len()
                == nal_payloads(data@, ps, 0).len(),
            forall|k: int| 0 <= k < nal_units@.len() ==> {
                let b = #[trigger] nal_payloads(data@, ps, 0)[k].0;
                &&& nal_units@[k].header.forbidden_zero_bit == b / 128
                &&& nal_units@[k].header.nal_ref_idc == (b / 32) % 4
                &&& nal_units@[k].header.nal_unit_type == spec_nal_type(b % 32)
                &&& nal_units@[k].rbsp@ == unescape(nal_payloads(data@, ps, 0)[k].1)
            },
            nal_units@.len() <= nal_payloads(data@, ps, 0).len(),
            forall|k: int| 0 <= k < nal_payloads(data@, ps, i as int).len() ==>
                nal_payloads(data@, ps, 0)[nal_units@.len() + k] == #[trigger] nal_payloads(data@, ps, i as int)[k],
        decreases positions@.len() - i,
    {
        let start = positions[i];
        let end = if i + 1 < positions.len() { positions[i + 1] } else { data.len() };
        proof {
            assert(ps[i as int] == start as int);
            if i + 1 < positions.len() {
                assert(ps[i + 1] == end as int);
                assert(ps[i as int] < ps[i + 1]);
            }
        }
        let nal_start = if data[start] == 0 && data[start + 1] == 0 && data[start + 2] == 1 {
            start + 3
        } else {
            start + 4
        };
        let ghost tail = nal_payloads(data@, ps, i + 1);
        proof {
            assert(nal_start == ps[i as int] + start_code_len(data@, ps[i as int]));
        }
        if nal_start >= end {
            proof {
                assert(nal_payloads(data@, ps, i as int) == tail);
            }
            i += 1;
            continue;
        }
        proof {
            assert(nal_payloads(data@, ps, i as int) == seq![(data@[nal_start as int], data@.subrange(nal_start + 1, end as int))] + tail);
        }
        let nal_data = &data[nal_start..end];
        let header = NalHeader::parse(nal_data[0]);
        let rbsp = match remove_emulation_prevention(&nal_data[1..nal_data.len()]) {
            Ok(v) => v,
            Err(e) => return Err(e),
        };
        proof {
            assert(nal_data@.subrange(1, nal_data@.len() as int) =~= data@.subrange(nal_start + 1, end as int));
        }
        let ghost old_units = nal_units@;
        nal_units.push(NalUnit { header, rbsp });
        proof {
            let whole = nal_payloads(data@, ps, 0);
            let here = nal_payloads(data@, ps, i as int);
            assert(whole[old_units.len() as int] == here[0]);
            assert forall|k: int| 0 <= k < tail.len() implies
                whole[nal_units@.len() + k] == #[trigger] tail[k] by {
                assert(here[k + 1] == tail[k]);
            }
        }
        i += 1;
    }
    proof {
        assert(nal_payloads(data@, ps, i as int).len() == 0);
    }
    Ok(nal_units)
}

/// Bit `i` of a byte sequence, most significant bit of each byte first.
pub open spec fn bit_at(s: Seq<u8>, i: int) -> u8 {
    (s[i / 8] >> ((7 - i % 8) as u8)) & 1u8
}

/// The unsigned value of the `n` bits of `s` that start at bit `pos`, most significant first.
pub open spec fn bits_value(s: Seq<u8>, pos: int, n: nat) -> nat
    decreases n,
{
    if n == 0 {
        0
    } else {
        bits_value(s, pos, (n - 1) as nat) * 2 + bit_at(s, pos + n - 1) as nat
    }
}

/// An `n`-bit value is below `2^n`.
pub proof fn lemma_bits_value_bound(s: Seq<u8>, pos: int, n: nat)
    ensures
        bits_value(s, pos, n) < pow2(n),
    decreases n,
{
    if n > 0 {
        lemma_bits_value_bound(s, pos, (n - 1) as nat);
        lemma_pow2_unfold(n);
        let b = bit_at(s, pos + n - 1);
        assert(b <= 1) by {
            let x = s[(pos + n - 1) / 8];
            let sh = (7 - (pos + n - 1) % 8) as u8;
            assert((x >> sh) & 1u8 <= 1u8) by (bit_vector);
        }
    } else {
        lemma2_to64();
    }
}

/// The result of reading an unsigned Exp-Golomb code whose prefix has already shown
/// `k` zero bits at `pos..pos+k`: the value and the bit position after the code, or
/// `None` when the data ends first or the prefix exceeds 31 zeros.
pub open spec fn ue_from(s: Seq<u8>, pos: int, k: nat) -> Option<(nat, int)>
    decreases 32 - k,
{
    if k > 31 || pos + k >= s.len() * 8 {
        None
    } else if bit_at(s, pos + k) == 1 {
        if k == 0 {
            Some((0, pos + 1))
        } else if pos + 2 * k + 1 <= s.len() * 8 {
            Some(((pow2(k) - 1 + bits_value(s, pos + k + 1, k)) as nat, pos + 2 * k + 1))
        } else {
            None
        }
    } else if k + 1 > 31 {
        None
    } else {
        ue_from(s, pos, k + 1)
    }
}

/// The unsigned Exp-Golomb code (ue(v)) at bit `pos`.
pub open spec fn spec_read_ue(s: Seq<u8>, pos: int) -> Option<(nat, int)> {
    ue_from(s, pos, 0)
}

/// The signed value of an Exp-Golomb code number: 1, -1, 2, -2, ... for 1, 2, 3, 4, ...
pub open spec fn se_of(ue: nat) -> int {
    if ue % 2 == 1 { ((ue + 1) / 2) as int } else { -((ue / 2) as int) }
}

/// The search for the leading one passes over zero bits.
proof fn lemma_ue_from_skip(s: Seq<u8>, pos: int, k: nat, z: nat)
    requires
        k <= z <= 31,
        pos + z < s.len() * 8,
        forall|j: int| k <= j < z ==> #[trigger] bit_at(s, pos + j) == 0,
    ensures
        ue_from(s, pos, k) == ue_from(s, pos, z),
    decreases z - k,
{
    if k < z {
        assert(bit_at(s, pos + k) == 0);
        lemma_ue_from_skip(s, pos, k + 1, z);
    }
}

/// An Exp-Golomb ue(v) code is `z` zero bits, a one, then `z` information bits
/// (`z` at most 31): it reads as `2^z - 1` plus the information bits, and the code
/// ends `2z + 1` bits after it starts. A lone one bit reads as 0.
pub proof fn lemma_ue_code(s: Seq<u8>, pos: int, z: nat)
    requires
        z <= 31,
        pos + 2 * z + 1 <= s.len() * 8,
        forall|j: int| 0 <= j < z ==> #[trigger] bit_at(s, pos + j) == 0,
        bit_at(s, pos + z) == 1,
    ensures
        spec_read_ue(s, pos) == Some(((pow2(z) - 1 + bits_value(s, pos + z + 1, z)) as nat, pos + 2 * z + 1)),
{
    lemma_ue_from_skip(s, pos, 0, z);
    if z == 0 {
        assert(bits_value(s, pos + 1, 0) == 0);
        vstd::arithmetic::power2::lemma2_to64();
    }
}

/// The signed Exp-Golomb mapping pairs the code numbers with the integers one to
/// one: `2k - 1` gives `k`, `2k` gives `-k`, and 0 gives 0.
pub proof fn lemma_se_mapping(a: nat, b: nat, k: nat)
    ensures
        k >= 1 ==> se_of((2 * k - 1) as nat) == k as int,
        se_of(2 * k) == -(k as int),
        se_of(a) == se_of(b) ==> a == b,
{
}

/// A decoded ue(v) value is below `2^32 - 1`.
pub proof fn lemma_ue_from_bound(s: Seq<u8>, pos: int, k: nat)
    requires
        pos >= 0,
    ensures
        ue_from(s, pos, k) matches Some((v, p)) ==> v < 0xffff_ffff && p > pos,
    decreases 32 - k,
{
    if k > 31 || pos + k >= s.len() * 8 {
    } else if bit_at(s, pos + k) == 1 {
        if k > 0 && pos + 2 * k + 1 <= s.len() * 8 {
            lemma_bits_value_bound(s, pos + k + 1, k);
            vstd::arithmetic::power2::lemma_pow2_strictly_increases(k, 32);
            lemma2_to64();
            lemma_pow2_unfold(32);
        }
    } else if k + 1 <= 31 {
        lemma_ue_from_bound(s, pos, k + 1);
    }
}

/// Exp-Golomb bit reader over RBSP bytes, most significant bit first.
#[derive(Clone, Copy)]
pub struct BitReader<'a> {
    data: &'a [u8],
    byte_pos: usize,
    bit_pos: u8,
}

impl<'a> BitReader<'a> {
    /// The bytes being read.
    pub closed spec fn bytes(&self) -> Seq<u8> {
        self.data@
    }

    /// The current position, in bits from the start.
    pub closed spec fn pos(&self) -> int {
        self.byte_pos * 8 + self.bit_pos
    }

    /// The reader's position lies within the data.
    pub closed spec fn wf(&self) -> bool {
        &&& self.bit_pos < 8
        &&& self.data.len() == self.data@.len()
        &&& (self.byte_pos < self.data@.len() || (self.byte_pos == self.data@.len() && self.bit_pos == 0))
    }

    /// The position of a well-formed reader lies between 0 and the number of bits.
    pub proof fn lemma_pos(&self)
        requires
            self.wf(),
        ensures
            0 <= self.pos() <= self.bytes().len() * 8,
    {
    }

    /// A reader at the first bit of `data`.
    pub fn new(data: &'a [u8]) -> (r: BitReader<'a>)
        ensures
            r.wf(),
            r.bytes() == data@,
            r.pos() == 0,
    {
        BitReader { data, byte_pos: 0, bit_pos: 0 }
    }

    /// Read one bit.
    pub fn read_bit(&mut self) -> (r: Result<u8>)
        requires
            old(self).wf(),
        ensures
            final(self).wf(),
            final(self).bytes() == old(self).bytes(),
            old(self).pos() < old(self).bytes().len() * 8 ==>
                (r matches Ok(b) && b == bit_at(old(self).bytes(), old(self).pos())
                && final(self).pos() == old(self).pos() + 1),
            old(self).pos() >= old(self).bytes().len() * 8 ==>
                r is Err && final(self).pos() == old(self).pos(),
    {
        if self.byte_pos >= self.data.len() {
            return Err(Error::invalid("H.264", "BitReader: end of stream"));
        }
        let byte = self.data[self.byte_pos];
        let bit = (byte >> (7 - self.bit_pos)) & 1;
        proof {
            let p = self.byte_pos * 8 + self.bit_pos;
            assert(p / 8 == self.byte_pos as int && p % 8 == self.bit_pos as int);
        }
        self.bit_pos += 1;
        if self.bit_pos == 8 {
            self.bit_pos = 0;
            self.byte_pos += 1;
        }
        Ok(bit)
    }

    /// Read `n` bits (at most 32) as an unsigned value, most significant bit first.
    pub fn read_bits(&mut self, n: u8) -> (r: Result<u32>)
        requires
            old(self).wf(),
        ensures
            final(self).wf(),
            final(self).bytes() == old(self).bytes(),
            n <= 32 && old(self).pos() + n <= old(self).bytes().len() * 8 ==>
                (r matches Ok(v) && v == bits_value(old(self).bytes(), old(self).pos(), n as nat)
                && final(self).pos() == old(self).pos() + n),
            n > 32 ==> r is Err && final(self).pos() == old(self).pos(),
            n <= 32 && old(self).pos() + n > old(self).bytes().len() * 8 ==>
                r is Err && final(self).pos() == old(self).bytes().len() * 8,
    {
        if n > 32 {
            return Err(Error::invalid("H.264", "Cannot read more than 32 bits"));
        }
        let ghost start = self.pos();
        let mut value: u32 = 0;
        let mut k: u8 = 0;
        while k < n
            invariant
                self.wf(),
                self.bytes() == old(self).bytes(),
                start == old(self).pos(),
                k <= n <= 32,
                self.pos() == start + k,
                value == bits_value(self.bytes(), start, k as nat),
            decreases n - k,
        {
            proof {
                lemma_bits_value_bound(self.bytes(), start, k as nat);
                assert(pow2(k as nat) <= pow2(31)) by {
                    if k < 31 {
                        vstd::arithmetic::power2::lemma_pow2_strictly_increases(k as nat, 31);
                    }
                }
                lemma2_to64();
            }
            let b = match self.read_bit() {
                Ok(b) => b,
                Err(e) => {
                    return Err(e);
                }
            };
            proof {
                assert(b <= 1) by {
                    let s = self.bytes();
                    let x = s[(start + k) / 8];
                    let sh = (7 - (start + k) % 8) as u8;
                    assert((x >> sh) & 1u8 <= 1u8) by (bit_vector);
                }
            }
            value = value * 2 + b as u32;
            k += 1;
        }
        Ok(value)
    }

    /// Read an unsigned Exp-Golomb code, ue(v).
    pub fn read_ue(&mut self) -> (r: Result<u32>)
        requires
            old(self).wf(),
        ensures
            final(self).wf(),
            final(self).bytes() == old(self).bytes(),
            match spec_read_ue(old(self).bytes(), old(self).pos()) {
                Some((v, p)) => r matches Ok(x) && x == v && final(self).pos() == p,
                None => r is Err,
            },
    {
        let ghost s = self.bytes();
        let ghost start = self.pos();
        let mut leading_zeros: u8 = 0;
        loop
            invariant_except_break
                self.wf(),
                self.bytes() == s,
                s == old(self).bytes(),
                start == old(self).pos(),
                start >= 0,
                leading_zeros <= 31,
                self.pos() == start + leading_zeros,
                spec_read_ue(s, start) == ue_from(s, start, leading_zeros as nat),
            ensures
                self.wf(),
                self.bytes() == s,
                leading_zeros <= 31,
                self.pos() == start + leading_zeros + 1,
                start + leading_zeros < s.len() * 8,
                bit_at(s, start + leading_zeros) == 1,
                spec_read_ue(s, start) == ue_from(s, start, leading_zeros as nat),
            decreases 32 - leading_zeros,
        {
            let b = match self.read_bit() {
                Ok(b) => b,
                Err(e) => {
                    return Err(e);
                }
            };
            if b != 0 {
                proof {
                    let x = s[(start + leading_zeros) / 8];
                    let sh = (7 - (start + leading_zeros) % 8) as u8;
                    assert((x >> sh) & 1u8 != 0u8 ==> (x >> sh) & 1u8 == 1u8) by (bit_vector);
                }
                break;
            }
            leading_zeros += 1;
            if leading_zeros > 31 {
                return Err(Error::invalid("H.264", "Exp-Golomb: too many leading zeros"));
            }
        }
        if leading_zeros == 0 {
            return Ok(0);
        }
        let value = match self.read_bits(leading_zeros) {
            Ok(v) => v,
            Err(e) => {
                return Err(e);
            }
        };
        proof {
            lemma_bits_value_bound(s, start + leading_zeros + 1, leading_zeros as nat);
            vstd::arithmetic::power2::lemma_pow2_strictly_increases(leading_zeros as nat, 32);
            lemma2_to64();
            lemma_pow2_unfold(32);
            assert((1u32 << leading_zeros) == pow2(leading_zeros as nat)) by {
                vstd::bits::lemma_u32_shl_is_mul(1, leading_zeros as u32);
                vstd::arithmetic::power2::lemma_pow2_pos(leading_zeros as nat);
                vstd::arithmetic::power::lemma_pow1(2);
                vstd::arithmetic::power2::lemma_pow2(leading_zeros as nat);
            }
        }
        Ok((1u32 << leading_zeros) - 1 + value)
    }

    /// Read a signed Exp-Golomb code, se(v).
    pub fn read_se(&mut self) -> (r: Result<i32>)
        requires
            old(self).wf(),
        ensures
            final(self).wf(),
            final(self).bytes() == old(self).bytes(),
            match spec_read_ue(old(self).bytes(), old(self).pos()) {
                Some((v, p)) => r matches Ok(x) && x == se_of(v) && final(self).pos() == p,
                None => r is Err,
            },
    {
        proof {
            lemma_ue_from_bound(self.bytes(), self.pos(), 0);
        }
        let ue = match self.read_ue() {
            Ok(v) => v,
            Err(e) => {
                return Err(e);
            }
        };
        let value = ((ue + 1) / 2) as i32;
        if ue % 2 == 1 {
            Ok(value)
        } else {
            Ok(-value)
        }
    }

    /// Skip to the next byte boundary.
    pub fn byte_align(&mut self)
        requires
            old(self).wf(),
        ensures
            final(self).wf(),
            final(self).bytes() == old(self).bytes(),
            final(self).pos() == (if old(self).pos() % 8 == 0 { old(self).pos() }
                else { old(self).pos() - old(self).pos() % 8 + 8 }),
    {
        if self.bit_pos != 0 {
            self.bit_pos = 0;
            self.byte_pos += 1;
        }
    }

    /// Whether unread bytes remain: the current byte is within the data.
    pub fn more_rbsp_data(&self) -> (b: bool)
        requires
            self.wf(),
        ensures
            b == (self.pos() < self.bytes().len() * 8),
    {
        self.byte_pos < self.data.len()
    }
}

} // verus!

verus! {

/// Reading `n` bits at bit `p`: the value and the position after them, or `None`
/// when fewer than `n` bits remain or `n` exceeds 32.
pub open spec fn rd_bits(s: Seq<u8>, p: int, n: nat) -> Option<(nat, int)> {
    if 0 <= p && n <= 32 && p + n <= s.len() * 8 {
        Some((bits_value(s, p, n), p + n))
    } else {
        None
    }
}

/// Reading one ue(v) code at bit `p`.
pub open spec fn rd_ue(s: Seq<u8>, p: int) -> Option<(nat, int)> {
    if p < 0 { None } else { spec_read_ue(s, p) }
}

/// Reading one se(v) code at bit `p`.
pub open spec fn rd_se(s: Seq<u8>, p: int) -> Option<(int, int)> {
    match rd_ue(s, p) {
        Some((v, q)) => Some((se_of(v), q)),
        None => None,
    }
}

/// A ue(v) value is below `2^32 - 1` and a se(v) value lies within `i32`.
pub proof fn lemma_rd_bounds(s: Seq<u8>, p: int)
    ensures
        rd_ue(s, p) matches Some((v, q)) ==> v < 0xffff_ffff && q > p,
        rd_se(s, p) matches Some((v, q)) ==> -0x7fff_ffff <= v <= 0x7fff_ffff && q > p,
{
    if p >= 0 {
        lemma_ue_from_bound(s, p, 0);
    }
}

} // verus!
