//! NAL unit packaging: Annex B byte streams (start codes) and AVCC
//! (length-prefixed), splitting streams into units and converting between them.
use vstd::prelude::*;
use crate::error::{Error, Result};

verus! {

/// How NAL units are packaged.
#[derive(Debug, Clone, Copy, PartialEq, Eq, Structural)]
pub enum NalFormat {
    /// Start codes `00 00 01` or `00 00 00 01`.
    AnnexB,
    /// Each unit preceded by its length in `length_size` bytes, big-endian.
    Avcc { length_size: u8 },
}

/// Splits a stream given in pieces into NAL units; data of an incomplete unit waits
/// in `buffer`.
pub struct NalStreamProcessor {
    /// The packaging format.
    pub format: NalFormat,
    /// Bytes received and not yet returned as units.
    pub buffer: Vec<u8>,
}

/// A start code `00 00 01` begins at `i`.
pub open spec fn is_start_code(s: Seq<u8>, i: int) -> bool {
    0 <= i && i + 2 < s.len() && s[i] == 0 && s[i + 1] == 0 && s[i + 2] == 1
}

/// The first start code at or after `from`.
pub open spec fn sc_find(s: Seq<u8>, from: int) -> Option<int>
    decreases s.len() - from,
{
    if from < 0 || from + 2 >= s.len() {
        None
    } else if is_start_code(s, from) {
        Some(from)
    } else {
        sc_find(s, from + 1)
    }
}

proof fn lemma_sc_find(s: Seq<u8>, from: int)
    requires
        from >= 0,
    ensures
        sc_find(s, from) matches Some(i) ==> from <= i && is_start_code(s, i),
        sc_find(s, from) is None ==> forall|i: int| from <= i ==> !#[trigger] is_start_code(s, i),
    decreases s.len() - from,
{
    if from + 2 < s.len() && !is_start_code(s, from) {
        lemma_sc_find(s, from + 1);
        assert forall|i: int| from <= i && sc_find(s, from) is None implies !#[trigger] is_start_code(s, i) by {
            if i > from {
            }
        }
    }
}

/// The first start code at or after `from`.
fn find_start_code_from(data: &[u8], from: usize) -> (r: Option<usize>)
    ensures
        match sc_find(data@, from as int) {
            Some(i) => r == Some(i as usize),
            None => r is None,
        },
{
    let len = data.len();
    if len < 3 || from > len - 3 {
        return None;
    }
    let mut i = from;
    while i < len - 2
        invariant
            len == data@.len(),
            len >= 3,
            from <= i <= len - 2,
            sc_find(data@, from as int) == sc_find(data@, i as int),
        decreases len - i,
    {
        if data[i] == 0 && data[i + 1] == 0 && data[i + 2] == 1 {
            return Some(i);
        }
        i += 1;
    }
    None
}

/// The position of the first start code `00 00 01` (its first zero byte).
pub fn find_start_code(data: &[u8]) -> (r: Option<usize>)
    ensures
        match sc_find(data@, 0) {
            Some(i) => r == Some(i as usize),
            None => r is None,
        },
{
    find_start_code_from(data, 0)
}

/// The units cut from `s` by the start codes from `pos` on, while a unit begins at
/// `start`, and where the last unit begins. A start code directly after a zero byte
/// is taken with that byte (four bytes); empty units are skipped.
pub open spec fn annexb_scan(s: Seq<u8>, pos: int, start: Option<int>) -> (Seq<Seq<u8>>, Option<int>)
    decreases s.len() - pos,
{
    if pos < 0 || pos >= s.len() {
        (Seq::empty(), start)
    } else {
        match sc_find(s, pos) {
            None => (Seq::empty(), start),
            Some(p) => {
                let scp = if p > 0 && s[p - 1] == 0 { p - 1 } else { p };
                let sc_len = if scp + 3 < s.len() && s.subrange(scp, scp + 4) == seq![0u8, 0u8, 0u8, 1u8] { 4int } else { 3int };
                let next = scp + sc_len;
                if next <= pos || next > s.len() {
                    (Seq::empty(), start)
                } else {
                    let (rest, fin) = annexb_scan(s, next, Some(next));
                    match start {
                        Some(st) => if st < scp {
                            (seq![s.subrange(st, scp)] + rest, fin)
                        } else {
                            (rest, fin)
                        },
                        None => (rest, fin),
                    }
                }
            },
        }
    }
}

/// The big-endian value of the `n` bytes of `s` at `off`.
pub open spec fn be_value(s: Seq<u8>, off: int, n: int) -> int
    decreases n,
{
    if n <= 0 { 0 } else { be_value(s, off, n - 1) * 256 + s[off + n - 1] as int }
}

/// A valid AVCC length size: 1, 2 or 4.
pub open spec fn valid_length_size(ls: int) -> bool {
    ls == 1 || ls == 2 || ls == 4
}

/// The complete units of length-prefixed data from `off`, and the offset after them;
/// `None` when a length is to be read with an invalid size.
pub open spec fn avcc_scan(s: Seq<u8>, off: int, ls: int) -> Option<(Seq<Seq<u8>>, int)>
    decreases s.len() - off,
{
    if off < 0 || off + ls > s.len() {
        Some((Seq::empty(), off))
    } else if !valid_length_size(ls) {
        None
    } else {
        let n = be_value(s, off, ls);
        let end = off + ls + n;
        if n < 0 || end > s.len() {
            Some((Seq::empty(), off))
        } else {
            match avcc_scan(s, end, ls) {
                None => None,
                Some((rest, fin)) => Some((seq![s.subrange(off + ls, end)] + rest, fin)),
            }
        }
    }
}

/// `be_value` reads only its `n` bytes.
proof fn lemma_be_value_agree(s: Seq<u8>, t: Seq<u8>, o1: int, o2: int, n: int)
    requires
        forall|i: int| 0 <= i < n ==> s[o1 + i] == #[trigger] t[o2 + i],
    ensures
        be_value(s, o1, n) == be_value(t, o2, n),
    decreases n,
{
    if n > 0 {
        lemma_be_value_agree(s, t, o1, o2, n - 1);
        assert(s[o1 + (n - 1)] == t[o2 + (n - 1)]);
    }
}

/// Scanning stays within the data: the offset after the units lies between the
/// start and the end.
proof fn lemma_avcc_scan_range(s: Seq<u8>, off: int, ls: int)
    requires
        0 <= off <= s.len(),
    ensures
        avcc_scan(s, off, ls) matches Some((u, f)) ==> off <= f <= s.len(),
    decreases s.len() - off,
{
    if off + ls <= s.len() && valid_length_size(ls) {
        let n = be_value(s, off, ls);
        let end = off + ls + n;
        if n >= 0 && end <= s.len() {
            lemma_avcc_scan_range(s, end, ls);
        }
    }
}

/// More data after `a` does not change the units complete in `a`: the scan of
/// `a + b` is that of `a` followed by the scan of `a + b` from where `a`'s stopped.
proof fn lemma_avcc_scan_extend(a: Seq<u8>, b: Seq<u8>, off: int, ls: int)
    requires
        0 <= off <= a.len(),
        valid_length_size(ls),
    ensures
        avcc_scan(a, off, ls) matches Some((u, f)) ==> match avcc_scan(a + b, f, ls) {
            Some((w, g)) => avcc_scan(a + b, off, ls) == Some((u + w, g)),
            None => avcc_scan(a + b, off, ls) is None,
        },
    decreases a.len() - off,
{
    let s = a + b;
    if off + ls <= a.len() {
        let n = be_value(a, off, ls);
        assert(be_value(s, off, ls) == n) by {
            assert forall|i: int| 0 <= i < ls implies a[off + i] == #[trigger] s[off + i] by {}
            lemma_be_value_agree(a, s, off, off, ls);
        }
        let end = off + ls + n;
        if n >= 0 && end <= a.len() {
            lemma_avcc_scan_extend(a, b, end, ls);
            assert(s.subrange(off + ls, end) =~= a.subrange(off + ls, end));
            match avcc_scan(a, end, ls) {
                Some((u2, f2)) => {
                    match avcc_scan(s, f2, ls) {
                        Some((w, g)) => {
                            assert(seq![a.subrange(off + ls, end)] + u2 + w =~= seq![a.subrange(off + ls, end)] + (u2 + w));
                        },
                        None => {},
                    }
                },
                None => {},
            }
        } else {
            match avcc_scan(s, off, ls) {
                Some((w, g)) => { assert(Seq::<Seq<u8>>::empty() + w =~= w); },
                None => {},
            }
        }
    } else {
        match avcc_scan(s, off, ls) {
            Some((w, g)) => { assert(Seq::<Seq<u8>>::empty() + w =~= w); },
            None => {},
        }
    }
}

/// Scanning from `off + x` in `s` is scanning from `x` in the data after `off`,
/// with the offset moved by `off`.
proof fn lemma_avcc_scan_shift(s: Seq<u8>, off: int, x: int, ls: int)
    requires
        0 <= off <= s.len(),
        0 <= x,
        valid_length_size(ls),
    ensures
        match avcc_scan(s.subrange(off, s.len() as int), x, ls) {
            Some((u, f)) => avcc_scan(s, off + x, ls) == Some((u, f + off)),
            None => avcc_scan(s, off + x, ls) is None,
        },
    decreases s.len() - off - x,
{
    let t = s.subrange(off, s.len() as int);
    if x + ls <= t.len() {
        lemma_be_value_agree(s, t, off + x, x, ls);
        let n = be_value(t, x, ls);
        let end = x + ls + n;
        if n >= 0 && end <= t.len() {
            lemma_avcc_scan_shift(s, off, end, ls);
            assert(t.subrange(x + ls, end) =~= s.subrange(off + x + ls, off + end));
            assert(off + x + ls + n == off + end);
        }
    }
}

/// Splitting length-prefixed data into two pieces does not change the units a
/// `NalStreamProcessor` extracts: scanning `a` and then what remained of it followed
/// by `b` gives the units, and the remainder, of scanning `a + b` at once.
pub proof fn lemma_avcc_chunks(a: Seq<u8>, b: Seq<u8>, ls: int)
    requires
        valid_length_size(ls),
    ensures
        avcc_scan(a, 0, ls) matches Some((u1, o1)) ==> match avcc_scan(a.subrange(o1, a.len() as int) + b, 0, ls) {
            Some((u2, o2)) => avcc_scan(a + b, 0, ls) == Some((u1 + u2, o1 + o2))
                && (a + b).subrange(o1 + o2, (a + b).len() as int)
                    =~= (a.subrange(o1, a.len() as int) + b).subrange(o2, (a.subrange(o1, a.len() as int) + b).len() as int),
            None => avcc_scan(a + b, 0, ls) is None,
        },
{
    lemma_avcc_scan_range(a, 0, ls);
    lemma_avcc_scan_extend(a, b, 0, ls);
    if let Some((u1, o1)) = avcc_scan(a, 0, ls) {
        let s = a + b;
        let rest = a.subrange(o1, a.len() as int) + b;
        assert(s.subrange(o1, s.len() as int) =~= rest);
        lemma_avcc_scan_shift(s, o1, 0, ls);
        lemma_avcc_scan_range(rest, 0, ls);
    }
}

/// The big-endian bytes of `n` in `ls` bytes (the low `8 * ls` bits).
pub open spec fn be_bytes(n: int, ls: int) -> Seq<u8>
    decreases ls,
{
    if ls <= 0 { Seq::empty() } else { be_bytes(n / 256, ls - 1).push((n % 256) as u8) }
}

/// Where the unit after the `00 00 01` at `a` begins: right after it (a zero byte
/// before it belongs to the start code, not to the unit).
pub open spec fn a2a_unit_start(s: Seq<u8>, a: int) -> int {
    a + 3
}

/// Where the unit that begins at `ns` ends: at the next start code, before the
/// zero byte that makes it a four-byte code; or at the end of the data.
pub open spec fn a2a_unit_end(s: Seq<u8>, ns: int) -> int {
    match sc_find(s, ns) {
        Some(nx) => if nx > ns && s[nx - 1] == 0 { nx - 1 } else { nx },
        None => s.len() as int,
    }
}

/// Annex B to AVCC from `off`: every unit between start codes with its length in
/// `ls` bytes; `None` when a length does not fit or `ls` is invalid.
pub open spec fn a2a(s: Seq<u8>, off: int, ls: int) -> Option<Seq<u8>>
    decreases s.len() - off,
{
    if off < 0 || off >= s.len() {
        Some(Seq::empty())
    } else {
        match sc_find(s, off) {
            None => Some(Seq::empty()),
            Some(a) => {
                let ns = a2a_unit_start(s, a);
                let ne = a2a_unit_end(s, ns);
                let n = ne - ns;
                if ns > s.len() || ne <= off || ne > s.len() || n < 0 {
                    None
                } else if !valid_length_size(ls) || (ls == 1 && n > 255) || (ls == 2 && n > 65535) {
                    None
                } else {
                    match a2a(s, ne, ls) {
                        None => None,
                        Some(rest) => Some(be_bytes(n, ls) + s.subrange(ns, ne) + rest),
                    }
                }
            }
        }
    }
}

/// AVCC to Annex B from `off`: every unit with a four-byte start code; `None` when a
/// unit runs past the data or `ls` is invalid.
pub open spec fn a2b(s: Seq<u8>, off: int, ls: int) -> Option<Seq<u8>>
    decreases s.len() - off,
{
    if off < 0 || off + ls > s.len() {
        Some(Seq::empty())
    } else if !valid_length_size(ls) {
        None
    } else {
        let n = be_value(s, off, ls);
        let start = off + ls;
        if n < 0 || start + n > s.len() {
            None
        } else {
            match a2b(s, start + n, ls) {
                None => None,
                Some(rest) => Some(seq![0u8, 0u8, 0u8, 1u8] + s.subrange(start, start + n) + rest),
            }
        }
    }
}

proof fn lemma_be_value_bound(s: Seq<u8>, off: int, n: int)
    requires
        0 <= n <= 4,
    ensures
        0 <= be_value(s, off, n),
        n <= 1 ==> be_value(s, off, n) < 256,
        n <= 2 ==> be_value(s, off, n) < 65536,
        n <= 3 ==> be_value(s, off, n) < 0x100_0000,
        be_value(s, off, n) < 0x1_0000_0000,
    decreases n,
{
    if n > 0 {
        lemma_be_value_bound(s, off, n - 1);
    }
}

/// The length prefix at `off` of `ls` bytes (1, 2 or 4).
fn read_length(data: &[u8], off: usize, ls: u8) -> (r: Result<usize>)
    requires
        off + ls <= data@.len(),
    ensures
        valid_length_size(ls as int) ==> r == Ok::<usize, Error>(be_value(data@, off as int, ls as int) as usize),
        !valid_length_size(ls as int) ==> (r matches Err(e) && e.is_invalid()),
{
    proof {
        lemma_be_value_bound(data@, off as int, 4);
        reveal_with_fuel(be_value, 5);
    }
    match ls {
        1 => Ok(data[off] as usize),
        2 => Ok((data[off] as usize) * 256 + data[off + 1] as usize),
        4 => Ok((((data[off] as usize) * 256 + data[off + 1] as usize) * 256 + data[off + 2] as usize) * 256
            + data[off + 3] as usize),
        _ => Err(Error::invalid("length_size", "Invalid length_size")),
    }
}

/// Append `data[start..end]` to `out`.
fn push_range(out: &mut Vec<u8>, data: &[u8], start: usize, end: usize)
    requires
        start <= end <= data@.len(),
    ensures
        final(out)@ == old(out)@ + data@.subrange(start as int, end as int),
{
    out.extend_from_slice(&data[start..end]);
}

/// Append the length `n` in `ls` bytes, big-endian; fails when `ls` is not 1, 2
/// or 4, or `n` does not fit in 1 or 2 bytes.
fn write_length_prefix(output: &mut Vec<u8>, n: usize, ls: u8) -> (r: Result<()>)
    ensures
        (valid_length_size(ls as int) && !(ls == 1 && n > 255) && !(ls == 2 && n > 65535)) ==>
            r is Ok && final(output)@ == old(output)@ + be_bytes(n as int, ls as int),
        !(valid_length_size(ls as int) && !(ls == 1 && n > 255) && !(ls == 2 && n > 65535)) ==>
            (r matches Err(e) && e.is_invalid()),
{
    if ls == 1 {
        if n > 255 {
            return Err(Error::invalid("NAL length", "NAL too large for 1-byte length"));
        }
        output.push((n % 256) as u8);
    } else if ls == 2 {
        if n > 65535 {
            return Err(Error::invalid("NAL length", "NAL too large for 2-byte length"));
        }
        output.push(((n / 256) % 256) as u8);
        output.push((n % 256) as u8);
    } else if ls == 4 {
        output.push(((n / 256 / 256 / 256) % 256) as u8);
        output.push(((n / 256 / 256) % 256) as u8);
        output.push(((n / 256) % 256) as u8);
        output.push((n % 256) as u8);
    } else {
        return Err(Error::invalid("length_size", "Invalid length_size"));
    }
    proof {
        reveal_with_fuel(be_bytes, 5);
        assert(final(output)@ =~= old(output)@ + be_bytes(n as int, ls as int));
    }
    Ok(())
}

/// The bounds of the unit after the start code at `a`.
fn a2a_unit_bounds(data: &[u8], a: usize) -> (r: (usize, usize))
    requires
        is_start_code(data@, a as int),
    ensures
        r.0 == a2a_unit_start(data@, a as int),
        r.1 == a2a_unit_end(data@, r.0 as int),
        a < r.0 <= r.1 <= data@.len(),
{
    let len = data.len();
    assert(len == data@.len());
    let ns = a + 3;
    proof {
        lemma_sc_find(data@, ns as int);
    }
    let ne = match find_start_code_from(data, ns) {
        Some(next_sc) => {
            if next_sc > ns && data[next_sc - 1] == 0 { next_sc - 1 } else { next_sc }
        },
        None => len,
    };
    (ns, ne)
}

impl NalStreamProcessor {
    /// A processor for the given format with an empty buffer.
    pub fn new(format: NalFormat) -> (p: NalStreamProcessor)
        ensures
            p.format() == format,
            p.buffer@.len() == 0,
    {
        NalStreamProcessor { format, buffer: Vec::new() }
    }

    /// The packaging format.
    pub open spec fn format(&self) -> NalFormat {
        self.format
    }

    /// Take the next piece of the stream and return the units it completes. In Annex
    /// B a unit is complete when the next start code arrives; in AVCC when all its
    /// bytes have. What remains waits in the buffer.
    pub fn process(&mut self, data: &[u8]) -> (r: Result<Vec<Vec<u8>>>)
        requires
            old(self).buffer@.len() + data@.len() <= usize::MAX,
        ensures
            final(self).format() == old(self).format(),
            ({
                let s = old(self).buffer@ + data@;
                match old(self).format() {
                    NalFormat::AnnexB => {
                        let (units, fin) = annexb_scan(s, 0, if old(self).buffer@.len() > 0 { Some(0int) } else { None });
                        &&& r matches Ok(v) && v@.len() == units.len()
                            && forall|i: int| 0 <= i < units.len() ==> #[trigger] v@[i]@ == units[i]
                        &&& final(self).buffer@ == match fin { Some(st) => s.subrange(st, s.len() as int), None => s }
                    },
                    NalFormat::Avcc { length_size } => match avcc_scan(s, 0, length_size as int) {
                        None => (r matches Err(e) && e.is_invalid()) && final(self).buffer@ == s,
                        Some((units, off)) => {
                            &&& r matches Ok(v) && v@.len() == units.len()
                                && forall|i: int| 0 <= i < units.len() ==> #[trigger] v@[i]@ == units[i]
                            &&& final(self).buffer@ == s.subrange(off, s.len() as int)
                        },
                    },
                }
            }),
    {
        match self.format {
            NalFormat::AnnexB => self.extract_annex_b(data),
            NalFormat::Avcc { length_size } => self.extract_avcc(data, length_size),
        }
    }

    /// Split the buffered Annex B stream.
    fn extract_annex_b(&mut self, data: &[u8]) -> (r: Result<Vec<Vec<u8>>>)
        requires
            old(self).buffer@.len() + data@.len() <= usize::MAX,
        ensures
            final(self).format() == old(self).format(),
            ({
                let s = old(self).buffer@ + data@;
                let (units, fin) = annexb_scan(s, 0, if old(self).buffer@.len() > 0 { Some(0int) } else { None });
                &&& r matches Ok(v) && v@.len() == units.len()
                    && forall|i: int| 0 <= i < units.len() ==> #[trigger] v@[i]@ == units[i]
                &&& final(self).buffer@ == match fin { Some(st) => s.subrange(st, s.len() as int), None => s }
            }),
    {
        let mut nal_units: Vec<Vec<u8>> = Vec::new();
        let had_buffered_data = self.buffer.len() > 0;
        self.buffer.extend_from_slice(data);
        let ghost s = self.buffer@;
        let ghost init: Option<int> = if had_buffered_data { Some(0int) } else { None };
        let ghost whole = annexb_scan(s, 0, init);
        let mut nal_start: Option<usize> = if had_buffered_data { Some(0) } else { None };
        let mut pos: usize = 0;
        let len = self.buffer.len();
        let ghost mut done: Seq<Seq<u8>> = Seq::empty();
        loop
            invariant
                len == s.len(),
                self.buffer@ == s,
                self.format == old(self).format,
                pos <= len,
                nal_start matches Some(st) ==> st == pos && (st == 0 || s[st - 1] == 1),
                whole == annexb_scan(s, 0, init),
                ({
                    let (rest, fin) = annexb_scan(s, pos as int, match nal_start { Some(st) => Some(st as int), None => None });
                    whole == (done + rest, fin)
                }),
                nal_units@.len() == done.len(),
                forall|i: int| 0 <= i < done.len() ==> #[trigger] nal_units@[i]@ == done[i],
            ensures
                len == s.len(),
                self.buffer@ == s,
                self.format == old(self).format,
                pos <= len,
                whole == (done, match nal_start { Some(st) => Some(st as int), None => None::<int> }),
                nal_start matches Some(st) ==> st <= len,
                nal_units@.len() == done.len(),
                forall|i: int| 0 <= i < done.len() ==> #[trigger] nal_units@[i]@ == done[i],
            decreases len - pos,
        {
            if pos >= len {
                proof {
                    assert(done + Seq::<Seq<u8>>::empty() =~= done);
                }
                break;
            }
            let found = find_start_code_from(self.buffer.as_slice(), pos);
            proof {
                lemma_sc_find(s, pos as int);
            }
            match found {
                None => {
                    proof {
                        assert(done + Seq::<Seq<u8>>::empty() =~= done);
                    }
                    break;
                },
                Some(p) => {
                    let mut sc_pos = p;
                    if sc_pos > 0 && self.buffer[sc_pos - 1] == 0 {
                        sc_pos -= 1;
                    }
                    let sc_len: usize = if sc_pos + 3 < len && self.buffer[sc_pos] == 0 && self.buffer[sc_pos + 1] == 0
                        && self.buffer[sc_pos + 2] == 0 && self.buffer[sc_pos + 3] == 1 { 4 } else { 3 };
                    proof {
                        if sc_pos + 3 < len {
                            let sub = s.subrange(sc_pos as int, sc_pos + 4);
                            if sub == seq![0u8, 0u8, 0u8, 1u8] {
                                assert(sub[0] == s[sc_pos as int] && sub[1] == s[sc_pos + 1]
                                    && sub[2] == s[sc_pos + 2] && sub[3] == s[sc_pos + 3]);
                            }
                            if s[sc_pos as int] == 0 && s[sc_pos + 1] == 0 && s[sc_pos + 2] == 0 && s[sc_pos + 3] == 1 {
                                assert(sub =~= seq![0u8, 0u8, 0u8, 1u8]);
                            }
                        }
                    }
                    let next = sc_pos + sc_len;
                    proof {
                        let (rest, fin) = annexb_scan(s, next as int, Some(next as int));
                        match nal_start {
                            Some(st) => {
                                if (st as int) < sc_pos {
                                    assert(done.push(s.subrange(st as int, sc_pos as int)) + rest
                                        =~= done + (seq![s.subrange(st as int, sc_pos as int)] + rest));
                                }
                            },
                            None => {},
                        }
                    }
                    match nal_start {
                        Some(start) => {
                            if start < sc_pos {
                                let mut unit: Vec<u8> = Vec::new();
                                push_range(&mut unit, self.buffer.as_slice(), start, sc_pos);
                                nal_units.push(unit);
                                proof {
                                    done = done.push(s.subrange(start as int, sc_pos as int));
                                }
                            }
                        },
                        None => {},
                    }
                    nal_start = Some(next);
                    pos = next;
                },
            }
        }
        proof {
            assert(whole.0 == done);
            assert(whole.1 == match nal_start { Some(st) => Some(st as int), None => None::<int> });
        }
        match nal_start {
            Some(start) => {
                let tail = self.buffer.split_off(start);
                self.buffer = tail;
                assert(self.buffer@ == s.subrange(start as int, s.len() as int));
            },
            None => {
                assert(self.buffer@ == s);
            },
        }
        assert(s == old(self).buffer@ + data@);
        Ok(nal_units)
    }

    /// Split the buffered AVCC stream.
    fn extract_avcc(&mut self, data: &[u8], length_size: u8) -> (r: Result<Vec<Vec<u8>>>)
        ensures
            final(self).format() == old(self).format(),
            ({
                let s = old(self).buffer@ + data@;
                match avcc_scan(s, 0, length_size as int) {
                    None => (r matches Err(e) && e.is_invalid()) && final(self).buffer@ == s,
                    Some((units, off)) => {
                        &&& r matches Ok(v) && v@.len() == units.len()
                            && forall|i: int| 0 <= i < units.len() ==> #[trigger] v@[i]@ == units[i]
                        &&& final(self).buffer@ == s.subrange(off, s.len() as int)
                    },
                }
            }),
    {
        let mut nal_units: Vec<Vec<u8>> = Vec::new();
        self.buffer.extend_from_slice(data);
        let ghost s = self.buffer@;
        let ghost whole = avcc_scan(s, 0, length_size as int);
        let ghost mut done: Seq<Seq<u8>> = Seq::empty();
        let len = self.buffer.len();
        let ls = length_size as usize;
        let mut offset: usize = 0;
        while ls <= len - offset
            invariant_except_break
                len == s.len(),
                self.buffer@ == s,
                s == old(self).buffer@ + data@,
                self.format == old(self).format,
                ls == length_size,
                offset <= len,
                whole == avcc_scan(s, 0, length_size as int),
                whole == (match avcc_scan(s, offset as int, ls as int) {
                    None => None,
                    Some((rest, fin)) => Some((done + rest, fin)),
                }),
                nal_units@.len() == done.len(),
                forall|i: int| 0 <= i < done.len() ==> #[trigger] nal_units@[i]@ == done[i],
            ensures
                len == s.len(),
                self.buffer@ == s,
                self.format == old(self).format,
                offset <= len,
                whole == Some((done, offset as int)),
                nal_units@.len() == done.len(),
                forall|i: int| 0 <= i < done.len() ==> #[trigger] nal_units@[i]@ == done[i],
            decreases len - offset,
        {
            let nal_length = match read_length(self.buffer.as_slice(), offset, length_size) {
                Ok(n) => n,
                Err(e) => {
                    proof {
                        assert(avcc_scan(s, offset as int, ls as int) is None);
                        assert(whole is None);
                        assert(self.buffer@ == s);
                        assert(s == old(self).buffer@ + data@);
                    }
                    return Err(e);
                },
            };
            proof {
                lemma_be_value_bound(s, offset as int, ls as int);
            }
            if nal_length <= len - offset - ls {
                let start = offset + ls;
                let end = start + nal_length;
                let mut unit: Vec<u8> = Vec::new();
                push_range(&mut unit, self.buffer.as_slice(), start, end);
                nal_units.push(unit);
                proof {
                    match avcc_scan(s, end as int, ls as int) {
                        None => {},
                        Some((rest, fin)) => {
                            assert(done.push(s.subrange(start as int, end as int)) + rest
                                =~= done + (seq![s.subrange(start as int, end as int)] + rest));
                        },
                    }
                    done = done.push(s.subrange(start as int, end as int));
                }
                offset = end;
            } else {
                proof {
                    assert(done + Seq::<Seq<u8>>::empty() =~= done);
                }
                break;
            }
        }
        proof {
            if offset + ls > len {
                assert(done + Seq::<Seq<u8>>::empty() =~= done);
            }
        }
        let tail = self.buffer.split_off(offset);
        self.buffer = tail;
        assert(self.buffer@ == s.subrange(offset as int, s.len() as int));
        assert(whole == Some((done, offset as int)));
        assert(s == old(self).buffer@ + data@);
        Ok(nal_units)
    }

    /// Convert an Annex B stream to AVCC with `length_size`-byte lengths: each unit
    /// runs from after its `00 00 01` to the next start code (three or four bytes)
    /// or the end. Fails when a unit is too long for the length size or the size is
    /// not 1, 2 or 4.
    pub fn annex_b_to_avcc(data: &[u8], length_size: u8) -> (r: Result<Vec<u8>>)
        ensures
            match a2a(data@, 0, length_size as int) {
                Some(out) => r matches Ok(v) && v@ == out,
                None => r matches Err(e) && e.is_invalid(),
            },
    {
        let mut output: Vec<u8> = Vec::new();
        let ghost s = data@;
        let ghost mut done: Seq<u8> = Seq::empty();
        let len = data.len();
        let mut offset: usize = 0;
        while offset < len
            invariant_except_break
                len == s.len(),
                s == data@,
                offset <= len,
                a2a(s, 0, length_size as int) == (match a2a(s, offset as int, length_size as int) {
                    None => None,
                    Some(rest) => Some(done + rest),
                }),
                output@ == done,
            ensures
                a2a(s, 0, length_size as int) == Some(done),
                output@ == done,
            decreases len - offset,
        {
            let found = find_start_code_from(data, offset);
            match found {
                None => {
                    proof {
                        assert(done + Seq::<u8>::empty() =~= done);
                    }
                    break;
                },
                Some(abs) => {
                    proof {
                        lemma_sc_find(s, offset as int);
                    }
                    let (nal_start, nal_end) = a2a_unit_bounds(data, abs);
                    let nal_length = nal_end - nal_start;
                    write_length_prefix(&mut output, nal_length, length_size)?;
                    push_range(&mut output, data, nal_start, nal_end);
                    proof {
                        let piece = be_bytes(nal_length as int, length_size as int) + s.subrange(nal_start as int, nal_end as int);
                        match a2a(s, nal_end as int, length_size as int) {
                            None => {},
                            Some(rest) => {
                                assert(done + piece + rest =~= done + (piece + rest));
                            },
                        }
                        done = done + piece;
                    }
                    offset = nal_end;
                },
            }
        }
        proof {
            if offset >= len {
                assert(done + Seq::<u8>::empty() =~= done);
            }
        }
        Ok(output)
    }

    /// Convert AVCC with `length_size`-byte lengths to Annex B with four-byte start
    /// codes. Fails when a unit runs past the data or the size is not 1, 2 or 4.
    pub fn avcc_to_annex_b(data: &[u8], length_size: u8) -> (r: Result<Vec<u8>>)
        ensures
            match a2b(data@, 0, length_size as int) {
                Some(out) => r matches Ok(v) && v@ == out,
                None => r matches Err(e) && e.is_invalid(),
            },
    {
        let mut output: Vec<u8> = Vec::new();
        let ghost s = data@;
        let ghost mut done: Seq<u8> = Seq::empty();
        let len = data.len();
        let ls = length_size as usize;
        let mut offset: usize = 0;
        while ls <= len - offset
            invariant
                len == s.len(),
                s == data@,
                ls == length_size,
                offset <= len,
                a2b(s, 0, length_size as int) == (match a2b(s, offset as int, ls as int) {
                    None => None,
                    Some(rest) => Some(done + rest),
                }),
                output@ == done,
            decreases len - offset,
        {
            let nal_length = read_length(data, offset, length_size)?;
            proof {
                lemma_be_value_bound(s, offset as int, ls as int);
            }
            offset += ls;
            if nal_length > len - offset {
                return Err(Error::invalid("AVCC data", "Incomplete NAL unit"));
            }
            output.push(0);
            output.push(0);
            output.push(0);
            output.push(1);
            push_range(&mut output, data, offset, offset + nal_length);
            proof {
                let piece = seq![0u8, 0u8, 0u8, 1u8] + s.subrange(offset as int, offset + nal_length);
                assert(output@ =~= done + piece);
                match a2b(s, offset + nal_length, ls as int) {
                    None => {},
                    Some(rest) => {
                        assert(done + piece + rest =~= done + (piece + rest));
                    },
                }
                done = done + piece;
            }
            offset += nal_length;
        }
        proof {
            assert(done + Seq::<u8>::empty() =~= done);
        }
        Ok(output)
    }

    /// Empty the buffer.
    pub fn reset(&mut self)
        ensures
            final(self).buffer@.len() == 0,
            final(self).format() == old(self).format(),
    {
        self.buffer.clear();
    }
}

} // verus!
