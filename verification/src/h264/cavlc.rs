//! CAVLC residual decoding: coefficient token, trailing ones, levels, zeros and
//! runs, placed into a block of coefficients.
use vstd::prelude::*;
use crate::error::Result;
use super::nal::{BitReader, rd_bits, lemma_bits_value_bound};
use vstd::arithmetic::power2::{pow2, lemma2_to64};

verus! {

/// `(TotalCoeffs, TrailingOnes)` and the position after the six-bit token.
pub open spec fn coeff_token(s: Seq<u8>, p: int, max: int) -> Option<(int, int, int)> {
    match rd_bits(s, p, 6) {
        None => None,
        Some((code, q)) => {
            let (total, t1) = if code / 4 == 1 { (0int, 0int) }
                else if code / 4 == 5 { (1int, 1int) }
                else if code / 4 == 7 { (2int, 2int) }
                else if code / 4 == 4 { (1int, 0int) }
                else if code / 4 == 3 { (2int, 1int) }
                else if code / 4 == 2 { (3int, 3int) }
                else {
                    let t = (code / 8) as int;
                    let o = (code % 4) as int;
                    (if t < max { t } else { max }, if o < 3 { o } else { 3 })
                };
            Some((total, if t1 < total { t1 } else { total }, q))
        },
    }
}

/// The level prefix from `p`, `k` zero bits already read: the count of zeros
/// before a one bit, at most 16 (the seventeenth bit is not read).
pub open spec fn level_prefix_from(s: Seq<u8>, p: int, k: int) -> Option<(int, int)>
    decreases 16 - k,
{
    if k >= 16 {
        Some((16, p))
    } else {
        match rd_bits(s, p, 1) {
            None => None,
            Some((b, q)) => if b == 0 { level_prefix_from(s, q, k + 1) } else { Some((k, q)) },
        }
    }
}

/// The signed level of a level code: even codes positive, odd ones negative.
pub open spec fn level_of(code: int) -> int {
    if code % 2 == 0 { (code + 2) / 2 } else { -((code + 1) / 2) }
}

/// The level code mapping pairs the codes 0, 1, 2, 3, ... with the non-zero levels
/// 1, -1, 2, -2, ... one to one: code `2k` is `k + 1`, code `2k + 1` is `-(k + 1)`.
pub proof fn lemma_level_mapping(a: int, b: int, k: int)
    requires
        a >= 0,
        b >= 0,
        k >= 0,
    ensures
        level_of(2 * k) == k + 1,
        level_of(2 * k + 1) == -(k + 1),
        level_of(a) != 0,
        level_of(a) == level_of(b) ==> a == b,
{
}

/// One level with suffix length `sl` (0 or 1).
pub open spec fn level_at(s: Seq<u8>, p: int, sl: int) -> Option<(int, int)> {
    match level_prefix_from(s, p, 0) {
        None => None,
        Some((prefix, q)) => {
            if sl == 0 && prefix < 14 {
                Some((level_of(prefix), q))
            } else if sl > 0 {
                match rd_bits(s, q, sl as nat) {
                    None => None,
                    Some((suffix, q2)) => Some((level_of(prefix * pow2(sl as nat) + suffix), q2)),
                }
            } else {
                Some((level_of(prefix + 15), q))
            }
        },
    }
}

/// `n` trailing-one signs: -1 for a one bit, 1 for a zero bit.
pub open spec fn trailing_signs(s: Seq<u8>, p: int, n: int) -> Option<(Seq<i16>, int)>
    decreases n,
{
    if n <= 0 {
        Some((Seq::empty(), p))
    } else {
        match trailing_signs(s, p, n - 1) {
            None => None,
            Some((v, q)) => match rd_bits(s, q, 1) {
                None => None,
                Some((b, q2)) => Some((v.push(if b == 1 { -1i16 } else { 1i16 }), q2)),
            },
        }
    }
}

/// `n` levels with suffix length `sl`.
pub open spec fn levels_from(s: Seq<u8>, p: int, sl: int, n: int) -> Option<(Seq<i16>, int)>
    decreases n,
{
    if n <= 0 {
        Some((Seq::empty(), p))
    } else {
        match levels_from(s, p, sl, n - 1) {
            None => None,
            Some((v, q)) => match level_at(s, q, sl) {
                None => None,
                Some((l, q2)) => Some((v.push(l as i16), q2)),
            },
        }
    }
}

/// `ceil(log2(n))` for `n` from 2 on, at most `cap` (cap 4 or less).
pub open spec fn code_bits(n: int, cap: int) -> int {
    let b = if n <= 1 { 0int } else if n <= 2 { 1int } else if n <= 4 { 2int } else if n <= 8 { 3int } else { 4int };
    if b < cap { b } else { cap }
}

/// `total_zeros` for `total` of `max` coefficients.
pub open spec fn total_zeros_at(s: Seq<u8>, p: int, total: int, max: int) -> Option<(int, int)> {
    if total >= max {
        Some((0, p))
    } else {
        let mz = max - total;
        if mz <= 1 {
            match rd_bits(s, p, 1) {
                None => None,
                Some((b, q)) => Some((b as int, q)),
            }
        } else {
            match rd_bits(s, p, code_bits(mz, 4) as nat) {
                None => None,
                Some((v, q)) => Some((if v < mz { v as int } else { mz }, q)),
            }
        }
    }
}

/// `run_before` with `zl` zeros left.
pub open spec fn run_before_at(s: Seq<u8>, p: int, zl: int) -> Option<(int, int)> {
    if zl == 0 {
        Some((0, p))
    } else if zl == 1 {
        match rd_bits(s, p, 1) {
            None => None,
            Some((b, q)) => Some((b as int, q)),
        }
    } else {
        match rd_bits(s, p, code_bits(zl, 3) as nat) {
            None => None,
            Some((v, q)) => Some((if v < zl { v as int } else { zl }, q)),
        }
    }
}

/// The runs of the first `n` coefficients read with `zl` zeros left, and the zeros
/// left after them.
pub open spec fn runs_from(s: Seq<u8>, p: int, zl: int, n: int) -> Option<(Seq<int>, int, int)>
    decreases n,
{
    if n <= 0 {
        Some((Seq::empty(), zl, p))
    } else {
        match runs_from(s, p, zl, n - 1) {
            None => None,
            Some((runs, left, q)) => {
                if left > 0 {
                    match run_before_at(s, q, left) {
                        None => None,
                        Some((r, q2)) => Some((runs.push(r), left - r, q2)),
                    }
                } else {
                    Some((runs.push(0), left, q))
                }
            },
        }
    }
}

/// Coefficients placed from the last down: position `idx` drops by each run (not
/// below 0), takes the level, then moves down one.
pub open spec fn place(coeffs: Seq<i16>, levels: Seq<i16>, runs: Seq<int>, i: int, idx: int) -> Seq<i16>
    decreases i,
{
    if i <= 0 {
        coeffs
    } else {
        let j = i - 1;
        let at = if idx >= runs[j] { idx - runs[j] } else { 0 };
        let c2 = if at < coeffs.len() { coeffs.update(at, levels[j]) } else { coeffs };
        place(c2, levels, runs, j, if at > 0 { at - 1 } else { at })
    }
}

/// The residual block read at `p` with `max` coefficients, and the position after it.
pub open spec fn cavlc_block(s: Seq<u8>, p: int, max: int) -> Option<(Seq<i16>, int)> {
    let zero = Seq::new(max as nat, |i: int| 0i16);
    match coeff_token(s, p, max) {
        None => None,
        Some((total, t1, p1)) => {
            if total == 0 {
                Some((zero, p1))
            } else {
                match trailing_signs(s, p1, t1) {
                    None => None,
                    Some((signs, p2)) => {
                        let sl = if total > 10 && t1 < 3 { 1int } else { 0int };
                        match levels_from(s, p2, sl, total - t1) {
                            None => None,
                            Some((rest, p3)) => {
                                let levels = signs + rest;
                                match (if total < max { total_zeros_at(s, p3, total, max) } else { Some((0int, p3)) }) {
                                    None => None,
                                    Some((tz, p4)) => match runs_from(s, p4, tz, total - 1) {
                                        None => None,
                                        Some((runs, left, p5)) =>
                                            Some((place(zero, levels, runs.push(left), total, max - 1), p5)),
                                    },
                                }
                            },
                        }
                    },
                }
            }
        },
    }
}

proof fn lemma_rd_bits_pos(s: Seq<u8>, p: int, n: nat)
    ensures
        rd_bits(s, p, n) matches Some((v, q)) ==> q == p + n && v < pow2(n),
{
    if 0 <= p && n <= 32 && p + n <= s.len() * 8 {
        lemma_bits_value_bound(s, p, n);
    }
}

/// Read `n` bits through the reader, with its result in terms of `rd_bits`.
fn read_n(br: &mut BitReader, n: u8) -> (r: Result<u32>)
    requires
        old(br).wf(),
    ensures
        final(br).wf(),
        final(br).bytes() == old(br).bytes(),
        match rd_bits(old(br).bytes(), old(br).pos(), n as nat) {
            Some((v, q)) => r matches Ok(x) && x == v && final(br).pos() == q,
            None => r is Err,
        },
{
    proof {
        old(br).lemma_pos();
    }
    br.read_bits(n)
}

/// The coefficient token.
fn decode_coeff_token(br: &mut BitReader, max_num_coeff: usize) -> (r: Result<(usize, usize)>)
    requires
        old(br).wf(),
    ensures
        final(br).wf(),
        final(br).bytes() == old(br).bytes(),
        match coeff_token(old(br).bytes(), old(br).pos(), max_num_coeff as int) {
            Some((t, o, q)) => r matches Ok(v) && v.0 == t && v.1 == o && final(br).pos() == q,
            None => r is Err,
        },
{
    proof {
        lemma_rd_bits_pos(br.bytes(), br.pos(), 6);
        lemma2_to64();
    }
    let code = read_n(br, 6)?;
    let hi = code / 4;
    let (total, trailing): (usize, usize) = if hi == 1 {
        (0, 0)
    } else if hi == 5 {
        (1, 1)
    } else if hi == 7 {
        (2, 2)
    } else if hi == 4 {
        (1, 0)
    } else if hi == 3 {
        (2, 1)
    } else if hi == 2 {
        (3, 3)
    } else {
        let t = (code / 8) as usize;
        let o = (code % 4) as usize;
        (if t < max_num_coeff { t } else { max_num_coeff }, if o < 3 { o } else { 3 })
    };
    Ok((total, if trailing < total { trailing } else { total }))
}

/// Read the level prefix: zero bits before a one bit, at most 16.
pub fn read_level_prefix(br: &mut BitReader) -> (r: Result<usize>)
    requires
        old(br).wf(),
    ensures
        final(br).wf(),
        final(br).bytes() == old(br).bytes(),
        match level_prefix_from(old(br).bytes(), old(br).pos(), 0) {
            Some((v, q)) => r matches Ok(x) && x == v && final(br).pos() == q,
            None => r is Err,
        },
{
    let ghost s = br.bytes();
    let mut prefix: usize = 0;
    loop
        invariant_except_break
            br.wf(),
            br.bytes() == s,
            s == old(br).bytes(),
            prefix < 16,
            level_prefix_from(s, old(br).pos(), 0) == level_prefix_from(s, br.pos(), prefix as int),
        ensures
            br.wf(),
            br.bytes() == s,
            level_prefix_from(s, old(br).pos(), 0) == Some((prefix as int, br.pos())),
        decreases 16 - prefix,
    {
        let ghost p = br.pos();
        let b = read_n(br, 1)?;
        if b != 0 {
            break;
        }
        prefix += 1;
        if prefix >= 16 {
            break;
        }
    }
    Ok(prefix)
}

/// One level with suffix length 0 or 1.
fn decode_level(br: &mut BitReader, suffix_length: usize) -> (r: Result<i16>)
    requires
        old(br).wf(),
        suffix_length <= 1,
    ensures
        final(br).wf(),
        final(br).bytes() == old(br).bytes(),
        match level_at(old(br).bytes(), old(br).pos(), suffix_length as int) {
            Some((v, q)) => r matches Ok(x) && x == v && final(br).pos() == q,
            None => r is Err,
        },
{
    let ghost s = br.bytes();
    proof {
        lemma_level_prefix_bound(s, br.pos(), 0);
    }
    let prefix = read_level_prefix(br)?;
    proof {
        lemma2_to64();
        lemma_rd_bits_pos(s, br.pos(), suffix_length as nat);
    }
    let level_code: usize = if suffix_length == 0 && prefix < 14 {
        prefix
    } else if suffix_length > 0 {
        let suffix = read_n(br, suffix_length as u8)? as usize;
        prefix * 2 + suffix
    } else {
        prefix + 15
    };
    let level: i16 = if level_code % 2 == 0 {
        (level_code as i16 + 2) / 2
    } else {
        -((level_code as i16 + 1) / 2)
    };
    Ok(level)
}

/// `total_zeros`.
fn decode_total_zeros(br: &mut BitReader, total_coeffs: usize, max_num_coeff: usize) -> (r: Result<usize>)
    requires
        old(br).wf(),
    ensures
        final(br).wf(),
        final(br).bytes() == old(br).bytes(),
        match total_zeros_at(old(br).bytes(), old(br).pos(), total_coeffs as int, max_num_coeff as int) {
            Some((v, q)) => r matches Ok(x) && x == v && final(br).pos() == q,
            None => r is Err,
        },
{
    if total_coeffs >= max_num_coeff {
        return Ok(0);
    }
    let max_zeros = max_num_coeff - total_coeffs;
    if max_zeros <= 1 {
        let b = read_n(br, 1)?;
        return Ok(b as usize);
    }
    let bits: u8 = if max_zeros <= 2 { 1 } else if max_zeros <= 4 { 2 } else if max_zeros <= 8 { 3 } else { 4 };
    let v = read_n(br, bits)? as usize;
    Ok(if v < max_zeros { v } else { max_zeros })
}

/// `run_before` with `zeros_left` zeros left.
fn decode_run_before(br: &mut BitReader, zeros_left: usize) -> (r: Result<usize>)
    requires
        old(br).wf(),
    ensures
        final(br).wf(),
        final(br).bytes() == old(br).bytes(),
        match run_before_at(old(br).bytes(), old(br).pos(), zeros_left as int) {
            Some((v, q)) => r matches Ok(x) && x == v && final(br).pos() == q,
            None => r is Err,
        },
{
    if zeros_left == 0 {
        return Ok(0);
    }
    if zeros_left == 1 {
        let b = read_n(br, 1)?;
        return Ok(b as usize);
    }
    let bits: u8 = if zeros_left <= 2 { 1 } else if zeros_left <= 4 { 2 } else { 3 };
    let v = read_n(br, bits)? as usize;
    Ok(if v < zeros_left { v } else { zeros_left })
}

proof fn lemma_trailing_len(s: Seq<u8>, p: int, n: int)
    requires
        n >= 0,
    ensures
        trailing_signs(s, p, n) matches Some((v, q)) ==> v.len() == n,
    decreases n,
{
    if n > 0 {
        lemma_trailing_len(s, p, n - 1);
    }
}

proof fn lemma_levels_len(s: Seq<u8>, p: int, sl: int, n: int)
    requires
        n >= 0,
    ensures
        levels_from(s, p, sl, n) matches Some((v, q)) ==> v.len() == n,
    decreases n,
{
    if n > 0 {
        lemma_levels_len(s, p, sl, n - 1);
    }
}

proof fn lemma_runs_len(s: Seq<u8>, p: int, zl: int, n: int)
    requires
        n >= 0,
    ensures
        runs_from(s, p, zl, n) matches Some((v, left, q)) ==> v.len() == n,
    decreases n,
{
    if n > 0 {
        lemma_runs_len(s, p, zl, n - 1);
    }
}

proof fn lemma_trailing_none(s: Seq<u8>, p: int, k: int, m: int)
    requires
        0 <= k <= m,
        trailing_signs(s, p, k) is None,
    ensures
        trailing_signs(s, p, m) is None,
    decreases m - k,
{
    if k < m {
        lemma_trailing_none(s, p, k, m - 1);
    }
}

proof fn lemma_levels_none(s: Seq<u8>, p: int, sl: int, k: int, m: int)
    requires
        0 <= k <= m,
        levels_from(s, p, sl, k) is None,
    ensures
        levels_from(s, p, sl, m) is None,
    decreases m - k,
{
    if k < m {
        lemma_levels_none(s, p, sl, k, m - 1);
    }
}

proof fn lemma_runs_none(s: Seq<u8>, p: int, zl: int, k: int, m: int)
    requires
        0 <= k <= m,
        runs_from(s, p, zl, k) is None,
    ensures
        runs_from(s, p, zl, m) is None,
    decreases m - k,
{
    if k < m {
        lemma_runs_none(s, p, zl, k, m - 1);
    }
}

/// Read `n` trailing-one signs.
fn read_trailing_signs(br: &mut BitReader, n: usize) -> (r: Result<Vec<i16>>)
    requires
        old(br).wf(),
    ensures
        final(br).wf(),
        final(br).bytes() == old(br).bytes(),
        match trailing_signs(old(br).bytes(), old(br).pos(), n as int) {
            Some((v, q)) => r matches Ok(x) && x@ == v && final(br).pos() == q,
            None => r is Err,
        },
{
    let ghost s = br.bytes();
    let ghost p = br.pos();
    let mut out: Vec<i16> = Vec::new();
    let mut i: usize = 0;
    while i < n
        invariant
            br.wf(),
            br.bytes() == s,
            s == old(br).bytes(),
            p == old(br).pos(),
            i <= n,
            trailing_signs(s, p, i as int) == Some((out@, br.pos())),
        decreases n - i,
    {
        let sign = match read_n(br, 1) {
            Ok(b) => b,
            Err(e) => {
                proof {
                    lemma_trailing_none(s, p, i as int + 1, n as int);
                }
                return Err(e);
            },
        };
        out.push(if sign == 1 { -1i16 } else { 1i16 });
        i += 1;
    }
    Ok(out)
}

proof fn lemma_level_prefix_bound(s: Seq<u8>, p: int, k: int)
    requires
        0 <= k <= 16,
    ensures
        level_prefix_from(s, p, k) matches Some((v, q)) ==> v <= 16 && v >= k,
    decreases 16 - k,
{
    if k < 16 {
        match rd_bits(s, p, 1) {
            None => {},
            Some((b, q)) => {
                if b == 0 {
                    lemma_level_prefix_bound(s, q, k + 1);
                }
            },
        }
    }
}

/// Read `n` levels with suffix length `sl`.
fn read_levels(br: &mut BitReader, sl: usize, n: usize) -> (r: Result<Vec<i16>>)
    requires
        old(br).wf(),
        sl <= 1,
    ensures
        final(br).wf(),
        final(br).bytes() == old(br).bytes(),
        match levels_from(old(br).bytes(), old(br).pos(), sl as int, n as int) {
            Some((v, q)) => r matches Ok(x) && x@ == v && final(br).pos() == q,
            None => r is Err,
        },
{
    let ghost s = br.bytes();
    let ghost p = br.pos();
    let mut out: Vec<i16> = Vec::new();
    let mut i: usize = 0;
    while i < n
        invariant
            br.wf(),
            br.bytes() == s,
            s == old(br).bytes(),
            p == old(br).pos(),
            sl <= 1,
            i <= n,
            levels_from(s, p, sl as int, i as int) == Some((out@, br.pos())),
        decreases n - i,
    {
        let level = match decode_level(br, sl) {
            Ok(l) => l,
            Err(e) => {
                proof {
                    lemma_levels_none(s, p, sl as int, i as int + 1, n as int);
                }
                return Err(e);
            },
        };
        out.push(level);
        i += 1;
    }
    Ok(out)
}

/// Read the runs of the first `n` coefficients with `zl` zeros left.
fn read_runs(br: &mut BitReader, zl: usize, n: usize) -> (r: Result<(Vec<usize>, usize)>)
    requires
        old(br).wf(),
    ensures
        final(br).wf(),
        final(br).bytes() == old(br).bytes(),
        match runs_from(old(br).bytes(), old(br).pos(), zl as int, n as int) {
            Some((runs, left, q)) => r matches Ok(x) && x.0@.map_values(|v: usize| v as int) == runs
                && x.1 == left && final(br).pos() == q,
            None => r is Err,
        },
{
    let ghost s = br.bytes();
    let ghost p = br.pos();
    let mut out: Vec<usize> = Vec::new();
    let mut zeros_left = zl;
    let mut i: usize = 0;
    while i < n
        invariant
            br.wf(),
            br.bytes() == s,
            s == old(br).bytes(),
            p == old(br).pos(),
            i <= n,
            out@.len() == i,
            runs_from(s, p, zl as int, i as int) == Some((out@.map_values(|v: usize| v as int), zeros_left as int, br.pos())),
        decreases n - i,
    {
        let ghost before = out@;
        if zeros_left > 0 {
            proof {
                lemma_rd_bits_pos(s, br.pos(), 1);
                lemma2_to64();
            }
            let rb = match decode_run_before(br, zeros_left) {
                Ok(v) => v,
                Err(e) => {
                    proof {
                        lemma_runs_none(s, p, zl as int, i as int + 1, n as int);
                    }
                    return Err(e);
                },
            };
            out.push(rb);
            zeros_left -= rb;
        } else {
            out.push(0);
        }
        proof {
            assert(out@.map_values(|v: usize| v as int) =~= before.map_values(|v: usize| v as int).push(out@[i as int] as int));
        }
        i += 1;
    }
    Ok((out, zeros_left))
}

/// Place the levels into a zero block from the last coefficient down.
fn place_coeffs(levels: &Vec<i16>, runs: &Vec<usize>, max_num_coeff: usize) -> (c: Vec<i16>)
    requires
        max_num_coeff >= 1,
        levels@.len() == runs@.len(),
    ensures
        c@ == place(Seq::new(max_num_coeff as nat, |i: int| 0i16), levels@, runs@.map_values(|v: usize| v as int),
            levels@.len() as int, max_num_coeff - 1),
{
    let ghost runs_all = runs@.map_values(|v: usize| v as int);
    let mut coeffs = vec![0i16; max_num_coeff];
    assert(coeffs@ =~= Seq::new(max_num_coeff as nat, |i: int| 0i16));
    let mut coeff_idx: usize = max_num_coeff - 1;
    let mut t: usize = levels.len();
    while t > 0
        invariant
            t <= levels@.len(),
            levels@.len() == runs@.len(),
            runs_all == runs@.map_values(|v: usize| v as int),
            coeffs@.len() == max_num_coeff,
            coeff_idx < max_num_coeff,
            place(Seq::new(max_num_coeff as nat, |i: int| 0i16), levels@, runs_all, levels@.len() as int, max_num_coeff - 1)
                == place(coeffs@, levels@, runs_all, t as int, coeff_idx as int),
        decreases t,
    {
        let q = t - 1;
        let rb = runs[q];
        coeff_idx = if coeff_idx >= rb { coeff_idx - rb } else { 0 };
        if coeff_idx < max_num_coeff {
            coeffs.set(coeff_idx, levels[q]);
        }
        if coeff_idx > 0 {
            coeff_idx -= 1;
        }
        t = q;
    }
    coeffs
}

/// Decode one residual block of `max_num_coeff` coefficients.
pub fn decode_residual_block_cavlc(br: &mut BitReader, max_num_coeff: usize) -> (r: Result<Vec<i16>>)
    requires
        old(br).wf(),
        max_num_coeff >= 1,
    ensures
        final(br).wf(),
        final(br).bytes() == old(br).bytes(),
        match cavlc_block(old(br).bytes(), old(br).pos(), max_num_coeff as int) {
            Some((c, q)) => r matches Ok(v) && v@ == c && final(br).pos() == q,
            None => r is Err,
        },
{
    let (total_coeffs, trailing_ones) = decode_coeff_token(br, max_num_coeff)?;
    if total_coeffs == 0 {
        let coeffs = vec![0i16; max_num_coeff];
        assert(coeffs@ =~= Seq::new(max_num_coeff as nat, |i: int| 0i16));
        return Ok(coeffs);
    }
    proof {
        lemma_trailing_len(br.bytes(), br.pos(), trailing_ones as int);
    }
    let mut level_val = read_trailing_signs(br, trailing_ones)?;
    let suffix_length: usize = if total_coeffs > 10 && trailing_ones < 3 { 1 } else { 0 };
    proof {
        lemma_levels_len(br.bytes(), br.pos(), suffix_length as int, (total_coeffs - trailing_ones) as int);
    }
    let mut rest = read_levels(br, suffix_length, total_coeffs - trailing_ones)?;
    level_val.append(&mut rest);
    let total_zeros = if total_coeffs < max_num_coeff {
        decode_total_zeros(br, total_coeffs, max_num_coeff)?
    } else {
        0
    };
    proof {
        lemma_runs_len(br.bytes(), br.pos(), total_zeros as int, (total_coeffs - 1) as int);
    }
    let (mut run_before, zeros_left) = read_runs(br, total_zeros, total_coeffs - 1)?;
    let ghost runs_head = run_before@;
    run_before.push(zeros_left);
    proof {
        assert(run_before@.map_values(|v: usize| v as int)
            =~= runs_head.map_values(|v: usize| v as int).push(zeros_left as int));
    }
    let coeffs = place_coeffs(&level_val, &run_before, max_num_coeff);
    Ok(coeffs)
}

} // verus!
