//! Binarizations read bin by bin from a bin source.
use vstd::prelude::*;
use vstd::arithmetic::power2::pow2;
use crate::error::{Error, Result};

verus! {

/// A source of bins that knows the bins it gives next.
pub trait BinSource {
    /// The bins the source gives next, in order; once they run out it fails.
    spec fn upcoming(&self) -> Seq<u8>;

    /// The error the source last failed with, if any.
    spec fn last_error(&self) -> Option<Error>;

    /// Give the next bin, or fail when none is left; a failure is remembered as the
    /// last error.
    fn next_bin(&mut self) -> (r: Result<u8>)
        ensures
            r matches Err(e) ==> final(self).last_error() == Some(e),
            old(self).upcoming().len() > 0 ==> r == Ok::<u8, Error>(old(self).upcoming()[0])
                && final(self).upcoming() == old(self).upcoming().drop_first(),
            old(self).upcoming().len() == 0 ==> r is Err && final(self).upcoming() == old(self).upcoming();
}

/// A bin source over a list of bins.
pub struct BinQueue {
    bins: Vec<u8>,
    pos: usize,
    failure: Ghost<Option<Error>>,
}

impl BinQueue {
    #[verifier::type_invariant]
    spec fn pos_in_range(&self) -> bool {
        self.pos <= self.bins@.len()
    }

    /// A source giving `bins` in order.
    pub fn new(bins: Vec<u8>) -> (q: BinQueue)
        ensures
            q.upcoming() == bins@,
    {
        let q = BinQueue { bins, pos: 0, failure: Ghost(None) };
        assert(q.bins@.subrange(0, q.bins@.len() as int) =~= q.bins@);
        q
    }
}

impl BinSource for BinQueue {
    closed spec fn upcoming(&self) -> Seq<u8> {
        self.bins@.subrange(self.pos as int, self.bins@.len() as int)
    }

    closed spec fn last_error(&self) -> Option<Error> {
        self.failure@
    }

    fn next_bin(&mut self) -> (r: Result<u8>) {
        proof {
            use_type_invariant(&*self);
        }
        if self.pos < self.bins.len() {
            let b = self.bins[self.pos];
            self.pos = self.pos + 1;
            assert(self.upcoming() =~= old(self).upcoming().drop_first());
            Ok(b)
        } else {
            let e = Error::invalid("CABAC", "No bins left");
            self.failure = Ghost(Some(e));
            Err(e)
        }
    }
}

/// Reading unary with at most `max` bins from `bs`: the value (nonzero bins before
/// the first zero bin, or `max`) and the bins used; `None` when `bs` runs out first.
pub open spec fn unary_read(bs: Seq<u8>, max: nat) -> Option<(nat, nat)>
    decreases max,
{
    if max == 0 {
        Some((0, 0))
    } else if bs.len() == 0 {
        None
    } else if bs[0] == 0 {
        Some((0, 1))
    } else {
        match unary_read(bs.drop_first(), (max - 1) as nat) {
            Some((v, c)) => Some((v + 1, c + 1)),
            None => None,
        }
    }
}

/// The suffix of an Exp-Golomb code: each bin shifted in at the low end with
/// `(s << 1) | bin`.
pub open spec fn eg_suffix_value(bs: Seq<u8>) -> u32
    decreases bs.len(),
{
    if bs.len() == 0 {
        0
    } else {
        (eg_suffix_value(bs.drop_last()) << 1) | (bs.last() as u32)
    }
}

/// The index of the first nonzero bin of `bs` from `i`, looking at the first 32 bins
/// only: `32` when they are all zero, `bs.len()` when `bs` runs out first.
pub open spec fn first_nonzero(bs: Seq<u8>, i: nat) -> nat
    decreases 32 - i,
{
    if i >= 32 || i >= bs.len() || bs[i as int] != 0 {
        i
    } else {
        first_nonzero(bs, i + 1)
    }
}

/// The value of an Exp-Golomb code with prefix length `k`: `2^k - 1` plus the suffix
/// of the `k` bins after the prefix's nonzero bin.
pub open spec fn eg_total(bs: Seq<u8>, k: nat) -> int {
    (pow2(k) - 1) + eg_suffix_value(bs.subrange(k + 1 as int, 2 * k + 1 as int)) as int
}

proof fn lemma_first_nonzero(bs: Seq<u8>, i: nat)
    requires
        i <= 32,
        forall|j: int| 0 <= j < i ==> #[trigger] bs[j] == 0,
        i <= bs.len(),
    ensures
        i <= first_nonzero(bs, i) <= 32,
        first_nonzero(bs, i) <= bs.len(),
        forall|j: int| 0 <= j < first_nonzero(bs, i) ==> #[trigger] bs[j] == 0,
        first_nonzero(bs, i) < 32 && first_nonzero(bs, i) < bs.len() ==> bs[first_nonzero(bs, i) as int] != 0,
    decreases 32 - i,
{
    if i < 32 && i < bs.len() && bs[i as int] == 0 {
        lemma_first_nonzero(bs, i + 1);
    }
}

/// Unary: the number of nonzero bins before the first zero bin, reading at most
/// `max_val` bins; fails when the source runs out first.
pub fn decode_unary<S: BinSource>(max_val: u32, src: &mut S) -> (r: Result<u32>)
    ensures
        r matches Err(e) ==> final(src).last_error() == Some(e),
        match unary_read(old(src).upcoming(), max_val as nat) {
            Some((v, c)) => r == Ok::<u32, Error>(v as u32) && final(src).upcoming() == old(src).upcoming().skip(c as int),
            None => r is Err,
        },
{
    let ghost bs0 = src.upcoming();
    let mut sym_val: u32 = 0;
    let mut stopped = false;
    while sym_val < max_val
        invariant_except_break
            !stopped,
            bs0 == old(src).upcoming(),
            sym_val <= max_val,
            src.upcoming() == bs0.skip(sym_val as int),
            sym_val <= bs0.len(),
            forall|i: int| 0 <= i < sym_val ==> #[trigger] bs0[i] != 0,
        ensures
            bs0 == old(src).upcoming(),
            sym_val <= max_val,
            forall|i: int| 0 <= i < sym_val ==> #[trigger] bs0[i] != 0,
            stopped ==> sym_val < max_val && sym_val < bs0.len() && bs0[sym_val as int] == 0
                && src.upcoming() == bs0.skip(sym_val + 1),
            !stopped ==> sym_val == max_val && sym_val <= bs0.len() && src.upcoming() == bs0.skip(sym_val as int),
        decreases max_val - sym_val,
    {
        let ghost before = src.upcoming();
        let res = src.next_bin();
        let bin = match res {
            Ok(b) => b,
            Err(e) => {
                proof {
                    assert(before.len() == 0);
                    assert(bs0.len() == sym_val);
                    lemma_unary_short(bs0, max_val as nat, sym_val as nat);
                }
                return Err(e);
            },
        };
        proof {
            assert(bin == bs0[sym_val as int]);
            assert(src.upcoming() =~= bs0.skip(sym_val + 1));
        }
        if bin == 0 {
            stopped = true;
            break;
        }
        sym_val += 1;
    }
    proof {
        if stopped {
            lemma_unary_zero(bs0, max_val as nat, sym_val as nat);
        } else {
            lemma_unary_full(bs0, max_val as nat);
        }
    }
    Ok(sym_val)
}

/// With `n` nonzero bins and then a zero bin, unary with a larger maximum reads `n`
/// from `n + 1` bins.
proof fn lemma_unary_zero(bs: Seq<u8>, max: nat, n: nat)
    requires
        n < max,
        n < bs.len(),
        bs[n as int] == 0,
        forall|i: int| 0 <= i < n ==> #[trigger] bs[i] != 0,
    ensures
        unary_read(bs, max) == Some((n, n + 1)),
    decreases n,
{
    if n > 0 {
        lemma_unary_zero(bs.drop_first(), (max - 1) as nat, (n - 1) as nat);
    }
}

/// With `max` nonzero bins, unary reads `max` from `max` bins.
proof fn lemma_unary_full(bs: Seq<u8>, max: nat)
    requires
        max <= bs.len(),
        forall|i: int| 0 <= i < max ==> #[trigger] bs[i] != 0,
    ensures
        unary_read(bs, max) == Some((max, max)),
    decreases max,
{
    if max > 0 {
        lemma_unary_full(bs.drop_first(), (max - 1) as nat);
    }
}

/// With `n` nonzero bins and nothing after them, unary with a larger maximum runs out.
proof fn lemma_unary_short(bs: Seq<u8>, max: nat, n: nat)
    requires
        n < max,
        n == bs.len(),
        forall|i: int| 0 <= i < n ==> #[trigger] bs[i] != 0,
    ensures
        unary_read(bs, max) is None,
    decreases n,
{
    if n > 0 {
        lemma_unary_short(bs.drop_first(), (max - 1) as nat, (n - 1) as nat);
    }
}

/// Truncated unary with largest value `max_val`: 0 without reading a bin when
/// `max_val` is 0, else as unary.
pub fn decode_truncated_unary<S: BinSource>(max_val: u32, src: &mut S) -> (r: Result<u32>)
    ensures
        r matches Err(e) ==> final(src).last_error() == Some(e),
        max_val == 0 ==> r == Ok::<u32, Error>(0) && final(src).upcoming() == old(src).upcoming(),
        match unary_read(old(src).upcoming(), max_val as nat) {
            Some((v, c)) => r == Ok::<u32, Error>(v as u32) && final(src).upcoming() == old(src).upcoming().skip(c as int),
            None => r is Err,
        },
{
    if max_val == 0 {
        assert(src.upcoming().skip(0) =~= src.upcoming());
        return Ok(0);
    }
    decode_unary(max_val, src)
}

/// Exp-Golomb: `k` zero bins ended by a nonzero bin, then `k` suffix bins; the value
/// is `2^k - 1` plus the suffix. A prefix of 32 zero bins is invalid, as is a value
/// that does not fit in 32 bits; running out of bins fails.
pub fn decode_exp_golomb<S: BinSource>(src: &mut S) -> (r: Result<u32>)
    ensures
        ({
            let bs = old(src).upcoming();
            let k = first_nonzero(bs, 0);
            &&& k == 32 ==> (r matches Err(e) && e.is_invalid())
            &&& k < 32 && 2 * k + 1 <= bs.len() ==> if eg_total(bs, k) <= u32::MAX {
                r == Ok::<u32, Error>(eg_total(bs, k) as u32) && final(src).upcoming() == bs.skip(2 * k + 1 as int)
            } else {
                (r matches Err(e) && e.is_invalid())
            }
            &&& k < 32 && 2 * k + 1 > bs.len() ==> (r matches Err(e) && final(src).last_error() == Some(e))
        }),
{
    let ghost bs = src.upcoming();
    proof {
        lemma_first_nonzero(bs, 0);
    }
    let ghost kk = first_nonzero(bs, 0);
    let mut k: u32 = 0;
    loop
        invariant_except_break
            bs == old(src).upcoming(),
            k <= 31,
            k <= kk,
            k <= bs.len(),
            kk == first_nonzero(bs, 0),
            kk <= 32,
            kk <= bs.len(),
            forall|j: int| 0 <= j < kk ==> #[trigger] bs[j] == 0,
            kk < 32 && kk < bs.len() ==> bs[kk as int] != 0,
            src.upcoming() == bs.skip(k as int),
        ensures
            bs == old(src).upcoming(),
            k <= 31,
            k == kk,
            k < bs.len(),
            src.upcoming() == bs.skip(k + 1),
        decreases 31 - k,
    {
        let ghost before = src.upcoming();
        let res = src.next_bin();
        let bin = match res {
            Ok(b) => b,
            Err(e) => {
                proof {
                    assert(before.len() == 0);
                    assert(bs.len() == k);
                }
                return Err(e);
            },
        };
        proof {
            assert(bin == bs[k as int]);
            assert(src.upcoming() =~= bs.skip(k + 1));
        }
        if bin != 0 {
            break;
        }
        if k == 31 {
            proof {
                assert(kk != 31);
            }
            return Err(Error::invalid("CABAC", "Exp-Golomb prefix too long"));
        }
        k += 1;
    }
    let ghost mut suf: Seq<u8> = Seq::empty();
    let mut suffix: u32 = 0;
    let mut i: u32 = 0;
    while i < k
        invariant
            bs == old(src).upcoming(),
            kk == first_nonzero(bs, 0),
            i <= k,
            k <= 31,
            k == kk,
            k < bs.len(),
            suf == bs.subrange(k + 1 as int, k + 1 + i as int),
            k + 1 + i <= bs.len(),
            src.upcoming() == bs.skip(k + 1 + i),
            suffix == eg_suffix_value(suf),
        decreases k - i,
    {
        let ghost before = src.upcoming();
        let res = src.next_bin();
        let bin = match res {
            Ok(b) => b,
            Err(e) => {
                proof {
                    assert(before.len() == 0);
                    assert(bs.len() == k + 1 + i);
                }
                return Err(e);
            },
        };
        proof {
            let old_suf = suf;
            assert(bin == bs[k + 1 + i]);
            assert(src.upcoming() =~= bs.skip(k + 1 + i + 1));
            suf = bs.subrange(k + 1 as int, k + 1 + i + 1);
            assert(suf.drop_last() =~= old_suf);
            assert(suf.last() == bin);
        }
        suffix = (suffix << 1) | bin as u32;
        i += 1;
    }
    proof {
        vstd::bits::lemma_u32_pow2_no_overflow(k as nat);
        vstd::bits::lemma_u32_shl_is_mul(1, k);
    }
    let p = 1u32 << k;
    assert(p >= 1) by (bit_vector)
        requires p == 1u32 << k, k <= 31;
    let base = p - 1;
    assert(base as int == pow2(k as nat) - 1);
    assert(suffix == eg_suffix_value(bs.subrange(k + 1 as int, 2 * k + 1 as int)));
    match base.checked_add(suffix) {
        Some(v) => Ok(v),
        None => Err(Error::invalid("CABAC", "Exp-Golomb value overflow")),
    }
}

} // verus!
