//! Output of decoded pictures in display order: a buffer that holds pictures in
//! decoding order and releases them by picture order count.
use vstd::prelude::*;
use crate::error::{Error, Result};
use crate::frame::{Frame, same_frame};
use crate::time::usize_to_decimal;

verus! {

/// A decoded picture waiting for output.
pub struct DecodedPicture {
    /// The reconstructed frame.
    pub frame: Frame,
    /// Picture order count: the display order.
    pub poc: i32,
    /// Frame number in decoding order.
    pub frame_num: i32,
    /// Used for reference.
    pub is_reference: bool,
    /// Already output.
    pub is_output: bool,
    /// An IDR picture.
    pub is_idr: bool,
}

impl Clone for DecodedPicture {
    fn clone(&self) -> (p: Self)
        ensures
            same_frame(p.frame, self.frame),
            p.poc == self.poc,
            p.frame_num == self.frame_num,
            p.is_reference == self.is_reference,
            p.is_output == self.is_output,
            p.is_idr == self.is_idr,
    {
        DecodedPicture {
            frame: self.frame.clone(),
            poc: self.poc,
            frame_num: self.frame_num,
            is_reference: self.is_reference,
            is_output: self.is_output,
            is_idr: self.is_idr,
        }
    }
}

impl DecodedPicture {
    /// A picture not yet output.
    pub fn new(frame: Frame, poc: i32, frame_num: i32, is_reference: bool, is_idr: bool) -> (p: DecodedPicture)
        ensures
            p == (DecodedPicture { frame, poc, frame_num, is_reference, is_output: false, is_idr }),
    {
        DecodedPicture { frame, poc, frame_num, is_reference, is_output: false, is_idr }
    }
}

/// Where a stable insertion by POC puts index `x`: before the first index whose
/// picture has a larger POC.
pub open spec fn poc_ins_pos(p: Seq<DecodedPicture>, s: Seq<usize>, x: usize) -> int
    decreases s.len(),
{
    if s.len() == 0 {
        0
    } else if p[x as int].poc < p[s[0] as int].poc {
        0
    } else {
        1 + poc_ins_pos(p, s.drop_first(), x)
    }
}

/// The indices `s` stably sorted by the POC of their pictures.
pub open spec fn poc_sorted(p: Seq<DecodedPicture>, s: Seq<usize>) -> Seq<usize>
    decreases s.len(),
{
    if s.len() == 0 {
        s
    } else {
        let t = poc_sorted(p, s.drop_last());
        t.insert(poc_ins_pos(p, t, s.last()), s.last())
    }
}

/// All indices of the buffer stably sorted by POC.
pub open spec fn poc_order(p: Seq<DecodedPicture>) -> Seq<usize> {
    poc_sorted(p, Seq::new(p.len(), |i: int| i as usize))
}

/// The number of `false` flags.
pub open spec fn count_false(s: Seq<bool>) -> int
    decreases s.len(),
{
    if s.len() == 0 { 0 } else { count_false(s.drop_last()) + if s.last() { 0int } else { 1int } }
}

/// The output flags of the pictures.
pub open spec fn out_flags(p: Seq<DecodedPicture>) -> Seq<bool> {
    Seq::new(p.len(), |i: int| p[i].is_output)
}

/// The pictures with their output flags replaced.
pub open spec fn with_flags(p: Seq<DecodedPicture>, f: Seq<bool>) -> Seq<DecodedPicture> {
    Seq::new(p.len(), |i: int| DecodedPicture { is_output: f[i], ..p[i] })
}

/// Bumping from position `k` of `order` with output flags `flags` and `count`
/// pictures not yet output: the indices output, in order, and the final flags. A
/// picture not yet output goes out when forced, when it is IDR, or while more than
/// `max_reorder` pictures wait.
pub open spec fn bump_step(flags: Seq<bool>, p: Seq<DecodedPicture>, order: Seq<usize>, k: int, count: int,
    force: bool, max_reorder: int) -> (Seq<usize>, Seq<bool>)
    decreases order.len() - k,
{
    if k < 0 || k >= order.len() {
        (Seq::empty(), flags)
    } else {
        let i = order[k] as int;
        if 0 <= i < flags.len() && !flags[i] && (force || p[i].is_idr || count > max_reorder) {
            let (rest, f) = bump_step(flags.update(i, true), p, order, k + 1, count - 1, force, max_reorder);
            (seq![order[k]] + rest, f)
        } else {
            bump_step(flags, p, order, k + 1, count, force, max_reorder)
        }
    }
}

/// The pictures that stay after output: those not output or used for reference.
pub open spec fn kept_pictures(s: Seq<DecodedPicture>) -> Seq<DecodedPicture>
    decreases s.len(),
{
    if s.len() == 0 {
        s
    } else {
        let rest = kept_pictures(s.drop_first());
        if !s[0].is_output || s[0].is_reference { seq![s[0]] + rest } else { rest }
    }
}

/// Some IDR picture waits for output.
pub open spec fn idr_waiting(p: Seq<DecodedPicture>) -> bool {
    exists|i: int| 0 <= i < p.len() && #[trigger] p[i].is_idr && !p[i].is_output
}

proof fn lemma_count_false_update(s: Seq<bool>, i: int)
    requires
        0 <= i < s.len(),
        !s[i],
    ensures
        count_false(s.update(i, true)) == count_false(s) - 1,
    decreases s.len(),
{
    if i < s.len() - 1 {
        assert(s.update(i, true).drop_last() =~= s.drop_last().update(i, true));
        lemma_count_false_update(s.drop_last(), i);
    } else {
        assert(s.update(i, true).drop_last() =~= s.drop_last());
    }
}

proof fn lemma_count_false_bound(s: Seq<bool>)
    ensures
        0 <= count_false(s) <= s.len(),
    decreases s.len(),
{
    if s.len() > 0 {
        lemma_count_false_bound(s.drop_last());
    }
}

proof fn lemma_poc_ins_pos_range(p: Seq<DecodedPicture>, s: Seq<usize>, x: usize)
    ensures
        0 <= poc_ins_pos(p, s, x) <= s.len(),
    decreases s.len(),
{
    if s.len() > 0 && !(p[x as int].poc < p[s[0] as int].poc) {
        lemma_poc_ins_pos_range(p, s.drop_first(), x);
    }
}

proof fn lemma_poc_sorted_len_elems(p: Seq<DecodedPicture>, s: Seq<usize>, n: int)
    requires
        forall|j: int| 0 <= j < s.len() ==> #[trigger] s[j] < n,
    ensures
        poc_sorted(p, s).len() == s.len(),
        forall|j: int| 0 <= j < s.len() ==> #[trigger] poc_sorted(p, s)[j] < n,
    decreases s.len(),
{
    if s.len() > 0 {
        let t = poc_sorted(p, s.drop_last());
        lemma_poc_sorted_len_elems(p, s.drop_last(), n);
        lemma_poc_ins_pos_range(p, t, s.last());
        let r = t.insert(poc_ins_pos(p, t, s.last()), s.last());
        assert forall|j: int| 0 <= j < s.len() implies #[trigger] r[j] < n by {
            let q = poc_ins_pos(p, t, s.last());
            if j < q {
                assert(r[j] == t[j]);
            } else if j > q {
                assert(r[j] == t[j - 1]);
            }
        }
    }
}

/// The buffer's indices stably sorted by POC.
fn sort_by_poc(pictures: &Vec<DecodedPicture>) -> (r: Vec<usize>)
    ensures
        r@ == poc_order(pictures@),
        r@.len() == pictures@.len(),
        forall|j: int| 0 <= j < r@.len() ==> #[trigger] r@[j] < pictures@.len(),
{
    let ghost p = pictures@;
    let ghost all = Seq::new(p.len(), |i: int| i as usize);
    let n = pictures.len();
    let mut out: Vec<usize> = Vec::new();
    let mut i: usize = 0;
    while i < n
        invariant
            n == p.len(),
            p == pictures@,
            all == Seq::new(p.len(), |i: int| i as usize),
            0 <= i <= n,
            out@ == poc_sorted(p, all.take(i as int)),
            out@.len() == i,
            forall|j: int| 0 <= j < out@.len() ==> #[trigger] out@[j] < n,
        decreases n - i,
    {
        let ghost t = out@;
        assert(all.take(i as int + 1).drop_last() =~= all.take(i as int));
        assert(all.take(i as int + 1).last() == i);
        proof {
            lemma_poc_ins_pos_range(p, t, i);
        }
        let mut j: usize = 0;
        assert(t.skip(0) =~= t);
        while j < out.len() && !(pictures[i].poc < pictures[out[j]].poc)
            invariant
                out@ == t,
                n == p.len(),
                p == pictures@,
                i < n,
                forall|q: int| 0 <= q < out@.len() ==> #[trigger] out@[q] < n,
                0 <= j <= out@.len(),
                poc_ins_pos(p, t, i) == j + poc_ins_pos(p, t.skip(j as int), i),
            decreases out@.len() - j,
        {
            assert(t.skip(j as int).drop_first() =~= t.skip(j as int + 1));
            j = j + 1;
        }
        proof {
            if j < out@.len() {
                assert(t.skip(j as int)[0] == t[j as int]);
            }
        }
        out.insert(j, i);
        proof {
            assert forall|q: int| 0 <= q < out@.len() implies #[trigger] out@[q] < n by {
                if q < j {
                    assert(out@[q] == t[q]);
                } else if q > j {
                    assert(out@[q] == t[q - 1]);
                }
            }
        }
        i = i + 1;
    }
    assert(all.take(n as int) =~= all);
    out
}

/// The indices of `s` are in non-decreasing POC order.
pub open spec fn poc_ordered(p: Seq<DecodedPicture>, s: Seq<usize>) -> bool {
    forall|a: int, b: int| 0 <= a < b < s.len() ==> p[#[trigger] s[a] as int].poc <= p[#[trigger] s[b] as int].poc
}

proof fn lemma_poc_ins_pos_split(p: Seq<DecodedPicture>, t: Seq<usize>, x: usize)
    requires
        poc_ordered(p, t),
    ensures
        forall|j: int| 0 <= j < poc_ins_pos(p, t, x) ==> p[#[trigger] t[j] as int].poc <= p[x as int].poc,
        forall|j: int| poc_ins_pos(p, t, x) <= j < t.len() ==> p[x as int].poc < p[#[trigger] t[j] as int].poc,
    decreases t.len(),
{
    lemma_poc_ins_pos_range(p, t, x);
    if t.len() > 0 {
        let u = t.drop_first();
        assert(poc_ordered(p, u)) by {
            assert forall|a: int, b: int| 0 <= a < b < u.len() implies p[#[trigger] u[a] as int].poc <= p[#[trigger] u[b] as int].poc by {
                assert(u[a] == t[a + 1] && u[b] == t[b + 1]);
            }
        }
        if p[x as int].poc < p[t[0] as int].poc {
            assert forall|j: int| 0 <= j < t.len() implies p[x as int].poc < p[#[trigger] t[j] as int].poc by {
                if j > 0 {
                    assert(p[t[0] as int].poc <= p[t[j] as int].poc);
                }
            }
        } else {
            lemma_poc_ins_pos_split(p, u, x);
            assert forall|j: int| 0 <= j < poc_ins_pos(p, t, x) implies p[#[trigger] t[j] as int].poc <= p[x as int].poc by {
                if j > 0 {
                    assert(t[j] == u[j - 1]);
                }
            }
            assert forall|j: int| poc_ins_pos(p, t, x) <= j < t.len() implies p[x as int].poc < p[#[trigger] t[j] as int].poc by {
                assert(t[j] == u[j - 1]);
            }
        }
    }
}

proof fn lemma_poc_sorted_ordered(p: Seq<DecodedPicture>, s: Seq<usize>)
    ensures
        poc_ordered(p, poc_sorted(p, s)),
    decreases s.len(),
{
    if s.len() > 0 {
        let t = poc_sorted(p, s.drop_last());
        lemma_poc_sorted_ordered(p, s.drop_last());
        let x = s.last();
        let q = poc_ins_pos(p, t, x);
        lemma_poc_ins_pos_range(p, t, x);
        lemma_poc_ins_pos_split(p, t, x);
        let r = t.insert(q, x);
        assert forall|a: int, b: int| 0 <= a < b < r.len() implies p[#[trigger] r[a] as int].poc <= p[#[trigger] r[b] as int].poc by {
            if a < q {
                assert(r[a] == t[a]);
                if b < q { assert(r[b] == t[b]); } else if b > q { assert(r[b] == t[b - 1]); }
            } else if a == q {
                assert(r[b] == t[b - 1]);
            } else {
                assert(r[a] == t[a - 1] && r[b] == t[b - 1]);
            }
        }
    }
}

proof fn lemma_bump_ordered(flags: Seq<bool>, p: Seq<DecodedPicture>, order: Seq<usize>, k: int, count: int,
    force: bool, max_reorder: int)
    requires
        poc_ordered(p, order),
        0 <= k,
    ensures
        poc_ordered(p, bump_step(flags, p, order, k, count, force, max_reorder).0),
        forall|j: int| 0 <= j < bump_step(flags, p, order, k, count, force, max_reorder).0.len() ==>
            k < order.len() && p[order[k] as int].poc
                <= p[#[trigger] bump_step(flags, p, order, k, count, force, max_reorder).0[j] as int].poc,
    decreases order.len() - k,
{
    if k < order.len() {
        let i = order[k] as int;
        if 0 <= i < flags.len() && !flags[i] && (force || p[i].is_idr || count > max_reorder) {
            lemma_bump_ordered(flags.update(i, true), p, order, k + 1, count - 1, force, max_reorder);
            let rest = bump_step(flags.update(i, true), p, order, k + 1, count - 1, force, max_reorder).0;
            let out = seq![order[k]] + rest;
            assert forall|j: int| 0 <= j < rest.len() implies p[order[k] as int].poc <= p[#[trigger] rest[j] as int].poc by {
                assert(p[order[k] as int].poc <= p[order[k + 1] as int].poc);
            }
            assert forall|a: int, b: int| 0 <= a < b < out.len() implies p[#[trigger] out[a] as int].poc <= p[#[trigger] out[b] as int].poc by {
                assert(out[b] == rest[b - 1]);
                if a > 0 {
                    assert(out[a] == rest[a - 1]);
                }
            }
            assert forall|j: int| 0 <= j < out.len() implies p[order[k] as int].poc <= p[#[trigger] out[j] as int].poc by {
                if j > 0 {
                    assert(out[j] == rest[j - 1]);
                }
            }
        } else {
            lemma_bump_ordered(flags, p, order, k + 1, count, force, max_reorder);
            let rest = bump_step(flags, p, order, k + 1, count, force, max_reorder).0;
            assert forall|j: int| 0 <= j < rest.len() implies p[order[k] as int].poc <= p[#[trigger] rest[j] as int].poc by {
                assert(p[order[k] as int].poc <= p[order[k + 1] as int].poc);
            }
        }
    }
}

proof fn lemma_poc_sorted_contains(p: Seq<DecodedPicture>, s: Seq<usize>)
    ensures
        forall|j: int| 0 <= j < s.len() ==> poc_sorted(p, s).contains(#[trigger] s[j]),
    decreases s.len(),
{
    if s.len() > 0 {
        let t = poc_sorted(p, s.drop_last());
        lemma_poc_sorted_contains(p, s.drop_last());
        let q = poc_ins_pos(p, t, s.last());
        lemma_poc_ins_pos_range(p, t, s.last());
        let r = t.insert(q, s.last());
        assert forall|j: int| 0 <= j < s.len() implies r.contains(#[trigger] s[j]) by {
            if j == s.len() - 1 {
                assert(r[q] == s.last());
            } else {
                assert(s[j] == s.drop_last()[j]);
                let w = choose|w: int| 0 <= w < t.len() && t[w] == s[j];
                if w < q {
                    assert(r[w] == t[w]);
                } else {
                    assert(r[w + 1] == t[w]);
                }
            }
        }
    }
}

proof fn lemma_bump_forced(flags: Seq<bool>, p: Seq<DecodedPicture>, order: Seq<usize>, k: int, count: int,
    max_reorder: int)
    requires
        0 <= k,
    ensures
        bump_step(flags, p, order, k, count, true, max_reorder).1.len() == flags.len(),
        forall|i: int| 0 <= i < flags.len() && flags[i] ==> #[trigger] bump_step(flags, p, order, k, count, true, max_reorder).1[i],
        forall|j: int| k <= j < order.len() && order[j] < flags.len() ==>
            bump_step(flags, p, order, k, count, true, max_reorder).1[#[trigger] order[j] as int],
    decreases order.len() - k,
{
    if k < order.len() {
        let i = order[k] as int;
        if 0 <= i < flags.len() && !flags[i] {
            lemma_bump_forced(flags.update(i, true), p, order, k + 1, count - 1, max_reorder);
        } else {
            lemma_bump_forced(flags, p, order, k + 1, count, max_reorder);
        }
    }
}

/// A forced call of `FrameOutputBuffer::get_output_pictures` outputs every picture
/// not yet output: afterwards every picture is marked output, so only reference
/// pictures stay in the buffer.
pub proof fn lemma_forced_output_all(p: Seq<DecodedPicture>, max_reorder: int)
    requires
        p.len() <= usize::MAX,
    ensures
        ({
            let f = bump_step(out_flags(p), p, poc_order(p), 0, count_false(out_flags(p)), true, max_reorder).1;
            f.len() == p.len() && forall|i: int| 0 <= i < p.len() ==> #[trigger] f[i]
        }),
{
    let ids = Seq::new(p.len(), |i: int| i as usize);
    let order = poc_order(p);
    lemma_poc_sorted_contains(p, ids);
    lemma_poc_sorted_len_elems(p, ids, p.len() as int);
    lemma_bump_forced(out_flags(p), p, order, 0, count_false(out_flags(p)), max_reorder);
    let f = bump_step(out_flags(p), p, order, 0, count_false(out_flags(p)), true, max_reorder).1;
    assert forall|i: int| 0 <= i < p.len() implies #[trigger] f[i] by {
        assert(ids[i] == i as usize);
        assert(order.contains(ids[i]));
        let j = choose|j: int| 0 <= j < order.len() && order[j] == ids[i];
        assert(order[j] < p.len());
        assert(out_flags(p).len() == p.len());
        assert(f[order[j] as int]);
    }
}

proof fn lemma_bump_fresh(flags: Seq<bool>, p: Seq<DecodedPicture>, order: Seq<usize>, k: int, count: int,
    force: bool, max_reorder: int)
    requires
        0 <= k,
    ensures
        ({
            let (out, f) = bump_step(flags, p, order, k, count, force, max_reorder);
            &&& f.len() == flags.len()
            &&& forall|i: int| 0 <= i < flags.len() && flags[i] ==> #[trigger] f[i]
            &&& forall|j: int| 0 <= j < out.len() ==> 0 <= #[trigger] out[j] < flags.len()
                && !flags[out[j] as int] && f[out[j] as int]
            &&& forall|a: int, b: int| 0 <= a < b < out.len() ==> #[trigger] out[a] != #[trigger] out[b]
        }),
    decreases order.len() - k,
{
    if k < order.len() {
        let i = order[k] as int;
        if 0 <= i < flags.len() && !flags[i] && (force || p[i].is_idr || count > max_reorder) {
            let fl = flags.update(i, true);
            lemma_bump_fresh(fl, p, order, k + 1, count - 1, force, max_reorder);
            let (rest, f) = bump_step(fl, p, order, k + 1, count - 1, force, max_reorder);
            let out = seq![order[k]] + rest;
            assert forall|j: int| 0 <= j < out.len() implies 0 <= #[trigger] out[j] < flags.len()
                && !flags[out[j] as int] && f[out[j] as int] by {
                if j > 0 {
                    assert(out[j] == rest[j - 1]);
                    assert(!fl[rest[j - 1] as int]);
                } else {
                    assert(fl[i]);
                }
            }
            assert forall|a: int, b: int| 0 <= a < b < out.len() implies #[trigger] out[a] != #[trigger] out[b] by {
                assert(out[b] == rest[b - 1]);
                assert(!fl[rest[b - 1] as int]);
                if a > 0 {
                    assert(out[a] == rest[a - 1]);
                }
            }
        } else {
            lemma_bump_fresh(flags, p, order, k + 1, count, force, max_reorder);
        }
    }
}

/// One call of `FrameOutputBuffer::get_output_pictures` outputs no picture twice
/// and none that was output before, and marks each picture it outputs as output,
/// so no later call outputs it again.
pub proof fn lemma_output_fresh(p: Seq<DecodedPicture>, force: bool, max_reorder: int)
    ensures
        ({
            let (out, f) = bump_step(out_flags(p), p, poc_order(p), 0, count_false(out_flags(p)), force, max_reorder);
            &&& forall|j: int| 0 <= j < out.len() ==> 0 <= #[trigger] out[j] < p.len()
                && !p[out[j] as int].is_output && f[out[j] as int]
            &&& forall|a: int, b: int| 0 <= a < b < out.len() ==> #[trigger] out[a] != #[trigger] out[b]
        }),
{
    lemma_bump_fresh(out_flags(p), p, poc_order(p), 0, count_false(out_flags(p)), force, max_reorder);
}

/// The pictures one call of `FrameOutputBuffer::get_output_pictures` outputs come
/// in non-decreasing POC order.
pub proof fn lemma_output_in_poc_order(p: Seq<DecodedPicture>, force: bool, max_reorder: int)
    ensures
        poc_ordered(p, bump_step(out_flags(p), p, poc_order(p), 0, count_false(out_flags(p)), force, max_reorder).0),
{
    lemma_poc_sorted_ordered(p, Seq::new(p.len(), |i: int| i as usize));
    lemma_bump_ordered(out_flags(p), p, poc_order(p), 0, count_false(out_flags(p)), force, max_reorder);
}

/// A buffer reordering decoded pictures into display order.
pub struct FrameOutputBuffer {
    pictures: Vec<DecodedPicture>,
    max_num_reorder_frames: usize,
    max_dpb_frames: usize,
}

impl FrameOutputBuffer {
    /// The pictures held, in decoding order.
    pub closed spec fn pictures(&self) -> Seq<DecodedPicture> {
        self.pictures@
    }

    /// The number of pictures that may wait for reordering.
    pub closed spec fn max_reorder(&self) -> usize {
        self.max_num_reorder_frames
    }

    /// The number of pictures the buffer holds at most.
    pub closed spec fn max_dpb(&self) -> usize {
        self.max_dpb_frames
    }

    /// An empty buffer.
    pub fn new(max_num_reorder_frames: usize, max_dpb_frames: usize) -> (b: FrameOutputBuffer)
        ensures
            b.pictures().len() == 0,
            b.max_reorder() == max_num_reorder_frames,
            b.max_dpb() == max_dpb_frames,
    {
        FrameOutputBuffer { pictures: Vec::new(), max_num_reorder_frames, max_dpb_frames }
    }

    /// Add a picture at the end; fails, leaving the buffer as it was, when the buffer
    /// holds `max_dpb` pictures or more.
    pub fn add_picture(&mut self, picture: DecodedPicture) -> (r: Result<()>)
        ensures
            final(self).max_reorder() == old(self).max_reorder(),
            final(self).max_dpb() == old(self).max_dpb(),
            old(self).pictures().len() >= old(self).max_dpb() ==>
                (r matches Err(e) && e.is_invalid()) && final(self).pictures() == old(self).pictures(),
            old(self).pictures().len() < old(self).max_dpb() ==>
                r is Ok && final(self).pictures() == old(self).pictures().push(picture),
    {
        if self.pictures.len() >= self.max_dpb_frames {
            let mut msg = String::new();
            msg.append("Output buffer full (size: ");
            let size = usize_to_decimal(self.pictures.len());
            msg.append(size.as_str());
            msg.append(", max: ");
            let max = usize_to_decimal(self.max_dpb_frames);
            msg.append(max.as_str());
            msg.append(")");
            return Err(Error::invalid("output buffer", msg.as_str()));
        }
        self.pictures.push(picture);
        Ok(())
    }

    /// Whether some IDR picture waits for output.
    fn idr_pending(&self) -> (b: bool)
        ensures
            b == idr_waiting(self.pictures()),
    {
        let mut i: usize = 0;
        while i < self.pictures.len()
            invariant
                0 <= i <= self.pictures@.len(),
                forall|j: int| 0 <= j < i ==> !(#[trigger] self.pictures@[j].is_idr && !self.pictures@[j].is_output),
            decreases self.pictures@.len() - i,
        {
            if self.pictures[i].is_idr && !self.pictures[i].is_output {
                return true;
            }
            i += 1;
        }
        false
    }

    /// The number of pictures not yet output.
    fn count_unoutput_pictures(&self) -> (n: usize)
        ensures
            n == count_false(out_flags(self.pictures())),
    {
        let ghost f = out_flags(self.pictures());
        let mut n: usize = 0;
        let mut i: usize = 0;
        while i < self.pictures.len()
            invariant
                0 <= i <= self.pictures@.len(),
                f == out_flags(self.pictures@),
                n == count_false(f.take(i as int)),
                n <= i,
            decreases self.pictures@.len() - i,
        {
            assert(f.take(i as int + 1).drop_last() =~= f.take(i as int));
            if !self.pictures[i].is_output {
                n += 1;
            }
            i += 1;
        }
        assert(f.take(i as int) =~= f);
        n
    }

    /// Keep the pictures not output or used for reference, in order.
    fn retain_kept(&mut self)
        ensures
            final(self).pictures() == kept_pictures(old(self).pictures()),
            final(self).max_reorder() == old(self).max_reorder(),
            final(self).max_dpb() == old(self).max_dpb(),
    {
        let ghost s = self.pictures@;
        let mut i: usize = self.pictures.len();
        assert(s.skip(s.len() as int) =~= Seq::<DecodedPicture>::empty());
        assert(s.take(s.len() as int) =~= s);
        while i > 0
            invariant
                0 <= i <= s.len(),
                self.pictures@ == s.take(i as int) + kept_pictures(s.skip(i as int)),
                self.max_num_reorder_frames == old(self).max_num_reorder_frames,
                self.max_dpb_frames == old(self).max_dpb_frames,
                s == old(self).pictures@,
            decreases i,
        {
            i -= 1;
            assert(s.skip(i as int).drop_first() =~= s.skip(i as int + 1));
            assert(s.skip(i as int)[0] == s[i as int]);
            assert(s.take(i as int + 1) =~= s.take(i as int).push(s[i as int]));
            let keep = !self.pictures[i].is_output || self.pictures[i].is_reference;
            if keep {
                assert(s.take(i as int + 1) + kept_pictures(s.skip(i as int + 1))
                    =~= s.take(i as int) + kept_pictures(s.skip(i as int)));
            } else {
                let ghost before = self.pictures@;
                self.pictures.remove(i);
                assert(before.remove(i as int) =~= s.take(i as int) + kept_pictures(s.skip(i as int)));
            }
        }
        assert(s.take(0) + kept_pictures(s.skip(0)) =~= kept_pictures(s));
    }

    /// Release pictures in POC order. Nothing happens unless output is forced, more
    /// than `max_reorder` pictures are held, or an IDR picture waits. Then, in POC
    /// order (stable), each picture not yet output goes out when output is forced,
    /// when it is IDR, or while more than `max_reorder` pictures wait; output pictures
    /// not used for reference are then dropped. Returns copies of the frames output.
    pub fn get_output_pictures(&mut self, force_output: bool) -> (r: Vec<Frame>)
        ensures
            final(self).max_reorder() == old(self).max_reorder(),
            final(self).max_dpb() == old(self).max_dpb(),
            !(force_output || old(self).pictures().len() > old(self).max_reorder() || idr_waiting(old(self).pictures()))
                ==> r@.len() == 0 && final(self).pictures() == old(self).pictures(),
            (force_output || old(self).pictures().len() > old(self).max_reorder() || idr_waiting(old(self).pictures()))
                ==> {
                let p = old(self).pictures();
                let (idxs, flags) = bump_step(out_flags(p), p, poc_order(p), 0, count_false(out_flags(p)),
                    force_output, old(self).max_reorder() as int);
                &&& r@.len() == idxs.len()
                &&& forall|j: int| 0 <= j < idxs.len() ==> #[trigger] same_frame(r@[j], p[idxs[j] as int].frame)
                &&& final(self).pictures() == kept_pictures(with_flags(p, flags))
            },
    {
        let mut output_frames: Vec<Frame> = Vec::new();
        let should_output = force_output || self.pictures.len() > self.max_num_reorder_frames || self.idr_pending();
        if !should_output {
            return output_frames;
        }
        let ghost p = self.pictures@;
        let mut unoutput_count = self.count_unoutput_pictures();
        let max_reorder = self.max_num_reorder_frames;
        let sorted_indices = sort_by_poc(&self.pictures);
        let ghost order = sorted_indices@;
        let ghost flags0 = out_flags(p);
        let ghost whole = bump_step(flags0, p, order, 0, count_false(flags0), force_output, max_reorder as int);
        let ghost mut done: Seq<usize> = Seq::empty();
        let mut k: usize = 0;
        while k < sorted_indices.len()
            invariant
                0 <= k <= sorted_indices@.len(),
                order == sorted_indices@,
                order.len() == p.len(),
                forall|j: int| 0 <= j < order.len() ==> #[trigger] order[j] < p.len(),
                self.pictures@.len() == p.len(),
                self.max_num_reorder_frames == max_reorder,
                self.max_dpb_frames == old(self).max_dpb_frames,
                max_reorder == old(self).max_num_reorder_frames,
                p == old(self).pictures@,
                whole == bump_step(flags0, p, order, 0, count_false(flags0), force_output, max_reorder as int),
                self.pictures@ == with_flags(p, out_flags(self.pictures@)),
                unoutput_count == count_false(out_flags(self.pictures@)),
                ({
                    let (rest, f) = bump_step(out_flags(self.pictures@), p, order, k as int, unoutput_count as int,
                        force_output, max_reorder as int);
                    whole == (done + rest, f)
                }),
                output_frames@.len() == done.len(),
                forall|j: int| 0 <= j < done.len() ==> #[trigger] same_frame(output_frames@[j], p[done[j] as int].frame),
            decreases sorted_indices@.len() - k,
        {
            let idx = sorted_indices[k];
            let ghost fl = out_flags(self.pictures@);
            proof {
                lemma_count_false_bound(fl);
            }
            if !self.pictures[idx].is_output {
                let should_output_this = force_output || self.pictures[idx].is_idr || unoutput_count > max_reorder;
                if should_output_this {
                    let ghost before = self.pictures@;
                    output_frames.push(self.pictures[idx].frame.clone());
                    self.pictures[idx].is_output = true;
                    proof {
                        lemma_count_false_update(fl, idx as int);
                        lemma_count_false_bound(fl.update(idx as int, true));
                        assert(out_flags(self.pictures@) =~= fl.update(idx as int, true));
                        assert(self.pictures@ =~= with_flags(p, out_flags(self.pictures@)));
                        assert(self.pictures@[idx as int].frame == p[idx as int].frame);
                        let (rest, f) = bump_step(out_flags(self.pictures@), p, order, k as int + 1,
                            unoutput_count - 1, force_output, max_reorder as int);
                        assert(done.push(idx) + rest =~= done + (seq![idx] + rest));
                        done = done.push(idx);
                    }
                    unoutput_count -= 1;
                }
            }
            k += 1;
        }
        proof {
            let (rest, f) = bump_step(out_flags(self.pictures@), p, order, k as int, unoutput_count as int,
                force_output, max_reorder as int);
            assert(rest =~= Seq::<usize>::empty());
            assert(done + rest =~= done);
        }
        self.retain_kept();
        output_frames
    }

    /// Release every picture not yet output, in POC order.
    pub fn flush(&mut self) -> (r: Vec<Frame>)
        ensures
            final(self).max_reorder() == old(self).max_reorder(),
            final(self).max_dpb() == old(self).max_dpb(),
            ({
                let p = old(self).pictures();
                let (idxs, flags) = bump_step(out_flags(p), p, poc_order(p), 0, count_false(out_flags(p)),
                    true, old(self).max_reorder() as int);
                &&& r@.len() == idxs.len()
                &&& forall|j: int| 0 <= j < idxs.len() ==> #[trigger] same_frame(r@[j], p[idxs[j] as int].frame)
                &&& final(self).pictures() == kept_pictures(with_flags(p, flags))
            }),
    {
        self.get_output_pictures(true)
    }

    /// Drop the pictures already output and not used for reference.
    pub fn prune_output_pictures(&mut self)
        ensures
            final(self).pictures() == kept_pictures(old(self).pictures()),
            final(self).max_reorder() == old(self).max_reorder(),
            final(self).max_dpb() == old(self).max_dpb(),
    {
        self.retain_kept();
    }

    /// Drop every picture.
    pub fn clear(&mut self)
        ensures
            final(self).pictures().len() == 0,
            final(self).max_reorder() == old(self).max_reorder(),
            final(self).max_dpb() == old(self).max_dpb(),
    {
        self.pictures.clear();
    }

    /// The number of pictures held.
    pub fn len(&self) -> (n: usize)
        ensures
            n == self.pictures().len(),
    {
        self.pictures.len()
    }

    /// Whether no picture is held.
    pub fn is_empty(&self) -> (b: bool)
        ensures
            b == (self.pictures().len() == 0),
    {
        self.pictures.len() == 0
    }

    /// Mark every picture with POC below `poc_threshold` as output.
    pub fn mark_prior_pictures_for_output(&mut self, poc_threshold: i32)
        ensures
            final(self).pictures() == with_flags(old(self).pictures(), Seq::new(old(self).pictures().len(),
                |i: int| old(self).pictures()[i].is_output || old(self).pictures()[i].poc < poc_threshold)),
            final(self).max_reorder() == old(self).max_reorder(),
            final(self).max_dpb() == old(self).max_dpb(),
    {
        let ghost p = self.pictures@;
        let mut i: usize = 0;
        while i < self.pictures.len()
            invariant
                0 <= i <= self.pictures@.len(),
                self.pictures@.len() == p.len(),
                p == old(self).pictures@,
                self.max_num_reorder_frames == old(self).max_num_reorder_frames,
                self.max_dpb_frames == old(self).max_dpb_frames,
                forall|j: int| 0 <= j < p.len() ==> #[trigger] self.pictures@[j] == (if j < i {
                    DecodedPicture { is_output: p[j].is_output || p[j].poc < poc_threshold, ..p[j] }
                } else {
                    p[j]
                }),
            decreases self.pictures@.len() - i,
        {
            if self.pictures[i].poc < poc_threshold && !self.pictures[i].is_output {
                self.pictures[i].is_output = true;
            }
            i += 1;
        }
        assert(self.pictures@ =~= with_flags(p, Seq::new(p.len(), |i: int| p[i].is_output || p[i].poc < poc_threshold)));
    }

    /// Drop every picture, reference pictures included.
    pub fn clear_references(&mut self)
        ensures
            final(self).pictures().len() == 0,
            final(self).max_reorder() == old(self).max_reorder(),
            final(self).max_dpb() == old(self).max_dpb(),
    {
        self.pictures.clear();
    }
}

/// The macroblock capacity of the decoded picture buffer for a `level_idc`; levels
/// not listed take that of level 3.0.
pub open spec fn max_dpb_mbs(level_idc: u8) -> int {
    if level_idc == 10 { 396 }
    else if level_idc == 11 { 900 }
    else if level_idc == 12 || level_idc == 13 || level_idc == 20 { 2376 }
    else if level_idc == 21 { 4752 }
    else if level_idc == 22 || level_idc == 30 { 8100 }
    else if level_idc == 31 { 18000 }
    else if level_idc == 32 { 20480 }
    else if level_idc == 40 || level_idc == 41 { 32768 }
    else if level_idc == 42 { 34816 }
    else if level_idc == 50 { 110400 }
    else if level_idc == 51 || level_idc == 52 { 184320 }
    else if level_idc == 60 || level_idc == 61 || level_idc == 62 { 696320 }
    else { 8100 }
}

/// The number of frames the decoded picture buffer holds at a level for a picture
/// size: the level's macroblock capacity over the picture's macroblocks, at most 16;
/// 16 for an empty picture.
pub fn max_dpb_frames_from_level(level_idc: u8, width: usize, height: usize) -> (n: usize)
    requires
        width + 15 <= usize::MAX,
        height + 15 <= usize::MAX,
        ((width + 15) / 16) * ((height + 15) / 16) <= usize::MAX,
    ensures
        ({
            let mbs = ((width + 15) / 16) * ((height + 15) / 16);
            n == if mbs == 0 { 16 } else if max_dpb_mbs(level_idc) / mbs < 16 { max_dpb_mbs(level_idc) / mbs } else { 16 }
        }),
{
    let max_dpb_mbs: usize = match level_idc {
        10 => 396,
        11 => 900,
        12 => 2376,
        13 => 2376,
        20 => 2376,
        21 => 4752,
        22 => 8100,
        30 => 8100,
        31 => 18000,
        32 => 20480,
        40 => 32768,
        41 => 32768,
        42 => 34816,
        50 => 110400,
        51 => 184320,
        52 => 184320,
        60 => 696320,
        61 => 696320,
        62 => 696320,
        _ => 8100,
    };
    let pic_width_in_mbs = (width + 15) / 16;
    let pic_height_in_mbs = (height + 15) / 16;
    let pic_size_in_mbs = pic_width_in_mbs * pic_height_in_mbs;
    if pic_size_in_mbs == 0 {
        return 16;
    }
    let max_dpb = max_dpb_mbs / pic_size_in_mbs;
    if max_dpb < 16 { max_dpb } else { 16 }
}

} // verus!
