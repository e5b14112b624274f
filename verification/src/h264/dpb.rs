//! The decoded picture buffer: reference pictures kept for inter prediction, the
//! sliding window and memory management operations that retire them, and the
//! initial reference picture lists.
use vstd::prelude::*;
use crate::error::Result;
use crate::frame::Frame;

verus! {

/// Picture order count type.
#[derive(Debug, Clone, Copy, PartialEq, Eq, Structural)]
pub enum PocType {
    Type0,
    Type1,
    Type2,
}

/// A decoded picture with its reference marking.
#[derive(Debug)]
pub struct RefPicture {
    pub frame: Frame,
    pub frame_num: u32,
    pub pic_order_cnt: i32,
    pub is_reference: bool,
    pub is_long_term: bool,
    pub long_term_frame_idx: Option<u32>,
    pub used_for_reference: bool,
}

/// `p` with the reference flags cleared.
pub open spec fn unmarked(p: RefPicture) -> RefPicture {
    RefPicture { is_reference: false, used_for_reference: false, ..p }
}

/// `p` marked long-term with index `idx`.
pub open spec fn long_term_marked(p: RefPicture, idx: u32) -> RefPicture {
    RefPicture { is_long_term: true, long_term_frame_idx: Some(idx), ..p }
}

impl RefPicture {
    /// A short-term reference picture.
    pub fn new(frame: Frame, frame_num: u32, pic_order_cnt: i32) -> (p: RefPicture)
        ensures
            p == (RefPicture {
                frame, frame_num, pic_order_cnt, is_reference: true, is_long_term: false,
                long_term_frame_idx: None, used_for_reference: true,
            }),
    {
        RefPicture {
            frame,
            frame_num,
            pic_order_cnt,
            is_reference: true,
            is_long_term: false,
            long_term_frame_idx: None,
            used_for_reference: true,
        }
    }

    /// Mark the picture as no longer used for reference.
    pub fn mark_as_non_reference(&mut self)
        ensures
            *final(self) == unmarked(*old(self)),
    {
        self.is_reference = false;
        self.used_for_reference = false;
    }

    /// Mark the picture as a long-term reference with the given index.
    pub fn mark_as_long_term(&mut self, long_term_frame_idx: u32)
        ensures
            *final(self) == long_term_marked(*old(self), long_term_frame_idx),
    {
        self.is_long_term = true;
        self.long_term_frame_idx = Some(long_term_frame_idx);
    }
}

/// Memory management control operations.
#[derive(Debug, Clone, Copy, PartialEq, Eq, Structural)]
pub enum Mmco {
    End,
    ShortTermUnused,
    LongTermUnused,
    AssignLongTerm,
    SetMaxLongTermIndex,
    Reset,
    CurrentLongTerm,
}

/// An operation with its parameters.
#[derive(Debug, Clone, Copy, PartialEq, Eq, Structural)]
pub struct MmcoCommand {
    pub operation: Mmco,
    pub param1: Option<u32>,
    pub param2: Option<u32>,
}

/// Which pictures a list or a retention keeps.
#[derive(Clone, Copy)]
pub enum PicFilter {
    Reference,
    ShortTerm,
    ShortBefore(i32),
    ShortFrom(i32),
    ShortAfter(i32),
    ShortUpTo(i32),
    LongTerm,
    NotLongTermIndex(u32),
    BelowMaxLongTerm(u32),
}

/// The picture is a reference and not long-term.
pub open spec fn short_ref(p: RefPicture) -> bool {
    p.is_reference && !p.is_long_term
}

/// Whether `p` passes the filter.
pub open spec fn keeps(f: PicFilter, p: RefPicture) -> bool {
    match f {
        PicFilter::Reference => p.is_reference,
        PicFilter::ShortTerm => short_ref(p),
        PicFilter::ShortBefore(c) => short_ref(p) && p.pic_order_cnt < c,
        PicFilter::ShortFrom(c) => short_ref(p) && p.pic_order_cnt >= c,
        PicFilter::ShortAfter(c) => short_ref(p) && p.pic_order_cnt > c,
        PicFilter::ShortUpTo(c) => short_ref(p) && p.pic_order_cnt <= c,
        PicFilter::LongTerm => p.is_reference && p.is_long_term,
        PicFilter::NotLongTermIndex(x) => !(p.is_long_term && p.long_term_frame_idx == Some(x)),
        PicFilter::BelowMaxLongTerm(m) => !p.is_long_term || (match p.long_term_frame_idx {
            Some(i) => i,
            None => 0u32,
        }) < m,
    }
}

/// The orders a list is sorted in.
#[derive(Clone, Copy)]
pub enum SortKey {
    PocAscending,
    PocDescending,
    LongTermIndex,
    FrameNumDescending,
}

/// The long-term index used for ordering; a missing index sorts last.
pub open spec fn lt_key(p: RefPicture) -> int {
    match p.long_term_frame_idx {
        Some(i) => i as int,
        None => u32::MAX as int,
    }
}

/// `a` sorts strictly before `b` under the key.
pub open spec fn sorts_before(k: SortKey, a: RefPicture, b: RefPicture) -> bool {
    match k {
        SortKey::PocAscending => a.pic_order_cnt < b.pic_order_cnt,
        SortKey::PocDescending => a.pic_order_cnt > b.pic_order_cnt,
        SortKey::LongTermIndex => lt_key(a) < lt_key(b),
        SortKey::FrameNumDescending => a.frame_num > b.frame_num,
    }
}

/// The pictures of `s` as references.
pub open spec fn refs<'a>(s: Seq<RefPicture>) -> Seq<&'a RefPicture> {
    Seq::new(s.len(), |i: int| &s[i])
}

/// The pictures of a list that pass a filter, in list order.
pub open spec fn filtered<'a>(s: Seq<&'a RefPicture>, f: PicFilter) -> Seq<&'a RefPicture>
    decreases s.len(),
{
    if s.len() == 0 {
        s
    } else {
        let t = filtered(s.drop_last(), f);
        if keeps(f, *s.last()) { t.push(s.last()) } else { t }
    }
}

/// Where a stable insertion puts `x`: before the first element it sorts strictly
/// before.
pub open spec fn insert_pos<'a>(s: Seq<&'a RefPicture>, x: &'a RefPicture, k: SortKey) -> int
    decreases s.len(),
{
    if s.len() == 0 {
        0
    } else if sorts_before(k, *x, *s[0]) {
        0
    } else {
        1 + insert_pos(s.drop_first(), x, k)
    }
}

/// The stable sort of a list under a key.
pub open spec fn sorted_by<'a>(s: Seq<&'a RefPicture>, k: SortKey) -> Seq<&'a RefPicture>
    decreases s.len(),
{
    if s.len() == 0 {
        s
    } else {
        let t = sorted_by(s.drop_last(), k);
        t.insert(insert_pos(t, s.last(), k), s.last())
    }
}

proof fn lemma_insert_pos_range<'a>(s: Seq<&'a RefPicture>, x: &'a RefPicture, k: SortKey)
    ensures
        0 <= insert_pos(s, x, k) <= s.len(),
        forall|j: int| 0 <= j < insert_pos(s, x, k) ==> !sorts_before(k, *x, *#[trigger] s[j]),
        insert_pos(s, x, k) < s.len() ==> sorts_before(k, *x, *s[insert_pos(s, x, k)]),
    decreases s.len(),
{
    if s.len() > 0 && !sorts_before(k, *x, *s[0]) {
        lemma_insert_pos_range(s.drop_first(), x, k);
        assert forall|j: int| 0 <= j < insert_pos(s, x, k) implies !sorts_before(k, *x, *#[trigger] s[j]) by {
            if j > 0 {
                assert(s[j] == s.drop_first()[j - 1]);
            }
        }
    }
}

/// The value a key orders by, smallest first: the POC for ascending order, the
/// negated POC or frame number for the descending orders, the long-term index.
pub open spec fn order_value(k: SortKey, p: RefPicture) -> int {
    match k {
        SortKey::PocAscending => p.pic_order_cnt as int,
        SortKey::PocDescending => -(p.pic_order_cnt as int),
        SortKey::LongTermIndex => lt_key(p),
        SortKey::FrameNumDescending => -(p.frame_num as int),
    }
}

/// Sorting orders a list by its key: the result has the list's length and every
/// picture's key value is at most that of each picture after it (POCs ascending or
/// descending, long-term indices ascending, frame numbers descending); pictures come
/// from the list, and each picture of the list is in the result.
pub proof fn lemma_sorted_by_orders<'a>(s: Seq<&'a RefPicture>, k: SortKey)
    ensures
        sorted_by(s, k).len() == s.len(),
        forall|i: int, j: int| 0 <= i < j < s.len() ==>
            order_value(k, *#[trigger] sorted_by(s, k)[i]) <= order_value(k, *#[trigger] sorted_by(s, k)[j]),
        forall|x: &'a RefPicture| sorted_by(s, k).contains(x) <==> s.contains(x),
    decreases s.len(),
{
    if s.len() > 0 {
        let t = sorted_by(s.drop_last(), k);
        let x = s.last();
        lemma_sorted_by_orders(s.drop_last(), k);
        lemma_insert_pos_range(t, x, k);
        let p = insert_pos(t, x, k);
        let r = t.insert(p, x);
        assert(r == sorted_by(s, k));
        assert forall|i: int, j: int| 0 <= i < j < r.len() implies
            order_value(k, *#[trigger] r[i]) <= order_value(k, *#[trigger] r[j]) by {
            if j < p {
                assert(r[i] == t[i] && r[j] == t[j]);
            } else if j == p {
                assert(r[i] == t[i] && !sorts_before(k, *x, *t[i]));
            } else if i < p {
                assert(r[i] == t[i] && r[j] == t[j - 1]);
            } else if i == p {
                assert(r[j] == t[j - 1] && sorts_before(k, *x, *t[p]));
                if j - 1 > p {
                    assert(order_value(k, *t[p]) <= order_value(k, *t[j - 1]));
                }
            } else {
                assert(r[i] == t[i - 1] && r[j] == t[j - 1]);
            }
        }
        assert forall|y: &'a RefPicture| r.contains(y) <==> s.contains(y) by {
            if r.contains(y) {
                let i = choose|i: int| 0 <= i < r.len() && r[i] == y;
                if i == p {
                    assert(s[s.len() - 1] == y);
                    assert(s.contains(y));
                } else {
                    let ti = if i < p { i } else { i - 1 };
                    assert(r[i] == t[ti]);
                    assert(t[ti] == y);
                    assert(t.contains(y));
                    assert(s.drop_last().contains(y));
                    let m = choose|m: int| 0 <= m < s.drop_last().len() && s.drop_last()[m] == y;
                    assert(s.drop_last()[m] == s[m]);
                    assert(s.contains(y));
                }
            }
            if s.contains(y) {
                let m = choose|m: int| 0 <= m < s.len() && s[m] == y;
                if m == s.len() - 1 {
                    assert(r[p] == y);
                    assert(r.contains(y));
                } else {
                    assert(s.drop_last()[m] == s[m]);
                    assert(s.drop_last().contains(y));
                    let i = choose|i: int| 0 <= i < t.len() && t[i] == y;
                    if i < p {
                        assert(r[i] == t[i]);
                        assert(r.contains(y));
                    } else {
                        assert(r[i + 1] == t[i]);
                        assert(r.contains(y));
                    }
                }
            }
        }
    }
}

proof fn lemma_sorted_by_len<'a>(s: Seq<&'a RefPicture>, k: SortKey)
    ensures
        sorted_by(s, k).len() == s.len(),
    decreases s.len(),
{
    if s.len() > 0 {
        lemma_sorted_by_len(s.drop_last(), k);
        lemma_insert_pos_range(sorted_by(s.drop_last(), k), s.last(), k);
    }
}

fn passes(f: PicFilter, p: &RefPicture) -> (b: bool)
    ensures
        b == keeps(f, *p),
{
    match f {
        PicFilter::Reference => p.is_reference,
        PicFilter::ShortTerm => p.is_reference && !p.is_long_term,
        PicFilter::ShortBefore(c) => p.is_reference && !p.is_long_term && p.pic_order_cnt < c,
        PicFilter::ShortFrom(c) => p.is_reference && !p.is_long_term && p.pic_order_cnt >= c,
        PicFilter::ShortAfter(c) => p.is_reference && !p.is_long_term && p.pic_order_cnt > c,
        PicFilter::ShortUpTo(c) => p.is_reference && !p.is_long_term && p.pic_order_cnt <= c,
        PicFilter::LongTerm => p.is_reference && p.is_long_term,
        PicFilter::NotLongTermIndex(x) => !(p.is_long_term && p.long_term_frame_idx == Some(x)),
        PicFilter::BelowMaxLongTerm(m) => {
            let i = match p.long_term_frame_idx {
                Some(i) => i,
                None => 0u32,
            };
            !p.is_long_term || i < m
        },
    }
}

fn before(k: SortKey, a: &RefPicture, b: &RefPicture) -> (r: bool)
    ensures
        r == sorts_before(k, *a, *b),
{
    match k {
        SortKey::PocAscending => a.pic_order_cnt < b.pic_order_cnt,
        SortKey::PocDescending => a.pic_order_cnt > b.pic_order_cnt,
        SortKey::LongTermIndex => {
            let ka: u32 = match a.long_term_frame_idx { Some(i) => i, None => u32::MAX };
            let kb: u32 = match b.long_term_frame_idx { Some(i) => i, None => u32::MAX };
            ka < kb
        },
        SortKey::FrameNumDescending => a.frame_num > b.frame_num,
    }
}

proof fn lemma_filtered_step<'a>(s: Seq<&'a RefPicture>, i: int, f: PicFilter)
    requires
        0 <= i < s.len(),
    ensures
        filtered(s.take(i + 1), f) == (if keeps(f, *s[i]) { filtered(s.take(i), f).push(s[i]) } else { filtered(s.take(i), f) }),
{
    assert(s.take(i + 1).drop_last() =~= s.take(i));
    assert(s.take(i + 1).last() == s[i]);
}

proof fn lemma_retained_step(s: Seq<RefPicture>, i: int, f: PicFilter)
    requires
        0 <= i < s.len(),
    ensures
        retained(s.take(i + 1), f) == (if keeps(f, s[i]) { retained(s.take(i), f).push(s[i]) } else { retained(s.take(i), f) }),
{
    assert(s.take(i + 1).drop_last() =~= s.take(i));
    assert(s.take(i + 1).last() == s[i]);
}

fn collect_filtered<'a>(pictures: &'a Vec<RefPicture>, f: PicFilter) -> (r: Vec<&'a RefPicture>)
    ensures
        r@ == filtered(refs::<'a>(pictures@), f),
{
    let ghost all = refs::<'a>(pictures@);
    let mut r: Vec<&'a RefPicture> = Vec::new();
    let mut i: usize = 0;
    while i < pictures.len()
        invariant
            0 <= i <= pictures@.len(),
            all == refs::<'a>(pictures@),
            r@ == filtered(all.take(i as int), f),
        decreases pictures@.len() - i,
    {
        let p = &pictures[i];
        proof {
            lemma_filtered_step(all, i as int, f);
        }
        if passes(f, p) {
            r.push(p);
        }
        i = i + 1;
    }
    assert(all.take(pictures@.len() as int) =~= all);
    r
}

/// The references of a list that pass a filter, in list order.
pub(crate) fn filter_refs<'a>(v: &Vec<&'a RefPicture>, f: PicFilter) -> (r: Vec<&'a RefPicture>)
    ensures
        r@ == filtered(v@, f),
{
    let mut r: Vec<&'a RefPicture> = Vec::new();
    let mut i: usize = 0;
    while i < v.len()
        invariant
            0 <= i <= v@.len(),
            r@ == filtered(v@.take(i as int), f),
        decreases v@.len() - i,
    {
        let p = v[i];
        proof {
            lemma_filtered_step(v@, i as int, f);
        }
        if passes(f, p) {
            r.push(p);
        }
        i = i + 1;
    }
    assert(v@.take(v@.len() as int) =~= v@);
    r
}

pub(crate) fn sort_refs<'a>(v: Vec<&'a RefPicture>, k: SortKey) -> (r: Vec<&'a RefPicture>)
    ensures
        r@ == sorted_by(v@, k),
{
    let mut out: Vec<&'a RefPicture> = Vec::new();
    let mut i: usize = 0;
    while i < v.len()
        invariant
            0 <= i <= v@.len(),
            out@ == sorted_by(v@.take(i as int), k),
        decreases v@.len() - i,
    {
        let x = v[i];
        let ghost t = out@;
        assert(v@.take(i as int + 1).drop_last() =~= v@.take(i as int));
        assert(v@.take(i as int + 1).last() == x);
        proof {
            lemma_sorted_by_len(v@.take(i as int), k);
        }
        let mut j: usize = 0;
        assert(t.skip(0) =~= t);
        while j < out.len() && !before(k, x, out[j])
            invariant
                out@ == t,
                0 <= j <= out@.len(),
                insert_pos(t, x, k) == j + insert_pos(t.skip(j as int), x, k),
            decreases out@.len() - j,
        {
            assert(t.skip(j as int).drop_first() =~= t.skip(j as int + 1));
            j = j + 1;
        }
        proof {
            if j < out@.len() {
                assert(t.skip(j as int)[0] == t[j as int]);
            }
        }
        out.insert(j, x);
        i = i + 1;
    }
    assert(v@.take(v@.len() as int) =~= v@);
    out
}

/// The pictures of `s` kept by a filter, for a buffer.
pub open spec fn retained(s: Seq<RefPicture>, f: PicFilter) -> Seq<RefPicture>
    decreases s.len(),
{
    if s.len() == 0 {
        s
    } else {
        let t = retained(s.drop_last(), f);
        if keeps(f, s.last()) { t.push(s.last()) } else { t }
    }
}

fn retain_pictures(v: &mut Vec<RefPicture>, f: PicFilter)
    ensures
        final(v)@ == retained(old(v)@, f),
{
    let ghost orig = old(v)@;
    let n0 = v.len();
    let mut i: usize = 0;
    let mut kept: usize = 0;
    assert(orig.take(0) =~= Seq::<RefPicture>::empty());
    while kept < v.len()
        invariant
            0 <= i <= orig.len(),
            orig.len() == n0,
            0 <= kept <= v@.len(),
            v@.len() - kept == orig.len() - i,
            v@.take(kept as int) == retained(orig.take(i as int), f),
            v@.skip(kept as int) == orig.skip(i as int),
        decreases v@.len() - kept,
    {
        let ghost before_v = v@;
        assert(orig.skip(i as int)[0] == v@[kept as int]);
        assert(orig[i as int] == orig.skip(i as int)[0]);
        proof {
            lemma_retained_step(orig, i as int, f);
        }
        assert(v@.skip(kept as int + 1) =~= v@.skip(kept as int).drop_first());
        assert(orig.skip(i as int + 1) =~= orig.skip(i as int).drop_first());
        if passes(f, &v[kept]) {
            assert(v@.take(kept as int + 1) =~= v@.take(kept as int).push(v@[kept as int]));
            kept = kept + 1;
        } else {
            let _removed = v.remove(kept);
            assert(v@.take(kept as int) =~= before_v.take(kept as int));
            assert(v@.skip(kept as int) =~= before_v.skip(kept as int + 1));
        }
        i = i + 1;
    }
    assert(orig.skip(i as int).len() == 0);
    assert(i == orig.len());
    assert(orig.take(orig.len() as int) =~= orig);
    assert(v@.take(kept as int) =~= v@);
}

/// `b` is the first short-term reference with the smallest `frame_num`.
pub open spec fn is_oldest_short(s: Seq<RefPicture>, b: int) -> bool {
    &&& 0 <= b < s.len()
    &&& short_ref(s[b])
    &&& forall|j: int| 0 <= j < s.len() && short_ref(s[j]) ==> s[b].frame_num <= #[trigger] s[j].frame_num
    &&& forall|j: int| 0 <= j < b && short_ref(s[j]) ==> s[b].frame_num < #[trigger] s[j].frame_num
}

/// The buffer after the sliding window: where the short-term references fill the
/// buffer, the oldest of them leaves.
pub open spec fn after_sliding_window(s: Seq<RefPicture>, max: int) -> Seq<RefPicture> {
    if filtered(refs(s), PicFilter::ShortTerm).len() >= max && exists|b: int| is_oldest_short(s, b) {
        s.remove(choose|b: int| is_oldest_short(s, b))
    } else {
        s
    }
}

proof fn lemma_oldest_unique(s: Seq<RefPicture>, a: int, b: int)
    requires
        is_oldest_short(s, a),
        is_oldest_short(s, b),
    ensures
        a == b,
{
    if a < b {
        assert(s[b].frame_num < s[a].frame_num);
    } else if b < a {
        assert(s[a].frame_num < s[b].frame_num);
    }
}

/// The buffer after a memory management operation, with the limit on long-term
/// indices it leaves.
pub open spec fn mmco_step(s: Seq<RefPicture>, max_lt: Option<u32>, c: MmcoCommand) -> (Seq<RefPicture>, Option<u32>) {
    match c.operation {
        Mmco::ShortTermUnused => match c.param1 {
            Some(x) => (Seq::new(s.len(), |i: int| if !s[i].is_long_term && s[i].frame_num == x { unmarked(s[i]) } else { s[i] }), max_lt),
            None => (s, max_lt),
        },
        Mmco::LongTermUnused => match c.param1 {
            Some(x) => (retained(s, PicFilter::NotLongTermIndex(x)), max_lt),
            None => (s, max_lt),
        },
        Mmco::AssignLongTerm => match (c.param1, c.param2) {
            (Some(x), Some(idx)) => (Seq::new(s.len(), |i: int| if !s[i].is_long_term && s[i].frame_num == x {
                long_term_marked(s[i], idx) } else { s[i] }), max_lt),
            _ => (s, max_lt),
        },
        Mmco::SetMaxLongTermIndex => match c.param1 {
            Some(m) => (retained(s, PicFilter::BelowMaxLongTerm(m)), c.param1),
            None => (s, None),
        },
        Mmco::Reset => (Seq::empty(), None),
        Mmco::CurrentLongTerm => match c.param1 {
            Some(idx) => if s.len() > 0 { (s.update(s.len() - 1, long_term_marked(s.last(), idx)), max_lt) } else { (s, max_lt) },
            None => (s, max_lt),
        },
        Mmco::End => (s, max_lt),
    }
}

/// The buffer after the operations up to the first `End`.
pub open spec fn mmco_run(s: Seq<RefPicture>, max_lt: Option<u32>, cmds: Seq<MmcoCommand>) -> (Seq<RefPicture>, Option<u32>)
    decreases cmds.len(),
{
    if cmds.len() == 0 || cmds[0].operation == Mmco::End {
        (s, max_lt)
    } else {
        let (t, m) = mmco_step(s, max_lt, cmds[0]);
        mmco_run(t, m, cmds.drop_first())
    }
}

/// Every picture that `retained` keeps passes the filter.
proof fn lemma_retained_keeps(s: Seq<RefPicture>, f: PicFilter)
    ensures
        forall|i: int| 0 <= i < retained(s, f).len() ==> keeps(f, #[trigger] retained(s, f)[i]),
    decreases s.len(),
{
    if s.len() > 0 {
        lemma_retained_keeps(s.drop_last(), f);
        let t = retained(s.drop_last(), f);
        if keeps(f, s.last()) {
            assert forall|i: int| 0 <= i < t.push(s.last()).len() implies keeps(f, #[trigger] t.push(s.last())[i]) by {
                if i < t.len() {
                    assert(t.push(s.last())[i] == t[i]);
                }
            }
        }
    }
}

/// A list of references splits into its short-term and its long-term ones.
proof fn lemma_refs_split<'a>(t: Seq<&'a RefPicture>)
    requires
        forall|i: int| 0 <= i < t.len() ==> (#[trigger] t[i]).is_reference,
    ensures
        filtered(t, PicFilter::ShortTerm).len() + filtered(t, PicFilter::LongTerm).len() == t.len(),
    decreases t.len(),
{
    if t.len() > 0 {
        let u = t.drop_last();
        assert forall|i: int| 0 <= i < u.len() implies (#[trigger] u[i]).is_reference by {
            assert(u[i] == t[i]);
        }
        lemma_refs_split(u);
        assert(t.last().is_reference);
    }
}

/// Operations on an empty buffer leave it empty.
proof fn lemma_mmco_run_empty(m: Option<u32>, cmds: Seq<MmcoCommand>)
    ensures
        mmco_run(Seq::empty(), m, cmds).0.len() == 0,
    decreases cmds.len(),
{
    if cmds.len() > 0 && cmds[0].operation != Mmco::End {
        let e = Seq::<RefPicture>::empty();
        let (t, m2) = mmco_step(e, m, cmds[0]);
        assert(t.len() == 0) by {
            if cmds[0].operation == Mmco::LongTermUnused || cmds[0].operation == Mmco::SetMaxLongTermIndex {
                assert(retained(e, PicFilter::Reference).len() == 0);
            }
        }
        assert(t =~= e);
        lemma_mmco_run_empty(m2, cmds.drop_first());
    }
}

/// A reset before the first end empties the buffer.
proof fn lemma_mmco_run_reset(s: Seq<RefPicture>, m: Option<u32>, cmds: Seq<MmcoCommand>, r: int)
    requires
        0 <= r < cmds.len(),
        cmds[r].operation == Mmco::Reset,
        forall|j: int| 0 <= j < r ==> #[trigger] cmds[j].operation != Mmco::End,
    ensures
        mmco_run(s, m, cmds).0.len() == 0,
    decreases r,
{
    if r == 0 {
        lemma_mmco_run_empty(None, cmds.drop_first());
    } else {
        let (t, m2) = mmco_step(s, m, cmds[0]);
        assert forall|j: int| 0 <= j < r - 1 implies #[trigger] cmds.drop_first()[j].operation != Mmco::End by {
            assert(cmds.drop_first()[j] == cmds[j + 1]);
        }
        assert(cmds[0].operation != Mmco::End);
        lemma_mmco_run_reset(t, m2, cmds.drop_first(), r - 1);
    }
}

/// After memory management, as `Dpb::execute_mmco` leaves the buffer, every
/// stored picture is a reference, so the buffer holds exactly its short-term and
/// long-term references; a reset before the first end empties it.
pub proof fn lemma_mmco_law(s: Seq<RefPicture>, max_lt: Option<u32>, cmds: Seq<MmcoCommand>)
    ensures
        ({
            let out = retained(mmco_run(s, max_lt, cmds).0, PicFilter::Reference);
            filtered(refs(out), PicFilter::ShortTerm).len() + filtered(refs(out), PicFilter::LongTerm).len() == out.len()
        }),
        (exists|r: int| 0 <= r < cmds.len() && #[trigger] cmds[r].operation == Mmco::Reset
            && forall|j: int| 0 <= j < r ==> #[trigger] cmds[j].operation != Mmco::End)
            ==> retained(mmco_run(s, max_lt, cmds).0, PicFilter::Reference).len() == 0,
{
    let run = mmco_run(s, max_lt, cmds).0;
    let out = retained(run, PicFilter::Reference);
    lemma_retained_keeps(run, PicFilter::Reference);
    let t = refs::<'static>(out);
    assert forall|i: int| 0 <= i < t.len() implies (#[trigger] t[i]).is_reference by {
        assert(keeps(PicFilter::Reference, out[i]));
    }
    lemma_refs_split(t);
    if exists|r: int| 0 <= r < cmds.len() && #[trigger] cmds[r].operation == Mmco::Reset
        && forall|j: int| 0 <= j < r ==> #[trigger] cmds[j].operation != Mmco::End {
        let r = choose|r: int| 0 <= r < cmds.len() && #[trigger] cmds[r].operation == Mmco::Reset
            && forall|j: int| 0 <= j < r ==> #[trigger] cmds[j].operation != Mmco::End;
        lemma_mmco_run_reset(s, max_lt, cmds, r);
        assert(retained(run, PicFilter::Reference).len() == 0) by {
            assert(run =~= Seq::<RefPicture>::empty());
        }
    }
}

/// The decoded picture buffer.
pub struct Dpb {
    pictures: Vec<RefPicture>,
    max_num_ref_frames: usize,
    max_long_term_frame_idx: Option<u32>,
}

impl Dpb {
    /// The stored pictures, oldest first.
    pub closed spec fn pictures(&self) -> Seq<RefPicture> {
        self.pictures@
    }

    /// The largest number of reference frames.
    pub closed spec fn capacity(&self) -> int {
        self.max_num_ref_frames as int
    }

    /// The limit on long-term indices set by the last operation that set it.
    pub closed spec fn max_long_term(&self) -> Option<u32> {
        self.max_long_term_frame_idx
    }

    /// An empty buffer for `max_num_ref_frames` reference frames.
    pub fn new(max_num_ref_frames: usize) -> (d: Dpb)
        ensures
            d.pictures() == Seq::<RefPicture>::empty(),
            d.capacity() == max_num_ref_frames,
            d.max_long_term() is None,
    {
        Dpb { pictures: Vec::with_capacity(max_num_ref_frames), max_num_ref_frames, max_long_term_frame_idx: None }
    }

    /// The limit on reference frames.
    pub fn max_num_ref_frames(&self) -> (n: usize)
        ensures
            n == self.capacity(),
    {
        self.max_num_ref_frames
    }

    /// Store a picture; a full buffer first applies the sliding window.
    pub fn add_picture(&mut self, picture: RefPicture) -> (r: Result<()>)
        ensures
            r is Ok,
            final(self).capacity() == old(self).capacity(),
            final(self).max_long_term() == old(self).max_long_term(),
            final(self).pictures() == (if old(self).pictures().len() >= old(self).capacity() {
                after_sliding_window(old(self).pictures(), old(self).capacity())
            } else {
                old(self).pictures()
            }).push(picture),
    {
        if self.pictures.len() >= self.max_num_ref_frames {
            self.sliding_window_marking();
        }
        self.pictures.push(picture);
        Ok(())
    }

    /// The first reference picture with the given `frame_num`.
    pub fn get_by_frame_num(&self, frame_num: u32) -> (r: Option<&RefPicture>)
        ensures
            match r {
                Some(p) => exists|i: int| 0 <= i < self.pictures().len() && *p == self.pictures()[i]
                    && self.pictures()[i].frame_num == frame_num && self.pictures()[i].is_reference
                    && forall|j: int| 0 <= j < i ==> !(#[trigger] self.pictures()[j].frame_num == frame_num && self.pictures()[j].is_reference),
                None => forall|j: int| 0 <= j < self.pictures().len() ==>
                    !(#[trigger] self.pictures()[j].frame_num == frame_num && self.pictures()[j].is_reference),
            },
    {
        let mut i: usize = 0;
        while i < self.pictures.len()
            invariant
                0 <= i <= self.pictures@.len(),
                forall|j: int| 0 <= j < i ==> !(#[trigger] self.pictures@[j].frame_num == frame_num && self.pictures@[j].is_reference),
            decreases self.pictures@.len() - i,
        {
            if self.pictures[i].frame_num == frame_num && self.pictures[i].is_reference {
                return Some(&self.pictures[i]);
            }
            i = i + 1;
        }
        None
    }

    /// The short-term references ordered by POC, ascending or descending; pictures
    /// with equal POC keep their buffer order.
    pub fn get_short_term_list(&self, current_poc: i32, descending: bool) -> (r: Vec<&RefPicture>)
        ensures
            r@ == sorted_by(filtered(refs(self.pictures()), PicFilter::ShortTerm),
                if descending { SortKey::PocDescending } else { SortKey::PocAscending }),
            r@.len() == filtered(refs(self.pictures()), PicFilter::ShortTerm).len(),
    {
        proof {
            lemma_sorted_by_len(filtered(refs(self.pictures()), PicFilter::ShortTerm),
                if descending { SortKey::PocDescending } else { SortKey::PocAscending });
        }
        let list = collect_filtered(&self.pictures, PicFilter::ShortTerm);
        if descending {
            sort_refs(list, SortKey::PocDescending)
        } else {
            sort_refs(list, SortKey::PocAscending)
        }
    }

    /// The long-term references ordered by long-term index.
    pub fn get_long_term_list(&self) -> (r: Vec<&RefPicture>)
        ensures
            r@ == sorted_by(filtered(refs(self.pictures()), PicFilter::LongTerm), SortKey::LongTermIndex),
            r@.len() == filtered(refs(self.pictures()), PicFilter::LongTerm).len(),
    {
        proof {
            lemma_sorted_by_len(filtered(refs(self.pictures()), PicFilter::LongTerm), SortKey::LongTermIndex);
        }
        let list = collect_filtered(&self.pictures, PicFilter::LongTerm);
        sort_refs(list, SortKey::LongTermIndex)
    }

    /// The initial list 0: short-term references before the current POC from the
    /// closest down, then those from it upwards, then the long-term references.
    pub fn construct_ref_pic_list_0(&self, current_poc: i32) -> (r: Vec<&RefPicture>)
        ensures
            r@ == sorted_by(filtered(refs(self.pictures()), PicFilter::ShortBefore(current_poc)), SortKey::PocDescending)
                + sorted_by(filtered(refs(self.pictures()), PicFilter::ShortFrom(current_poc)), SortKey::PocAscending)
                + sorted_by(filtered(refs(self.pictures()), PicFilter::LongTerm), SortKey::LongTermIndex),
    {
        let mut list = sort_refs(collect_filtered(&self.pictures, PicFilter::ShortBefore(current_poc)), SortKey::PocDescending);
        let mut after = sort_refs(collect_filtered(&self.pictures, PicFilter::ShortFrom(current_poc)), SortKey::PocAscending);
        let mut long = self.get_long_term_list();
        list.append(&mut after);
        list.append(&mut long);
        list
    }

    /// The initial list 1: short-term references after the current POC from the
    /// closest up, then those up to it downwards, then the long-term references.
    pub fn construct_ref_pic_list_1(&self, current_poc: i32) -> (r: Vec<&RefPicture>)
        ensures
            r@ == sorted_by(filtered(refs(self.pictures()), PicFilter::ShortAfter(current_poc)), SortKey::PocAscending)
                + sorted_by(filtered(refs(self.pictures()), PicFilter::ShortUpTo(current_poc)), SortKey::PocDescending)
                + sorted_by(filtered(refs(self.pictures()), PicFilter::LongTerm), SortKey::LongTermIndex),
    {
        let mut list = sort_refs(collect_filtered(&self.pictures, PicFilter::ShortAfter(current_poc)), SortKey::PocAscending);
        let mut before_list = sort_refs(collect_filtered(&self.pictures, PicFilter::ShortUpTo(current_poc)), SortKey::PocDescending);
        let mut long = self.get_long_term_list();
        list.append(&mut before_list);
        list.append(&mut long);
        list
    }

    fn sliding_window_marking(&mut self)
        ensures
            final(self).pictures() == after_sliding_window(old(self).pictures(), old(self).capacity()),
            final(self).capacity() == old(self).capacity(),
            final(self).max_long_term() == old(self).max_long_term(),
    {
        let short = collect_filtered(&self.pictures, PicFilter::ShortTerm);
        let num_short_term = short.len();
        if num_short_term >= self.max_num_ref_frames {
            let mut best: Option<usize> = None;
            let mut i: usize = 0;
            while i < self.pictures.len()
                invariant
                    0 <= i <= self.pictures@.len(),
                    match best {
                        Some(b) => b < i && short_ref(self.pictures@[b as int])
                            && (forall|j: int| 0 <= j < i && short_ref(self.pictures@[j]) ==>
                                self.pictures@[b as int].frame_num <= #[trigger] self.pictures@[j].frame_num)
                            && (forall|j: int| 0 <= j < b && short_ref(self.pictures@[j]) ==>
                                self.pictures@[b as int].frame_num < #[trigger] self.pictures@[j].frame_num),
                        None => forall|j: int| 0 <= j < i ==> !short_ref(#[trigger] self.pictures@[j]),
                    },
                decreases self.pictures@.len() - i,
            {
                let p = &self.pictures[i];
                if p.is_reference && !p.is_long_term {
                    match best {
                        Some(b) => {
                            if p.frame_num < self.pictures[b].frame_num {
                                best = Some(i);
                            }
                        },
                        None => {
                            best = Some(i);
                        },
                    }
                }
                i = i + 1;
            }
            match best {
                Some(b) => {
                    proof {
                        assert(is_oldest_short(self.pictures@, b as int));
                        let c = choose|c: int| is_oldest_short(self.pictures@, c);
                        lemma_oldest_unique(self.pictures@, b as int, c);
                    }
                    self.pictures[b].mark_as_non_reference();
                    let _gone = self.pictures.remove(b);
                    proof {
                        assert(self.pictures@ =~= old(self).pictures@.remove(b as int));
                    }
                },
                None => {
                    proof {
                        assert(!exists|b: int| is_oldest_short(self.pictures@, b));
                    }
                },
            }
        }
    }

    fn mark_matching_unused(&mut self, x: u32)
        ensures
            final(self).pictures() == Seq::new(old(self).pictures().len(), |i: int|
                if !old(self).pictures()[i].is_long_term && old(self).pictures()[i].frame_num == x {
                    unmarked(old(self).pictures()[i]) } else { old(self).pictures()[i] }),
            final(self).capacity() == old(self).capacity(),
            final(self).max_long_term() == old(self).max_long_term(),
    {
        let n = self.pictures.len();
        let mut i: usize = 0;
        while i < n
            invariant
                0 <= i <= n,
                n == old(self).pictures@.len(),
                self.pictures@.len() == n,
                self.max_num_ref_frames == old(self).max_num_ref_frames,
                self.max_long_term_frame_idx == old(self).max_long_term_frame_idx,
                forall|j: int| 0 <= j < i ==> #[trigger] self.pictures@[j] == (if !old(self).pictures@[j].is_long_term
                    && old(self).pictures@[j].frame_num == x { unmarked(old(self).pictures@[j]) } else { old(self).pictures@[j] }),
                forall|j: int| i <= j < n ==> #[trigger] self.pictures@[j] == old(self).pictures@[j],
            decreases n - i,
        {
            if !self.pictures[i].is_long_term && self.pictures[i].frame_num == x {
                self.pictures[i].is_reference = false;
                self.pictures[i].used_for_reference = false;
            }
            i = i + 1;
        }
        assert(self.pictures@ =~= Seq::new(old(self).pictures@.len(), |i: int|
            if !old(self).pictures@[i].is_long_term && old(self).pictures@[i].frame_num == x {
                unmarked(old(self).pictures@[i]) } else { old(self).pictures@[i] }));
    }

    fn mark_matching_long_term(&mut self, x: u32, idx: u32)
        ensures
            final(self).pictures() == Seq::new(old(self).pictures().len(), |i: int|
                if !old(self).pictures()[i].is_long_term && old(self).pictures()[i].frame_num == x {
                    long_term_marked(old(self).pictures()[i], idx) } else { old(self).pictures()[i] }),
            final(self).capacity() == old(self).capacity(),
            final(self).max_long_term() == old(self).max_long_term(),
    {
        let n = self.pictures.len();
        let mut i: usize = 0;
        while i < n
            invariant
                0 <= i <= n,
                n == old(self).pictures@.len(),
                self.pictures@.len() == n,
                self.max_num_ref_frames == old(self).max_num_ref_frames,
                self.max_long_term_frame_idx == old(self).max_long_term_frame_idx,
                forall|j: int| 0 <= j < i ==> #[trigger] self.pictures@[j] == (if !old(self).pictures@[j].is_long_term
                    && old(self).pictures@[j].frame_num == x { long_term_marked(old(self).pictures@[j], idx) } else { old(self).pictures@[j] }),
                forall|j: int| i <= j < n ==> #[trigger] self.pictures@[j] == old(self).pictures@[j],
            decreases n - i,
        {
            if !self.pictures[i].is_long_term && self.pictures[i].frame_num == x {
                self.pictures[i].is_long_term = true;
                self.pictures[i].long_term_frame_idx = Some(idx);
            }
            i = i + 1;
        }
        assert(self.pictures@ =~= Seq::new(old(self).pictures@.len(), |i: int|
            if !old(self).pictures@[i].is_long_term && old(self).pictures@[i].frame_num == x {
                long_term_marked(old(self).pictures@[i], idx) } else { old(self).pictures@[i] }));
    }

    fn apply_mmco(&mut self, cmd: &MmcoCommand)
        requires
            cmd.operation != Mmco::End,
        ensures
            (final(self).pictures(), final(self).max_long_term()) == mmco_step(old(self).pictures(), old(self).max_long_term(), *cmd),
            final(self).capacity() == old(self).capacity(),
    {
        match cmd.operation {
            Mmco::End => {},
            Mmco::ShortTermUnused => {
                if let Some(x) = cmd.param1 {
                    self.mark_matching_unused(x);
                }
            },
            Mmco::LongTermUnused => {
                if let Some(x) = cmd.param1 {
                    retain_pictures(&mut self.pictures, PicFilter::NotLongTermIndex(x));
                }
            },
            Mmco::AssignLongTerm => {
                if let (Some(x), Some(idx)) = (cmd.param1, cmd.param2) {
                    self.mark_matching_long_term(x, idx);
                }
            },
            Mmco::SetMaxLongTermIndex => {
                self.max_long_term_frame_idx = cmd.param1;
                if let Some(m) = self.max_long_term_frame_idx {
                    retain_pictures(&mut self.pictures, PicFilter::BelowMaxLongTerm(m));
                }
            },
            Mmco::Reset => {
                self.pictures.clear();
                self.max_long_term_frame_idx = None;
            },
            Mmco::CurrentLongTerm => {
                if let Some(idx) = cmd.param1 {
                    let n = self.pictures.len();
                    if n > 0 {
                        self.pictures[n - 1].mark_as_long_term(idx);
                        proof {
                            assert(self.pictures@ =~= old(self).pictures@.update(n - 1, long_term_marked(old(self).pictures@.last(), idx)));
                        }
                    }
                }
            },
        }
    }

    /// Run the operations up to the first `End`, then drop every picture no longer
    /// used for reference.
    pub fn execute_mmco(&mut self, commands: &[MmcoCommand]) -> (r: Result<()>)
        ensures
            r is Ok,
            final(self).capacity() == old(self).capacity(),
            final(self).pictures() == retained(mmco_run(old(self).pictures(), old(self).max_long_term(), commands@).0, PicFilter::Reference),
            final(self).max_long_term() == mmco_run(old(self).pictures(), old(self).max_long_term(), commands@).1,
            forall|i: int| 0 <= i < final(self).pictures().len() ==> (#[trigger] final(self).pictures()[i]).is_reference,
            filtered(refs(final(self).pictures()), PicFilter::ShortTerm).len()
                + filtered(refs(final(self).pictures()), PicFilter::LongTerm).len() == final(self).pictures().len(),
            (exists|j: int| 0 <= j < commands@.len() && #[trigger] commands@[j].operation == Mmco::Reset
                && forall|i: int| 0 <= i < j ==> #[trigger] commands@[i].operation != Mmco::End)
                ==> final(self).pictures().len() == 0,
    {
        let mut k: usize = 0;
        assert(commands@.skip(0) =~= commands@);
        while k < commands.len()
            invariant
                0 <= k <= commands@.len(),
                self.capacity() == old(self).capacity(),
                mmco_run(self.pictures(), self.max_long_term(), commands@.skip(k as int))
                    == mmco_run(old(self).pictures(), old(self).max_long_term(), commands@),
            ensures
                (self.pictures(), self.max_long_term()) == mmco_run(old(self).pictures(), old(self).max_long_term(), commands@),
                self.capacity() == old(self).capacity(),
            decreases commands@.len() - k,
        {
            let cmd = &commands[k];
            assert(commands@.skip(k as int)[0] == *cmd);
            assert(commands@.skip(k as int).drop_first() =~= commands@.skip(k as int + 1));
            if cmd.operation == Mmco::End {
                break;
            }
            self.apply_mmco(cmd);
            k = k + 1;
        }
        retain_pictures(&mut self.pictures, PicFilter::Reference);
        proof {
            lemma_mmco_law(old(self).pictures(), old(self).max_long_term(), commands@);
            let run = mmco_run(old(self).pictures(), old(self).max_long_term(), commands@).0;
            lemma_retained_keeps(run, PicFilter::Reference);
            assert forall|i: int| 0 <= i < self.pictures().len() implies (#[trigger] self.pictures()[i]).is_reference by {
                assert(keeps(PicFilter::Reference, retained(run, PicFilter::Reference)[i]));
            }
        }
        Ok(())
    }

    /// The number of stored pictures.
    pub fn len(&self) -> (n: usize)
        ensures
            n == self.pictures().len(),
    {
        self.pictures.len()
    }

    /// Whether the buffer is empty.
    pub fn is_empty(&self) -> (b: bool)
        ensures
            b == (self.pictures().len() == 0),
    {
        self.pictures.len() == 0
    }

    /// Drop every picture and the long-term limit.
    pub fn clear(&mut self)
        ensures
            final(self).pictures() == Seq::<RefPicture>::empty(),
            final(self).max_long_term() is None,
            final(self).capacity() == old(self).capacity(),
    {
        self.pictures.clear();
        self.max_long_term_frame_idx = None;
    }
}

} // verus!
