//! Initial reference picture lists of P and B slices, built from the decoded
//! picture buffer.
use vstd::prelude::*;
use crate::error::{Error, Result};
use super::dpb::{Dpb, RefPicture, PicFilter, SortKey, filtered, sorted_by, refs, filter_refs, sort_refs};
use super::rplr::RplrCommand;

verus! {

/// Which of the two lists.
#[derive(Debug, Clone, Copy, PartialEq, Eq, Structural)]
pub enum RefPicListType {
    /// List 0: P and B slices.
    List0,
    /// List 1: B slices.
    List1,
}

/// An entry of a reference picture list.
#[derive(Debug, Clone)]
pub struct RefPicListEntry<'a> {
    /// The picture.
    pub picture: &'a RefPicture,
    /// Picture number, for a short-term reference.
    pub pic_num: Option<i32>,
    /// Long-term picture number, for a long-term reference.
    pub long_term_pic_num: Option<i32>,
}

/// The two reference picture lists of a slice.
pub struct RefPicLists<'a> {
    pub list0: Vec<RefPicListEntry<'a>>,
    pub list1: Vec<RefPicListEntry<'a>>,
}

/// The entry of a short-term reference: its frame number as picture number.
pub open spec fn short_entry<'a>(p: &'a RefPicture) -> RefPicListEntry<'a> {
    RefPicListEntry { picture: p, pic_num: Some(p.frame_num as i32), long_term_pic_num: None }
}

/// The entry of a long-term reference: its long-term index (0 when it has none).
pub open spec fn long_entry<'a>(p: &'a RefPicture) -> RefPicListEntry<'a> {
    RefPicListEntry {
        picture: p,
        pic_num: None,
        long_term_pic_num: Some((match p.long_term_frame_idx { Some(i) => i, None => 0u32 }) as i32),
    }
}

/// The entries of a list of short-term references.
pub open spec fn short_entries<'a>(s: Seq<&'a RefPicture>) -> Seq<RefPicListEntry<'a>> {
    s.map_values(|p: &'a RefPicture| short_entry(p))
}

/// The entries of a list of long-term references.
pub open spec fn long_entries<'a>(s: Seq<&'a RefPicture>) -> Seq<RefPicListEntry<'a>> {
    s.map_values(|p: &'a RefPicture| long_entry(p))
}

/// The long-term references of the buffer by long-term index.
pub open spec fn long_term_refs<'a>(dpb: &'a Dpb) -> Seq<&'a RefPicture> {
    sorted_by(filtered(refs::<'a>(dpb.pictures()), PicFilter::LongTerm), SortKey::LongTermIndex)
}

/// The short-term references of the buffer by ascending POC.
pub open spec fn short_term_refs<'a>(dpb: &'a Dpb, k: SortKey) -> Seq<&'a RefPicture> {
    sorted_by(filtered(refs::<'a>(dpb.pictures()), PicFilter::ShortTerm), k)
}

/// The short-term references with POC below `poc`, closest first.
pub open spec fn past_refs<'a>(dpb: &'a Dpb, poc: i32) -> Seq<&'a RefPicture> {
    sorted_by(filtered(short_term_refs(dpb, SortKey::PocAscending), PicFilter::ShortBefore(poc)), SortKey::PocDescending)
}

/// The short-term references with POC at or above `poc`, closest first.
pub open spec fn future_refs<'a>(dpb: &'a Dpb, poc: i32) -> Seq<&'a RefPicture> {
    sorted_by(filtered(short_term_refs(dpb, SortKey::PocAscending), PicFilter::ShortFrom(poc)), SortKey::PocAscending)
}

impl<'a> RefPicLists<'a> {
    /// Two empty lists.
    pub fn new() -> (r: RefPicLists<'a>)
        ensures
            r.list0@.len() == 0,
            r.list1@.len() == 0,
    {
        RefPicLists { list0: Vec::new(), list1: Vec::new() }
    }

    /// One of the lists.
    pub fn get(&self, list_type: RefPicListType) -> (r: &[RefPicListEntry<'a>])
        ensures
            r@ == (match list_type {
                RefPicListType::List0 => self.list0@,
                RefPicListType::List1 => self.list1@,
            }),
    {
        match list_type {
            RefPicListType::List0 => self.list0.as_slice(),
            RefPicListType::List1 => self.list1.as_slice(),
        }
    }

    /// One of the lists, to change in place.
    pub fn get_mut(&mut self, list_type: RefPicListType) -> (r: &mut Vec<RefPicListEntry<'a>>)
        ensures
            list_type == RefPicListType::List0 ==> *r == old(self).list0
                && final(self).list0 == *final(r) && final(self).list1 == old(self).list1,
            list_type == RefPicListType::List1 ==> *r == old(self).list1
                && final(self).list1 == *final(r) && final(self).list0 == old(self).list0,
    {
        match list_type {
            RefPicListType::List0 => &mut self.list0,
            RefPicListType::List1 => &mut self.list1,
        }
    }
}

impl<'a> Default for RefPicLists<'a> {
    fn default() -> (r: RefPicLists<'a>)
        ensures
            r.list0@.len() == 0,
            r.list1@.len() == 0,
    {
        RefPicLists::new()
    }
}

/// Append the entries of short-term references.
fn push_short<'a>(list: &mut Vec<RefPicListEntry<'a>>, pics: &Vec<&'a RefPicture>)
    ensures
        final(list)@ == old(list)@ + short_entries(pics@),
{
    let ghost start = list@;
    let mut i: usize = 0;
    while i < pics.len()
        invariant
            0 <= i <= pics@.len(),
            start == old(list)@,
            list@ == start + short_entries(pics@.take(i as int)),
        decreases pics@.len() - i,
    {
        let pic = pics[i];
        list.push(RefPicListEntry { picture: pic, pic_num: Some(pic.frame_num as i32), long_term_pic_num: None });
        proof {
            assert(short_entries(pics@.take(i as int + 1)) =~= short_entries(pics@.take(i as int)).push(short_entry(pic)));
        }
        i += 1;
    }
    assert(pics@.take(pics@.len() as int) =~= pics@);
}

/// Append the entries of long-term references.
fn push_long<'a>(list: &mut Vec<RefPicListEntry<'a>>, pics: &Vec<&'a RefPicture>)
    ensures
        final(list)@ == old(list)@ + long_entries(pics@),
{
    let ghost start = list@;
    let mut i: usize = 0;
    while i < pics.len()
        invariant
            0 <= i <= pics@.len(),
            start == old(list)@,
            list@ == start + long_entries(pics@.take(i as int)),
        decreases pics@.len() - i,
    {
        let pic = pics[i];
        let idx: u32 = match pic.long_term_frame_idx {
            Some(v) => v,
            None => 0,
        };
        list.push(RefPicListEntry { picture: pic, pic_num: None, long_term_pic_num: Some(idx as i32) });
        proof {
            assert(long_entries(pics@.take(i as int + 1)) =~= long_entries(pics@.take(i as int)).push(long_entry(pic)));
        }
        i += 1;
    }
    assert(pics@.take(pics@.len() as int) =~= pics@);
}

/// The initial list 0 of a P slice: the short-term references by descending
/// picture number (their frame number; equal numbers keep descending POC order),
/// then the long-term references by long-term index. The picture number of a
/// short-term entry is its frame number.
pub fn construct_p_slice_list0<'a>(dpb: &'a Dpb, curr_pic_num: i32, max_pic_num: i32) -> (r: Vec<RefPicListEntry<'a>>)
    ensures
        r@ == short_entries(sorted_by(short_term_refs(dpb, SortKey::PocDescending), SortKey::FrameNumDescending))
            + long_entries(long_term_refs(dpb)),
{
    let mut list: Vec<RefPicListEntry<'a>> = Vec::new();
    let short_term = sort_refs(dpb.get_short_term_list(curr_pic_num, true), SortKey::FrameNumDescending);
    push_short(&mut list, &short_term);
    let long_term = dpb.get_long_term_list();
    push_long(&mut list, &long_term);
    proof {
        assert(Seq::<RefPicListEntry<'a>>::empty() + short_entries(short_term@) =~= short_entries(short_term@));
    }
    list
}

/// The initial lists of a B slice. List 0: the short-term references with POC
/// below `curr_poc`, closest first, then those at or above it, closest first, then
/// the long-term references. List 1: the two short-term groups swapped, then the
/// long-term references.
pub fn construct_b_slice_lists<'a>(dpb: &'a Dpb, curr_poc: i32, max_pic_num: i32) -> (r: RefPicLists<'a>)
    ensures
        r.list0@ == short_entries(past_refs(dpb, curr_poc)) + short_entries(future_refs(dpb, curr_poc))
            + long_entries(long_term_refs(dpb)),
        r.list1@ == short_entries(future_refs(dpb, curr_poc)) + short_entries(past_refs(dpb, curr_poc))
            + long_entries(long_term_refs(dpb)),
{
    let mut lists = RefPicLists::new();
    let all_refs = dpb.get_short_term_list(0, false);
    let past = sort_refs(filter_refs(&all_refs, PicFilter::ShortBefore(curr_poc)), SortKey::PocDescending);
    let future = sort_refs(filter_refs(&all_refs, PicFilter::ShortFrom(curr_poc)), SortKey::PocAscending);
    push_short(&mut lists.list0, &past);
    push_short(&mut lists.list0, &future);
    let long0 = dpb.get_long_term_list();
    push_long(&mut lists.list0, &long0);
    push_short(&mut lists.list1, &future);
    push_short(&mut lists.list1, &past);
    let long1 = dpb.get_long_term_list();
    push_long(&mut lists.list1, &long1);
    proof {
        assert(Seq::<RefPicListEntry<'a>>::empty() + short_entries(past@) =~= short_entries(past@));
        assert(Seq::<RefPicListEntry<'a>>::empty() + short_entries(future@) =~= short_entries(future@));
    }
    lists
}

/// Apply list modification commands to a default list. The commands are not
/// applied here: the default list comes back unchanged (`rplr::reorder_ref_pic_list`
/// applies them).
pub fn apply_rplr<'a>(default_list: Vec<RefPicListEntry<'a>>, commands: &[RplrCommand], curr_pic_num: i32,
    max_pic_num: i32) -> (r: Result<Vec<RefPicListEntry<'a>>>)
    ensures
        r matches Ok(v) && v@ == default_list@,
{
    Ok(default_list)
}

} // verus!
