//! Compressed packets, as they come out of a demuxer.
use vstd::prelude::*;
use crate::time::{Dts, Pts};

verus! {

/// A packet of encoded data.
#[derive(Debug, Clone)]
pub struct Packet {
    pub data: Vec<u8>,
    pub pts: Option<Pts>,
    pub dts: Option<Dts>,
    pub duration: Option<i64>,
    pub stream_index: usize,
    pub keyframe: bool,
}

impl Packet {
    /// A packet with no timestamps that is not a keyframe.
    pub fn new(data: Vec<u8>, stream_index: usize) -> (p: Packet)
        ensures
            p.data@ == data@,
            p.stream_index == stream_index,
            p.pts is None,
            p.dts is None,
            p.duration is None,
            !p.keyframe,
    {
        Packet { data, pts: None, dts: None, duration: None, stream_index, keyframe: false }
    }

    pub fn is_keyframe(&self) -> (b: bool)
        ensures
            b == self.keyframe,
    {
        self.keyframe
    }

    /// Number of encoded bytes.
    pub fn size(&self) -> (n: usize)
        ensures
            n == self.data@.len(),
    {
        self.data.len()
    }
}

} // verus!
