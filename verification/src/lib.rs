//! Audio/video decoding building blocks: containers for packets and frames,
//! an H.264 bitstream decoder, AAC bitstream parsing and video filters.
use vstd::prelude::*;

pub mod aac;
pub mod error;
pub mod filter;
pub mod frame;
pub mod h264;
pub mod packet;
pub mod pool;
pub mod simd;
pub mod stream;
pub mod time;

verus! {

} // verus!
