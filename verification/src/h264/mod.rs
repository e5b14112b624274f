//! H.264/AVC decoding: NAL units, parameter sets, slice headers, entropy decoding,
//! prediction, transforms, reference picture management and output ordering.
use vstd::prelude::*;
use crate::error::{Error, Result};

pub mod arith;
pub mod cabac;
pub mod cavlc;
pub mod decoder;
pub mod deblock;
pub mod inter_pred;
pub mod intra_8x8;
pub mod intra_chroma;
pub mod direct_mode;
pub mod dpb;
pub mod macroblock;
pub mod motion;
pub mod nal;
pub mod nal_stream;
pub mod output;
pub mod parser;
pub mod poc;
pub mod predict;
pub mod qp;
pub mod ref_pic_list;
pub mod reconstruct;
pub mod rplr;
pub mod scaling;
pub mod simd;
pub mod slice;
pub mod slice_groups;
pub mod transform;
pub mod weighted_pred;

pub use decoder::H264Decoder;
pub use parser::{Sps, Pps};

verus! {

/// H.264 profile identifiers.
#[derive(Debug, Clone, Copy, PartialEq, Eq, Structural)]
pub enum Profile {
    Baseline,
    Main,
    High,
    Unknown,
}

impl Profile {
    /// The profile with the given `profile_idc` (66, 77 or 100), else `Unknown`.
    pub fn from_u8(value: u8) -> (p: Profile)
        ensures
            p == (if value == 66 { Profile::Baseline } else if value == 77 { Profile::Main }
                else if value == 100 { Profile::High } else { Profile::Unknown }),
    {
        match value {
            66 => Profile::Baseline,
            77 => Profile::Main,
            100 => Profile::High,
            _ => Profile::Unknown,
        }
    }
}

/// NAL unit type.
#[derive(Debug, Clone, Copy, PartialEq, Eq, Structural)]
pub enum NalType {
    Unspecified,
    CodedSliceNonIdr,
    CodedSlicePartitionA,
    CodedSlicePartitionB,
    CodedSlicePartitionC,
    CodedSliceIdr,
    Sei,
    Sps,
    Pps,
    AccessUnitDelimiter,
    EndOfSequence,
    EndOfStream,
    FillerData,
    SpsExt,
    Prefix,
    SubSps,
    CodedSliceAux,
    CodedSliceExt,
}

/// The NAL unit type of a `nal_unit_type` value; reserved and unspecified values
/// give `Unspecified`.
pub open spec fn spec_nal_type(v: u8) -> NalType {
    if v == 1 { NalType::CodedSliceNonIdr }
    else if v == 2 { NalType::CodedSlicePartitionA }
    else if v == 3 { NalType::CodedSlicePartitionB }
    else if v == 4 { NalType::CodedSlicePartitionC }
    else if v == 5 { NalType::CodedSliceIdr }
    else if v == 6 { NalType::Sei }
    else if v == 7 { NalType::Sps }
    else if v == 8 { NalType::Pps }
    else if v == 9 { NalType::AccessUnitDelimiter }
    else if v == 10 { NalType::EndOfSequence }
    else if v == 11 { NalType::EndOfStream }
    else if v == 12 { NalType::FillerData }
    else if v == 13 { NalType::SpsExt }
    else if v == 14 { NalType::Prefix }
    else if v == 15 { NalType::SubSps }
    else if v == 19 { NalType::CodedSliceAux }
    else if v == 20 { NalType::CodedSliceExt }
    else { NalType::Unspecified }
}

impl NalType {
    pub fn from_u8(value: u8) -> (t: NalType)
        ensures
            t == spec_nal_type(value),
    {
        match value {
            1 => NalType::CodedSliceNonIdr,
            2 => NalType::CodedSlicePartitionA,
            3 => NalType::CodedSlicePartitionB,
            4 => NalType::CodedSlicePartitionC,
            5 => NalType::CodedSliceIdr,
            6 => NalType::Sei,
            7 => NalType::Sps,
            8 => NalType::Pps,
            9 => NalType::AccessUnitDelimiter,
            10 => NalType::EndOfSequence,
            11 => NalType::EndOfStream,
            12 => NalType::FillerData,
            13 => NalType::SpsExt,
            14 => NalType::Prefix,
            15 => NalType::SubSps,
            19 => NalType::CodedSliceAux,
            20 => NalType::CodedSliceExt,
            _ => NalType::Unspecified,
        }
    }
}

/// Slice type.
#[derive(Debug, Clone, Copy, PartialEq, Eq, Structural)]
pub enum SliceType {
    P,
    B,
    I,
    Sp,
    Si,
}

/// The slice type of a `slice_type` value (values 5..9 repeat 0..4).
pub open spec fn spec_slice_type(v: u32) -> SliceType {
    if v % 5 == 0 { SliceType::P }
    else if v % 5 == 1 { SliceType::B }
    else if v % 5 == 2 { SliceType::I }
    else if v % 5 == 3 { SliceType::Sp }
    else { SliceType::Si }
}

impl SliceType {
    /// The slice type of `value % 5`; every value maps to a type.
    pub fn from_u32(value: u32) -> (r: Result<SliceType>)
        ensures
            r matches Ok(t) && t == spec_slice_type(value),
    {
        match value % 5 {
            0 => Ok(SliceType::P),
            1 => Ok(SliceType::B),
            2 => Ok(SliceType::I),
            3 => Ok(SliceType::Sp),
            4 => Ok(SliceType::Si),
            _ => Err(Error::invalid("slice type", "Invalid slice type value")),
        }
    }
}

} // verus!
