//! AAC audio: profiles, channel layouts and sample rates, ADTS headers, the
//! AudioSpecificConfig, and spectral data decoding.
use vstd::prelude::*;
use crate::error::{Error, Result};

pub mod adts;
pub mod bitstream;
pub mod huffman;
pub mod imdct;
pub mod parser;
pub mod spectral;

verus! {

/// AAC audio object types.
#[derive(Debug, Clone, Copy, PartialEq, Eq, Structural)]
pub enum AacProfile {
    Main,
    Lc,
    Ssr,
    Ltp,
    He,
    Scalable,
    Unknown,
}

/// The profile of an audio object type (1 to 6), else `Unknown`.
pub open spec fn spec_aac_profile(v: u8) -> AacProfile {
    if v == 1 { AacProfile::Main } else if v == 2 { AacProfile::Lc } else if v == 3 { AacProfile::Ssr }
    else if v == 4 { AacProfile::Ltp } else if v == 5 { AacProfile::He } else if v == 6 { AacProfile::Scalable }
    else { AacProfile::Unknown }
}

impl AacProfile {
    /// The profile of an audio object type.
    pub fn from_u8(value: u8) -> (p: AacProfile)
        ensures
            p == spec_aac_profile(value),
    {
        match value {
            1 => AacProfile::Main,
            2 => AacProfile::Lc,
            3 => AacProfile::Ssr,
            4 => AacProfile::Ltp,
            5 => AacProfile::He,
            6 => AacProfile::Scalable,
            _ => AacProfile::Unknown,
        }
    }

    /// The profile's display name.
    pub fn as_str(&self) -> (s: &'static str)
        ensures
            s@ == (match *self {
                AacProfile::Main => "AAC Main"@,
                AacProfile::Lc => "AAC-LC"@,
                AacProfile::Ssr => "AAC SSR"@,
                AacProfile::Ltp => "AAC LTP"@,
                AacProfile::He => "HE-AAC"@,
                AacProfile::Scalable => "AAC Scalable"@,
                AacProfile::Unknown => "Unknown"@,
            }),
    {
        match self {
            AacProfile::Main => "AAC Main",
            AacProfile::Lc => "AAC-LC",
            AacProfile::Ssr => "AAC SSR",
            AacProfile::Ltp => "AAC LTP",
            AacProfile::He => "HE-AAC",
            AacProfile::Scalable => "AAC Scalable",
            AacProfile::Unknown => "Unknown",
        }
    }
}

/// The sample rates by sampling frequency index.
pub open spec fn sample_rate_table() -> Seq<u32> {
    seq![96000u32, 88200, 64000, 48000, 44100, 32000, 24000, 22050, 16000, 12000, 11025, 8000, 7350]
}

/// The sample rate of a sampling frequency index; indices from 13 are invalid.
pub fn sample_rate_from_index(index: u8) -> (r: Result<u32>)
    ensures
        index < 13 <==> r is Ok,
        r matches Ok(v) ==> v == sample_rate_table()[index as int],
        r matches Err(e) ==> e.is_invalid(),
{
    let t: [u32; 13] = [96000, 88200, 64000, 48000, 44100, 32000, 24000, 22050, 16000, 12000, 11025, 8000, 7350];
    assert(t@ =~= sample_rate_table());
    if (index as usize) < 13 {
        Ok(t[index as usize])
    } else {
        Err(Error::invalid("AAC", "Invalid sampling frequency index"))
    }
}

/// Channel configurations 1 to 7.
#[derive(Debug, Clone, Copy, PartialEq, Eq, Structural)]
pub enum ChannelConfig {
    Mono,
    Stereo,
    Three,
    Four,
    Five,
    FiveOne,
    SevenOne,
}

/// The configuration with the given value, for values 1 to 7.
pub open spec fn spec_channel_config(v: u8) -> ChannelConfig {
    if v == 1 { ChannelConfig::Mono } else if v == 2 { ChannelConfig::Stereo } else if v == 3 { ChannelConfig::Three }
    else if v == 4 { ChannelConfig::Four } else if v == 5 { ChannelConfig::Five } else if v == 6 { ChannelConfig::FiveOne }
    else { ChannelConfig::SevenOne }
}

impl ChannelConfig {
    /// The configuration with the given value; only 1 to 7 exist.
    pub fn from_u8(value: u8) -> (r: Result<ChannelConfig>)
        ensures
            1 <= value <= 7 <==> r is Ok,
            r matches Ok(c) ==> c == spec_channel_config(value),
            r matches Err(e) ==> e.is_invalid(),
    {
        match value {
            1 => Ok(ChannelConfig::Mono),
            2 => Ok(ChannelConfig::Stereo),
            3 => Ok(ChannelConfig::Three),
            4 => Ok(ChannelConfig::Four),
            5 => Ok(ChannelConfig::Five),
            6 => Ok(ChannelConfig::FiveOne),
            7 => Ok(ChannelConfig::SevenOne),
            _ => Err(Error::invalid("AAC", "Invalid channel configuration")),
        }
    }

    /// The number of channels: the configuration value, except 8 for 7.1.
    pub fn channel_count(&self) -> (n: u32)
        ensures
            n == (match *self {
                ChannelConfig::Mono => 1u32,
                ChannelConfig::Stereo => 2u32,
                ChannelConfig::Three => 3u32,
                ChannelConfig::Four => 4u32,
                ChannelConfig::Five => 5u32,
                ChannelConfig::FiveOne => 6u32,
                ChannelConfig::SevenOne => 8u32,
            }),
    {
        match self {
            ChannelConfig::Mono => 1,
            ChannelConfig::Stereo => 2,
            ChannelConfig::Three => 3,
            ChannelConfig::Four => 4,
            ChannelConfig::Five => 5,
            ChannelConfig::FiveOne => 6,
            ChannelConfig::SevenOne => 8,
        }
    }
}

} // verus!
