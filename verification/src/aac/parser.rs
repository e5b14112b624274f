//! The AudioSpecificConfig of MP4 and similar containers.
use vstd::prelude::*;
use crate::error::{Error, Result};
use crate::h264::nal::{bits_value, lemma_bits_value_bound};
use super::bitstream::BitReader;
use super::{AacProfile, ChannelConfig, sample_rate_from_index, sample_rate_table, spec_aac_profile, spec_channel_config};

verus! {

/// The decoder configuration of an AAC stream.
#[derive(Debug, Clone, Copy, PartialEq, Eq, Structural)]
pub struct AudioSpecificConfig {
    pub profile: AacProfile,
    pub sample_rate: u32,
    pub channel_config: ChannelConfig,
    pub frame_length: usize,
}

/// The configuration in `d`: a 5-bit object type, a 4-bit frequency index (15 for
/// an explicit 24-bit rate), a 4-bit channel configuration and the frame length
/// flag (960 samples when set, else 1024), followed by two more bits. `None` where
/// the data holds fewer than two bytes or bits, or a value is invalid.
pub open spec fn spec_asc(d: Seq<u8>) -> Option<AudioSpecificConfig> {
    let n = d.len() * 8;
    let aot = bits_value(d, 0, 5);
    let sfi = bits_value(d, 5, 4);
    let p = if sfi == 15 { 33int } else { 9int };
    let rate = if sfi == 15 { bits_value(d, 9, 24) as u32 } else { sample_rate_table()[sfi as int] };
    let ch = bits_value(d, p, 4);
    let flag = bits_value(d, p + 4, 1);
    if d.len() < 2 || (sfi == 15 && n < 33) || (sfi != 15 && sfi >= 13) || n < p + 4 || ch < 1 || ch > 7 || n < p + 7 {
        None
    } else {
        Some(AudioSpecificConfig {
            profile: spec_aac_profile(aot as u8),
            sample_rate: rate,
            channel_config: spec_channel_config(ch as u8),
            frame_length: if flag != 0 { 960 } else { 1024 },
        })
    }
}

impl AudioSpecificConfig {
    /// Parse a configuration; short data and invalid values fail.
    pub fn parse(data: &[u8]) -> (r: Result<AudioSpecificConfig>)
        ensures
            match spec_asc(data@) {
                Some(c) => r matches Ok(x) && x == c,
                None => r matches Err(e) && e.is_invalid(),
            },
    {
        if data.len() < 2 {
            return Err(Error::invalid("AAC", "AudioSpecificConfig too short"));
        }
        let ghost s = data@;
        let mut reader = BitReader::new(data);
        proof {
            lemma_bits_value_bound(s, 0, 5);
            lemma_bits_value_bound(s, 5, 4);
            vstd::arithmetic::power2::lemma2_to64();
        }
        let audio_object_type = reader.read_bits(5)? as u8;
        let profile = AacProfile::from_u8(audio_object_type);
        let sampling_freq_index = reader.read_bits(4)? as u8;
        let sample_rate = if sampling_freq_index == 0xF {
            reader.read_bits(24)?
        } else {
            sample_rate_from_index(sampling_freq_index)?
        };
        let ghost p = reader.pos();
        proof {
            lemma_bits_value_bound(s, p, 4);
            vstd::arithmetic::power2::lemma2_to64();
        }
        let channel_config_value = reader.read_bits(4)? as u8;
        let channel_config = ChannelConfig::from_u8(channel_config_value)?;
        let frame_length_flag = reader.read_bits(1)? != 0;
        let frame_length: usize = if frame_length_flag { 960 } else { 1024 };
        let _depends_on_core_coder = reader.read_bits(1)?;
        let _extension_flag = reader.read_bits(1)?;
        Ok(AudioSpecificConfig { profile, sample_rate, channel_config, frame_length })
    }

    /// The usual configuration: AAC-LC, 44100 Hz, stereo, 1024-sample frames.
    pub fn default_lc() -> (c: AudioSpecificConfig)
        ensures
            c == (AudioSpecificConfig { profile: AacProfile::Lc, sample_rate: 44100, channel_config: ChannelConfig::Stereo, frame_length: 1024 }),
    {
        AudioSpecificConfig { profile: AacProfile::Lc, sample_rate: 44100, channel_config: ChannelConfig::Stereo, frame_length: 1024 }
    }
}

} // verus!
