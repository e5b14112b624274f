//! ADTS framing of AAC: the seven- or nine-byte header before each frame and the
//! search for the next header in a byte stream.
use vstd::prelude::*;
use crate::error::{Error, Result};
use super::{AacProfile, ChannelConfig, sample_rate_from_index, sample_rate_table, spec_aac_profile, spec_channel_config};

verus! {

/// The fields of an ADTS header.
#[derive(Debug, Clone, Copy, PartialEq, Eq, Structural)]
pub struct AdtsHeader {
    pub profile: AacProfile,
    pub sample_rate_index: u8,
    pub sample_rate: u32,
    pub channel_config: ChannelConfig,
    pub frame_length: u16,
    pub num_aac_frames: u8,
    pub has_crc: bool,
}

/// The header read from the first seven bytes of `d`, or `None` where `d` is
/// shorter, the sync word is not `0xFFF`, or the sample rate index or channel
/// configuration is invalid.
pub open spec fn spec_adts_header(d: Seq<u8>) -> Option<AdtsHeader> {
    if d.len() < 7 {
        None
    } else {
        let sync = d[0] * 16 + d[1] / 16;
        let sri = (d[2] / 4) % 16;
        let ch = (d[2] % 2) * 4 + d[3] / 64;
        if sync != 0xFFF || sri >= 13 || ch < 1 || ch > 7 {
            None
        } else {
            Some(AdtsHeader {
                profile: spec_aac_profile((d[2] / 64 + 1) as u8),
                sample_rate_index: sri as u8,
                sample_rate: sample_rate_table()[sri as int],
                channel_config: spec_channel_config(ch as u8),
                frame_length: ((d[3] % 4) * 2048 + d[4] * 8 + d[5] / 32) as u16,
                num_aac_frames: (d[6] % 4 + 1) as u8,
                has_crc: d[1] % 2 == 0,
            })
        }
    }
}

impl AdtsHeader {
    /// Size of a header without CRC.
    pub const FIXED_HEADER_SIZE: usize = 7;
    /// Size of a header with CRC.
    pub const HEADER_SIZE_WITH_CRC: usize = 9;
    /// The 12-bit sync word.
    pub const SYNC_WORD: u16 = 0xFFF;

    /// Parse the header at the start of `data`; every failure is invalid data.
    pub fn parse(data: &[u8]) -> (r: Result<AdtsHeader>)
        ensures
            match spec_adts_header(data@) {
                Some(h) => r matches Ok(x) && x == h,
                None => r matches Err(e) && e.is_invalid(),
            },
    {
        if data.len() < 7 {
            return Err(Error::invalid("ADTS", "Frame too short"));
        }
        let d0 = data[0];
        let d1 = data[1];
        let d2 = data[2];
        let d3 = data[3];
        let d4 = data[4];
        let d5 = data[5];
        let d6 = data[6];
        let sync_word = ((d0 as u16) << 4) | ((d1 as u16) >> 4);
        assert(sync_word == (d0 as u16) * 16 + (d1 as u16) / 16) by (bit_vector)
            requires sync_word == ((d0 as u16) << 4) | ((d1 as u16) >> 4);
        if sync_word != 0xFFF {
            return Err(Error::invalid("ADTS", "Invalid sync word"));
        }
        let has_crc = (d1 & 0x01) == 0;
        let profile_val = (d2 >> 6) & 0x03;
        let sample_rate_index = (d2 >> 2) & 0x0F;
        let channel_config_val = ((d2 & 0x01) << 2) | ((d3 >> 6) & 0x03);
        let nf = d6 & 0x03;
        assert(d1 & 0x01 == d1 % 2 && profile_val == d2 / 64 && sample_rate_index == (d2 / 4) % 16
            && channel_config_val == (d2 % 2) * 4 + d3 / 64 && nf == d6 % 4) by (bit_vector)
            requires profile_val == (d2 >> 6) & 0x03, sample_rate_index == (d2 >> 2) & 0x0F,
                channel_config_val == ((d2 & 0x01) << 2) | ((d3 >> 6) & 0x03), nf == d6 & 0x03;
        let num_aac_frames = nf + 1;
        let profile = AacProfile::from_u8(profile_val + 1);
        let sample_rate = sample_rate_from_index(sample_rate_index)?;
        let channel_config = ChannelConfig::from_u8(channel_config_val)?;
        let frame_length = (((d3 & 0x03) as u16) << 11) | ((d4 as u16) << 3) | ((d5 as u16) >> 5);
        assert(frame_length == ((d3 % 4) as u16) * 2048 + (d4 as u16) * 8 + (d5 as u16) / 32) by (bit_vector)
            requires frame_length == (((d3 & 0x03) as u16) << 11) | ((d4 as u16) << 3) | ((d5 as u16) >> 5);
        Ok(AdtsHeader {
            profile,
            sample_rate_index,
            sample_rate,
            channel_config,
            frame_length,
            num_aac_frames,
            has_crc,
        })
    }

    /// The payload size: the frame length less the header, or 0 where the frame
    /// length is smaller.
    pub fn payload_size(&self) -> (n: usize)
        ensures
            n == (if self.frame_length >= self.header_size_spec() { self.frame_length - self.header_size_spec() } else { 0 }),
    {
        let header_size: usize = if self.has_crc { AdtsHeader::HEADER_SIZE_WITH_CRC } else { AdtsHeader::FIXED_HEADER_SIZE };
        self.frame_length.saturating_sub(header_size as u16) as usize
    }

    /// The header size: 9 bytes with CRC, 7 without.
    pub open spec fn header_size_spec(&self) -> int {
        if self.has_crc { 9 } else { 7 }
    }

    /// The header size: 9 bytes with CRC, 7 without.
    pub fn header_size(&self) -> (n: usize)
        ensures
            n == self.header_size_spec(),
    {
        if self.has_crc { AdtsHeader::HEADER_SIZE_WITH_CRC } else { AdtsHeader::FIXED_HEADER_SIZE }
    }
}

/// A valid ADTS header starts at byte `i` of `d`.
pub open spec fn adts_at(d: Seq<u8>, i: int) -> bool {
    0 <= i < d.len() && spec_adts_header(d.subrange(i, d.len() as int)) is Some
}

/// The first offset at which a valid ADTS header starts, if any.
pub fn find_sync(data: &[u8]) -> (r: Option<usize>)
    ensures
        match r {
            Some(i) => adts_at(data@, i as int) && forall|j: int| 0 <= j < i ==> !adts_at(data@, j),
            None => forall|j: int| 0 <= j < data@.len() ==> !adts_at(data@, j),
        },
{
    let n = data.len();
    if n < 2 {
        return None;
    }
    let mut i: usize = 0;
    while i < n - 1
        invariant
            n == data@.len(),
            n >= 2,
            0 <= i <= n - 1,
            forall|j: int| 0 <= j < i ==> !adts_at(data@, j),
        decreases n - 1 - i,
    {
        let d0 = data[i];
        let d1 = data[i + 1];
        let sync_word = ((d0 as u16) << 4) | ((d1 as u16) >> 4);
        assert(sync_word == (d0 as u16) * 16 + (d1 as u16) / 16) by (bit_vector)
            requires sync_word == ((d0 as u16) << 4) | ((d1 as u16) >> 4);
        let ghost rest = data@.subrange(i as int, n as int);
        assert(rest.len() >= 2 && rest[0] == d0 && rest[1] == d1);
        if sync_word == 0xFFF {
            if n - i >= 7 {
                let tail = &data[i..n];
                if AdtsHeader::parse(tail).is_ok() {
                    return Some(i);
                }
            }
        }
        i = i + 1;
    }
    proof {
        assert forall|j: int| 0 <= j < n implies !adts_at(data@, j) by {
            if j >= n - 1 {
                assert(data@.subrange(j, n as int).len() < 7);
            }
        }
    }
    None
}

/// The ADTS header fields sit at their bit positions: a header is read exactly when
/// there are seven bytes, the first twelve bits are all ones, the sample rate index
/// (bits 2 to 5 of byte 2) is below 13 and the channel configuration (the low bit of
/// byte 2, then the top two of byte 3) is 1 to 7. The profile is the top two bits of
/// byte 2 plus one, `protection_absent` is the low bit of byte 1 (a CRC follows when
/// it is 0), the frame length is the 13 bits from the low two of byte 3 to the top
/// three of byte 5, and the number of raw data blocks (less one) is the low two bits
/// of byte 6, so `num_aac_frames` is `(byte 6 & 0x03) + 1`.
pub proof fn lemma_adts_header_bits(d: Seq<u8>)
    ensures
        spec_adts_header(d) is Some <==> {
            &&& d.len() >= 7
            &&& d[0] == 0xFF
            &&& d[1] & 0xF0 == 0xF0
            &&& (d[2] >> 2) & 0x0F < 13
            &&& 1 <= (((d[2] & 0x01) << 2) | ((d[3] >> 6) & 0x03)) <= 7
        },
        spec_adts_header(d) is Some ==> {
            let h = spec_adts_header(d)->0;
            &&& h.profile == spec_aac_profile((((d[2] >> 6) & 0x03) + 1) as u8)
            &&& h.sample_rate_index == (d[2] >> 2) & 0x0F
            &&& h.channel_config == spec_channel_config(((d[2] & 0x01) << 2) | ((d[3] >> 6) & 0x03))
            &&& h.num_aac_frames == (d[6] & 0x03) + 1
            &&& h.has_crc == (d[1] & 0x01 == 0)
            &&& h.frame_length == ((((d[3] & 0x03) as u16) << 11) | ((d[4] as u16) << 3) | ((d[5] as u16) >> 5))
        },
{
    if d.len() >= 7 {
        let (b0, b1, b2, b3, b4, b5, b6) = (d[0], d[1], d[2], d[3], d[4], d[5], d[6]);
        assert((b0 as int) * 16 + (b1 as int) / 16 == 0xFFF <==> (b0 == 0xFF && b1 & 0xF0 == 0xF0)) by (bit_vector);
        assert(b6 & 0x03 == b6 % 4 && b1 & 0x01 == b1 % 2 && (b2 >> 2) & 0x0F == (b2 / 4) % 16
            && (b2 >> 6) & 0x03 == b2 / 64
            && ((b2 & 0x01) << 2) | ((b3 >> 6) & 0x03) == (b2 % 2) * 4 + b3 / 64) by (bit_vector);
        assert(((((b3 & 0x03) as u16) << 11) | ((b4 as u16) << 3) | ((b5 as u16) >> 5))
            == ((b3 % 4) as u16) * 2048 + (b4 as u16) * 8 + (b5 as u16) / 32) by (bit_vector);
    }
}

/// The upper six bits of byte 6 (the buffer fullness) take no part in the parsed
/// header: two inputs that agree on their first six bytes and on the low two bits
/// of byte 6 give the same header, or both none.
pub proof fn lemma_adts_buffer_fullness_ignored(d1: Seq<u8>, d2: Seq<u8>)
    requires
        d1.len() >= 7,
        d2.len() >= 7,
        forall|k: int| 0 <= k < 6 ==> d1[k] == d2[k],
        d1[6] & 0x03 == d2[6] & 0x03,
    ensures
        spec_adts_header(d1) == spec_adts_header(d2),
{
    let (x, y) = (d1[6], d2[6]);
    assert(x % 4 == y % 4) by (bit_vector)
        requires x & 0x03 == y & 0x03;
    assert(d1[0] == d2[0] && d1[1] == d2[1] && d1[2] == d2[2] && d1[3] == d2[3]
        && d1[4] == d2[4] && d1[5] == d2[5]);
}

} // verus!
