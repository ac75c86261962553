use vstd::prelude::*;
use crate::util::error::{Error, Result, msg};
use crate::util::frame::MediaType;
use crate::codec::codec::CodecId;
use crate::codec::codec_par::{CodecParameters, blank_params};

verus! {

/// Opus codec mode (RFC 6716 Section 3.1).
#[derive(Debug, Clone, Copy, PartialEq, Eq, Structural)]
pub enum OpusMode {
    /// SILK-only mode (narrowband to wideband speech).
    Silk,
    /// Hybrid mode (SILK + CELT, super-wideband/fullband).
    Hybrid,
    /// CELT-only mode (fullband music/audio).
    Celt,
}

/// Opus bandwidth.
#[derive(Debug, Clone, Copy, PartialEq, Eq, Structural)]
pub enum OpusBandwidth {
    /// 4 kHz (narrowband).
    Narrowband,
    /// 6 kHz (medium band).
    Mediumband,
    /// 8 kHz (wideband).
    Wideband,
    /// 12 kHz (super wideband).
    SuperWideband,
    /// 20 kHz (fullband).
    Fullband,
}

impl OpusBandwidth {
    /// The sample rate that carries this bandwidth.
    pub fn sample_rate(&self) -> (r: u32)
        ensures r == match *self {
            OpusBandwidth::Narrowband => 8000u32,
            OpusBandwidth::Mediumband => 12000,
            OpusBandwidth::Wideband => 16000,
            OpusBandwidth::SuperWideband => 24000,
            OpusBandwidth::Fullband => 48000,
        },
    {
        match self {
            Self::Narrowband => 8000,
            Self::Mediumband => 12000,
            Self::Wideband => 16000,
            Self::SuperWideband => 24000,
            Self::Fullband => 48000,
        }
    }
}

/// Opus frame duration in samples at 48 kHz.
#[derive(Debug, Clone, Copy, PartialEq, Eq, Structural)]
pub struct OpusFrameDuration {
    /// Duration in samples at 48 kHz.
    pub samples_48k: u16,
}

/// Parsed Opus TOC (Table of Contents) byte.
#[derive(Debug, Clone, PartialEq, Eq, Structural)]
pub struct OpusToc {
    /// Codec mode.
    pub mode: OpusMode,
    /// Audio bandwidth.
    pub bandwidth: OpusBandwidth,
    /// Duration of each frame.
    pub frame_duration: OpusFrameDuration,
    /// Frame count code (0-3) from TOC.
    pub frame_count_code: u8,
    /// Whether this is stereo (s bit).
    pub stereo: bool,
    /// Config index (0-31).
    pub config: u8,
}

impl OpusToc {
    /// Opus audio parameters: 48 kHz, two channels when stereo, else one.
    pub fn to_codec_parameters(&self) -> (r: Result<CodecParameters>)
        ensures
            r matches Ok(p) && blank_params(p) && p.codec_id == CodecId::Opus && p.media_type == MediaType::Audio
                && p.sample_rate == 48000 && p.channels == (if self.stereo { 2u16 } else { 1u16 }),
    {
        let channels: u16 = if self.stereo { 2 } else { 1 };
        let mut par = match CodecParameters::new_audio(CodecId::Opus, 48000, channels) {
            Ok(p) => p,
            Err(e) => { return Err(e); }
        };
        par.codec_id = CodecId::Opus;
        Ok(par)
    }
}

/// Mode, bandwidth and frame duration (samples at 48 kHz) of a config index
/// (RFC 6716 Table 2): 0-11 SILK (narrow, medium, wide band by fours; 10,
/// 20, 40, 60 ms), 12-15 hybrid (super wide then full band; 10, 20 ms),
/// 16-31 CELT (narrow, wide, super wide, full band by fours; 2.5, 5, 10,
/// 20 ms).
pub open spec fn config_of(config: u8) -> Option<(OpusMode, OpusBandwidth, u16)> {
    if config < 12 {
        let bw = if config < 4 { OpusBandwidth::Narrowband } else if config < 8 { OpusBandwidth::Mediumband } else { OpusBandwidth::Wideband };
        let k = config % 4;
        let dur: u16 = if k == 0 { 480 } else if k == 1 { 960 } else if k == 2 { 1920 } else { 2880 };
        Some((OpusMode::Silk, bw, dur))
    } else if config < 16 {
        let bw = if config < 14 { OpusBandwidth::SuperWideband } else { OpusBandwidth::Fullband };
        let dur: u16 = if config % 2 == 0 { 480 } else { 960 };
        Some((OpusMode::Hybrid, bw, dur))
    } else if config < 32 {
        let bw = if config < 20 { OpusBandwidth::Narrowband } else if config < 24 { OpusBandwidth::Wideband }
            else if config < 28 { OpusBandwidth::SuperWideband } else { OpusBandwidth::Fullband };
        let k = config % 4;
        let dur: u16 = if k == 0 { 120 } else if k == 1 { 240 } else if k == 2 { 480 } else { 960 };
        Some((OpusMode::Celt, bw, dur))
    } else {
        None
    }
}

fn decode_config(config: u8) -> (r: Result<(OpusMode, OpusBandwidth, u16)>)
    ensures
        config_of(config) matches Some(t) ==> r == Ok::<(OpusMode, OpusBandwidth, u16), Error>(t),
        config_of(config) is None ==> r matches Err(Error::InvalidData(_)),
{
    if config < 12 {
        let bw = if config < 4 { OpusBandwidth::Narrowband } else if config < 8 { OpusBandwidth::Mediumband } else { OpusBandwidth::Wideband };
        let k = config % 4;
        let dur: u16 = if k == 0 { 480 } else if k == 1 { 960 } else if k == 2 { 1920 } else { 2880 };
        Ok((OpusMode::Silk, bw, dur))
    } else if config < 16 {
        let bw = if config < 14 { OpusBandwidth::SuperWideband } else { OpusBandwidth::Fullband };
        let dur: u16 = if config % 2 == 0 { 480 } else { 960 };
        Ok((OpusMode::Hybrid, bw, dur))
    } else if config < 32 {
        let bw = if config < 20 { OpusBandwidth::Narrowband } else if config < 24 { OpusBandwidth::Wideband }
            else if config < 28 { OpusBandwidth::SuperWideband } else { OpusBandwidth::Fullband };
        let k = config % 4;
        let dur: u16 = if k == 0 { 120 } else if k == 1 { 240 } else if k == 2 { 480 } else { 960 };
        Ok((OpusMode::Celt, bw, dur))
    } else {
        Err(Error::InvalidData(msg("invalid Opus config")))
    }
}

/// The TOC of a first byte: config in bits 7-3, stereo in bit 2, frame
/// count code in bits 1-0.
pub open spec fn toc_of(toc: u8) -> OpusToc {
    let config = (toc >> 3u8) & 0x1F;
    let t = config_of(config)->0;
    OpusToc {
        mode: t.0,
        bandwidth: t.1,
        frame_duration: OpusFrameDuration { samples_48k: t.2 },
        frame_count_code: toc & 3,
        stereo: (toc >> 2u8) & 1 != 0,
        config,
    }
}

/// Parse the TOC byte that starts every Opus packet (RFC 6716 Section 3.1).
pub fn parse_toc(data: &[u8]) -> (r: Result<OpusToc>)
    ensures
        data@.len() == 0 ==> r matches Err(Error::InvalidData(_)),
        data@.len() > 0 ==> r == Ok::<OpusToc, Error>(toc_of(data@[0])),
{
    if data.len() == 0 {
        return Err(Error::InvalidData(msg("empty Opus packet")));
    }
    let toc = data[0];
    let config = (toc >> 3) & 0x1F;
    let stereo = (toc >> 2) & 0x01 != 0;
    let frame_count_code = toc & 0x03;
    assert(config < 32) by (bit_vector) requires config == (toc >> 3u8) & 0x1F;
    let (mode, bandwidth, duration_samples) = match decode_config(config) {
        Ok(t) => t,
        Err(e) => { return Err(e); }
    };
    Ok(OpusToc {
        mode,
        bandwidth,
        frame_duration: OpusFrameDuration { samples_48k: duration_samples },
        frame_count_code,
        stereo,
        config,
    })
}

/// Number of frames in a packet (RFC 6716 Section 3.2): one for code 0,
/// two for codes 1 and 2, and for code 3 the count in the low six bits of
/// the second byte, which must be nonzero.
pub fn frame_count(data: &[u8]) -> (r: Result<u8>)
    ensures
        data@.len() == 0 ==> r matches Err(Error::InvalidData(_)),
        data@.len() > 0 && data@[0] & 3 == 0 ==> r == Ok::<u8, Error>(1),
        data@.len() > 0 && (data@[0] & 3 == 1 || data@[0] & 3 == 2) ==> r == Ok::<u8, Error>(2),
        data@.len() > 0 && data@[0] & 3 == 3 ==> (
            if data@.len() >= 2 && data@[1] & 0x3F != 0 { r == Ok::<u8, Error>(data@[1] & 0x3F) }
            else { r matches Err(Error::InvalidData(_)) }),
{
    if data.len() == 0 {
        return Err(Error::InvalidData(msg("empty Opus packet")));
    }
    let code = data[0] & 0x03;
    if code == 0 {
        Ok(1)
    } else if code == 1 || code == 2 {
        Ok(2)
    } else {
        if data.len() < 2 {
            return Err(Error::InvalidData(msg("Opus code 3 packet too short")));
        }
        let count = data[1] & 0x3F;
        if count == 0 {
            return Err(Error::InvalidData(msg("Opus code 3 with 0 frames")));
        }
        Ok(count)
    }
}

/// The TOC byte read against RFC 6716 Table 2: its top five bits are the
/// config, then the stereo bit and the two-bit frame count code; configs
/// 0-11 are SILK, 12-15 hybrid and 16-31 CELT; the bandwidth is narrow,
/// medium and wide band for SILK configs 0-3, 4-7 and 8-11, super-wideband
/// for hybrid 12-13 and fullband for hybrid 14-15, and narrow, wide,
/// super-wide and full band for CELT configs 16-19, 20-23, 24-27 and
/// 28-31; each frame lasts 10, 20, 40 or 60 ms (SILK), 10 or 20 ms
/// (hybrid) or 2.5, 5, 10 or 20 ms (CELT), in 48 kHz samples.
pub proof fn law_toc_table(b: u8)
    ensures ({
        let t = toc_of(b);
        let c = b / 8;
        &&& t.config == c && t.stereo == ((b / 4) % 2 == 1) && t.frame_count_code == b % 4
        &&& t.mode == (if c < 12 { OpusMode::Silk } else if c < 16 { OpusMode::Hybrid } else { OpusMode::Celt })
        &&& (0 <= c < 4 || 16 <= c < 20) <==> t.bandwidth == OpusBandwidth::Narrowband
        &&& (4 <= c < 8) <==> t.bandwidth == OpusBandwidth::Mediumband
        &&& (8 <= c < 12 || 20 <= c < 24) <==> t.bandwidth == OpusBandwidth::Wideband
        &&& (12 <= c < 14 || 24 <= c < 28) <==> t.bandwidth == OpusBandwidth::SuperWideband
        &&& (14 <= c < 16 || 28 <= c < 32) <==> t.bandwidth == OpusBandwidth::Fullband
        &&& c < 12 ==> t.frame_duration.samples_48k == seq![480u16, 960, 1920, 2880][(c % 4) as int]
        &&& 12 <= c < 16 ==> t.frame_duration.samples_48k == seq![480u16, 960][(c % 2) as int]
        &&& 16 <= c ==> t.frame_duration.samples_48k == seq![120u16, 240, 480, 960][(c % 4) as int]
    }),
{
    assert((b >> 3u8) & 0x1F == b / 8) by (bit_vector);
    assert(b & 3 == b % 4) by (bit_vector);
    assert(((b >> 2u8) & 1 != 0) == ((b / 4) % 2 == 1)) by (bit_vector);
}

/// Within a group of configs of one mode and bandwidth, each next config
/// doubles the frame duration (except that 60 ms SILK frames are 1.5 times
/// 40 ms ones), and the same config gives the same mode, bandwidth and
/// duration whatever the stereo and frame count bits.
pub proof fn law_toc_durations_double(b: u8, b2: u8)
    ensures
        b / 8 == b2 / 8 ==> toc_of(b).mode == toc_of(b2).mode && toc_of(b).bandwidth == toc_of(b2).bandwidth
            && toc_of(b).frame_duration == toc_of(b2).frame_duration,
        b2 / 8 == b / 8 + 1 && toc_of(b).mode == toc_of(b2).mode && toc_of(b).bandwidth == toc_of(b2).bandwidth
            && !(b / 8 == 10 || b / 8 == 2 || b / 8 == 6)
            ==> toc_of(b2).frame_duration.samples_48k == 2 * toc_of(b).frame_duration.samples_48k,
{
    law_toc_table(b);
    law_toc_table(b2);
}

} // verus!
