use vstd::prelude::*;
use crate::util::error::{Error, Result, msg};
use crate::util::frame::MediaType;
use crate::codec::codec::CodecId;
use crate::codec::codec_par::{CodecParameters, blank_params};

verus! {

/// AAC profiles.
#[derive(Debug, Clone, Copy, PartialEq, Eq, Structural)]
pub enum AacProfile {
    /// AAC Main.
    Main,
    /// AAC-LC (Low Complexity) — most common.
    Lc,
    /// AAC SSR (Scalable Sample Rate).
    Ssr,
    /// AAC LTP (Long Term Prediction).
    Ltp,
}

/// The profile of an index, if it names one.
pub open spec fn profile_of(idx: u8) -> Option<AacProfile> {
    if idx == 0 { Some(AacProfile::Main) }
    else if idx == 1 { Some(AacProfile::Lc) }
    else if idx == 2 { Some(AacProfile::Ssr) }
    else if idx == 3 { Some(AacProfile::Ltp) }
    else { None }
}

impl AacProfile {
    /// The profile with index `idx` (0 to 3).
    pub fn from_index(idx: u8) -> (r: Result<Self>)
        ensures
            profile_of(idx) matches Some(p) ==> r == Ok::<AacProfile, Error>(p),
            profile_of(idx) is None ==> r matches Err(Error::InvalidData(_)),
    {
        match idx {
            0 => Ok(Self::Main),
            1 => Ok(Self::Lc),
            2 => Ok(Self::Ssr),
            3 => Ok(Self::Ltp),
            _ => Err(Error::InvalidData(msg("unknown AAC profile index"))),
        }
    }

    /// The profile's name.
    pub fn name(&self) -> (r: &'static str)
        ensures r@ == match *self {
            AacProfile::Main => "AAC Main"@,
            AacProfile::Lc => "AAC-LC"@,
            AacProfile::Ssr => "AAC SSR"@,
            AacProfile::Ltp => "AAC LTP"@,
        },
    {
        match self {
            Self::Main => "AAC Main",
            Self::Lc => "AAC-LC",
            Self::Ssr => "AAC SSR",
            Self::Ltp => "AAC LTP",
        }
    }
}

/// Standard AAC sample rates indexed by `sampling_frequency_index`.
pub const SAMPLE_RATES: [u32; 13] = [
    96000, 88200, 64000, 48000, 44100, 32000, 24000, 22050,
    16000, 12000, 11025, 8000, 7350,
];

/// Parsed ADTS frame header.
#[derive(Debug, Clone, Copy, PartialEq, Eq, Structural)]
pub struct AdtsHeader {
    /// AAC profile (0-3).
    pub profile: AacProfile,
    /// Sample rate in Hz.
    pub sample_rate: u32,
    /// Sampling frequency index (0-12).
    pub sample_rate_index: u8,
    /// Channel configuration (1-7).
    pub channel_config: u8,
    /// Number of audio channels.
    pub channels: u16,
    /// Total frame length in bytes (including header).
    pub frame_length: u16,
    /// True if CRC is present (protection_absent = 0).
    pub has_crc: bool,
    /// ADTS header size (7 or 9 bytes).
    pub header_size: u8,
}

impl AdtsHeader {
    /// Payload size: frame length minus header size, or zero.
    pub fn payload_size(&self) -> (r: u16)
        ensures r == (if self.frame_length >= self.header_size { self.frame_length - self.header_size } else { 0 }),
    {
        self.frame_length.saturating_sub(self.header_size as u16)
    }

    /// AAC audio parameters with the header's sample rate and channels (two
    /// when the stream defines them).
    pub fn to_codec_parameters(&self) -> (r: Result<CodecParameters>)
        ensures
            self.sample_rate == 0 <==> r matches Err(Error::InvalidArgument(_)),
            self.sample_rate != 0 ==> r is Ok,
            r matches Ok(p) ==> blank_params(p) && p.codec_id == CodecId::Aac && p.media_type == MediaType::Audio
                && p.sample_rate == self.sample_rate
                && p.channels == (if self.channels > 0 { self.channels } else { 2 }),
    {
        let channels = if self.channels > 0 { self.channels } else { 2 };
        let mut par = match CodecParameters::new_audio(CodecId::Aac, self.sample_rate, channels) {
            Ok(p) => p,
            Err(e) => { return Err(e); }
        };
        par.codec_id = CodecId::Aac;
        Ok(par)
    }
}

/// The sample rate of an index below 13.
pub open spec fn rate_of(i: u8) -> u32 {
    if i == 0 { 96000 } else if i == 1 { 88200 } else if i == 2 { 64000 } else if i == 3 { 48000 }
    else if i == 4 { 44100 } else if i == 5 { 32000 } else if i == 6 { 24000 } else if i == 7 { 22050 }
    else if i == 8 { 16000 } else if i == 9 { 12000 } else if i == 10 { 11025 } else if i == 11 { 8000 }
    else { 7350 }
}

/// Channels of a channel configuration: as numbered, except 7 meaning 8.
pub open spec fn channels_of(cfg: u8) -> u16 {
    if cfg == 7 { 8 } else { cfg as u16 }
}

/// The ADTS header at the start of `d`, or `None` when it is malformed: too
/// short, a sync word other than 0xFFF, a sampling frequency index above 12,
/// or a frame length (header included) below the header size.
pub open spec fn adts_header_of(d: Seq<u8>) -> Option<AdtsHeader> {
    if d.len() < 7 {
        None
    } else {
        let sync = ((d[0] as u16) << 4u16) | ((d[1] as u16) >> 4u16);
        let has_crc = d[1] & 1 == 0;
        let header_size: u8 = if has_crc { 9 } else { 7 };
        let profile_idx = (d[2] >> 6u8) & 3;
        let sf = (d[2] >> 2u8) & 0x0F;
        let cfg = ((d[2] & 1) << 2u8) | ((d[3] >> 6u8) & 3);
        let frame_length = (((d[3] & 3) as u16) << 11u16) | ((d[4] as u16) << 3u16) | ((d[5] >> 5u8) as u16);
        if sync != 0xFFF || profile_of(profile_idx) is None || sf >= 13 || cfg > 7
            || frame_length < header_size as u16 {
            None
        } else {
            Some(AdtsHeader {
                profile: profile_of(profile_idx)->0,
                sample_rate: rate_of(sf),
                sample_rate_index: sf,
                channel_config: cfg,
                channels: channels_of(cfg),
                frame_length,
                has_crc,
                header_size,
            })
        }
    }
}

/// Parse an ADTS header from the start of `data` (at least 7 bytes).
pub fn parse_adts_header(data: &[u8]) -> (r: Result<AdtsHeader>)
    ensures
        adts_header_of(data@) matches Some(h) ==> r == Ok::<AdtsHeader, Error>(h),
        adts_header_of(data@) is None ==> r matches Err(Error::InvalidData(_)),
{
    if data.len() < 7 {
        return Err(Error::InvalidData(msg("ADTS header requires at least 7 bytes")));
    }
    let sync = ((data[0] as u16) << 4) | ((data[1] as u16) >> 4);
    if sync != 0xFFF {
        return Err(Error::InvalidData(msg("ADTS sync word mismatch")));
    }
    let protection_absent = data[1] & 0x01;
    let has_crc = protection_absent == 0;
    let header_size: u8 = if has_crc { 9 } else { 7 };
    let profile_idx = (data[2] >> 6) & 0x03;
    let profile = match AacProfile::from_index(profile_idx) {
        Ok(p) => p,
        Err(e) => { return Err(e); }
    };
    let sf_index = (data[2] >> 2) & 0x0F;
    if sf_index as usize >= 13 {
        return Err(Error::InvalidData(msg("invalid sampling_frequency_index")));
    }
    let sample_rate = SAMPLE_RATES[sf_index as usize];
    let channel_config = ((data[2] & 0x01) << 2) | ((data[3] >> 6) & 0x03);
    let channels: u16 = match channel_config {
        1 => 1, 2 => 2, 3 => 3, 4 => 4, 5 => 5, 6 => 6, 7 => 8,
        0 => 0,
        _ => { return Err(Error::InvalidData(msg("invalid channel_config"))); }
    };
    let frame_length = (((data[3] & 0x03) as u16) << 11) | ((data[4] as u16) << 3) | ((data[5] >> 5) as u16);
    if frame_length < header_size as u16 {
        return Err(Error::InvalidData(msg("ADTS frame_length below header size")));
    }
    proof {
        let i = sf_index;
        assert(SAMPLE_RATES[i as int] == rate_of(i));
    }
    Ok(AdtsHeader {
        profile,
        sample_rate,
        sample_rate_index: sf_index,
        channel_config,
        channels,
        frame_length,
        has_crc,
        header_size,
    })
}

/// The frames of an ADTS stream from `pos` on: bytes are skipped until a
/// sync pattern (0xFF, then a byte with its high nibble set); a frame that
/// runs past the end stops the split; `None` when a header at a sync
/// pattern is malformed. Each frame gives its header and its payload.
pub open spec fn adts_frames(d: Seq<u8>, pos: nat) -> Option<Seq<(AdtsHeader, Seq<u8>)>>
    decreases d.len() - pos,
{
    if pos + 7 > d.len() {
        Some(Seq::empty())
    } else if d[pos as int] != 0xFF || (d[pos as int + 1] & 0xF0) != 0xF0 {
        adts_frames(d, pos + 1)
    } else {
        match adts_header_of(d.skip(pos as int)) {
            None => None,
            Some(h) => {
                let end: nat = pos + h.frame_length as nat;
                if end > d.len() || h.frame_length == 0 {
                    Some(Seq::empty())
                } else {
                    match adts_frames(d, end) {
                        Some(rest) => Some(seq![(h, d.subrange(pos + h.header_size as int, end as int))] + rest),
                        None => None,
                    }
                }
            }
        }
    }
}

/// The frames are the headers and payloads, one for one.
pub open spec fn frames_match(v: Seq<(AdtsHeader, Vec<u8>)>, s: Seq<(AdtsHeader, Seq<u8>)>) -> bool {
    v.len() == s.len() && forall|i: int| 0 <= i < v.len() ==> (#[trigger] v[i]).0 == s[i].0 && v[i].1@ == s[i].1
}

/// Split an ADTS byte stream into frames: each is its header and payload.
pub fn split_adts_frames(data: &[u8]) -> (r: Result<Vec<(AdtsHeader, Vec<u8>)>>)
    ensures
        r is Ok <==> adts_frames(data@, 0) is Some,
        r is Err ==> r matches Err(Error::InvalidData(_)),
        r matches Ok(v) ==> frames_match(v@, adts_frames(data@, 0)->0),
{
    let mut frames: Vec<(AdtsHeader, Vec<u8>)> = Vec::new();
    let mut pos: usize = 0;
    let dl = data.len();
    let ghost mut seen: Seq<(AdtsHeader, Seq<u8>)> = Seq::empty();
    while pos < data.len() && data.len() - pos >= 7
        invariant
            pos <= data@.len(), dl == data@.len(), frames_match(frames@, seen),
            adts_frames(data@, 0) == match adts_frames(data@, pos as nat) {
                Some(rest) => Some(seen + rest),
                None => None::<Seq<(AdtsHeader, Seq<u8>)>>,
            },
        decreases data@.len() - pos,
    {
        if data[pos] != 0xFF || (data[pos + 1] & 0xF0) != 0xF0 {
            pos += 1;
            continue;
        }
        let rest = vstd::slice::slice_subrange(data, pos, data.len());
        assert(rest@ =~= data@.skip(pos as int));
        let header = match parse_adts_header(rest) {
            Ok(h) => h,
            Err(e) => { return Err(e); }
        };
        let flen = header.frame_length as usize;
        if flen > data.len() - pos {
            assert(adts_frames(data@, pos as nat) == Some(Seq::<(AdtsHeader, Seq<u8>)>::empty()));
            assert(seen + Seq::<(AdtsHeader, Seq<u8>)>::empty() =~= seen);
            return Ok(frames);
        }
        let frame_end = pos + flen;
        let payload_start = pos + header.header_size as usize;
        let mut payload: Vec<u8> = Vec::new();
        let mut k = payload_start;
        while k < frame_end
            invariant payload_start <= k <= frame_end, frame_end <= data@.len(),
                payload@ == data@.subrange(payload_start as int, k as int),
            decreases frame_end - k,
        {
            payload.push(data[k]);
            k += 1;
            assert(payload@ =~= data@.subrange(payload_start as int, k as int));
        }
        proof {
            let piece = data@.subrange(payload_start as int, frame_end as int);
            match adts_frames(data@, frame_end as nat) {
                Some(r2) => { assert(seen + (seq![(header, piece)] + r2) =~= seen.push((header, piece)) + r2); }
                None => {}
            }
            seen = seen.push((header, piece));
        }
        frames.push((header, payload));
        pos = frame_end;
    }
    proof {
        if !(pos < data@.len() && data@.len() - pos >= 7) {
            assert(adts_frames(data@, pos as nat) == Some(Seq::<(AdtsHeader, Seq<u8>)>::empty()));
        }
    }
    assert(seen + Seq::<(AdtsHeader, Seq<u8>)>::empty() =~= seen);
    Ok(frames)
}

/// What an ADTS header's fields are, from its bytes: the header is 9 bytes
/// (a 2-byte CRC follows the fixed 7) exactly when the protection-absent
/// bit, the lowest of byte 1, is clear; the frame length, counting the
/// header, is the 13 bits that span bytes 3 to 5; the sampling frequency
/// index is bits 2 to 5 of byte 2 and gives the standard rate; and a
/// header is accepted exactly when it is 7 bytes or more, starts with the
/// 12-bit sync word, names one of the 13 rates and its frame holds at
/// least the header.
pub proof fn law_adts_header_fields(d: Seq<u8>)
    ensures
        adts_header_of(d) is Some <==> (d.len() >= 7 && d[0] == 0xFF && d[1] / 16 == 15 && (d[2] / 4) % 16 < 13
            && (d[3] % 4) * 2048 + d[4] * 8 + d[5] / 32 >= (if d[1] % 2 == 0 { 9int } else { 7int })),
        adts_header_of(d) matches Some(h) ==> ({
            &&& h.has_crc == (d[1] % 2 == 0)
            &&& h.header_size == (if d[1] % 2 == 0 { 9int } else { 7int })
            &&& h.frame_length == (d[3] % 4) * 2048 + d[4] * 8 + d[5] / 32
            &&& h.frame_length >= h.header_size
            &&& h.sample_rate_index == (d[2] / 4) % 16
            &&& h.sample_rate == seq![96000u32, 88200, 64000, 48000, 44100, 32000, 24000, 22050,
                16000, 12000, 11025, 8000, 7350][h.sample_rate_index as int]
            &&& h.channel_config == (d[2] % 2) * 4 + d[3] / 64
            &&& h.channels == (if h.channel_config == 7 { 8int } else { h.channel_config as int })
            &&& h.profile == seq![AacProfile::Main, AacProfile::Lc, AacProfile::Ssr, AacProfile::Ltp][(d[2] / 64) as int]
        }),
{
    if d.len() >= 7 {
        let (b0, b1, b2, b3, b4, b5) = (d[0], d[1], d[2], d[3], d[4], d[5]);
        assert(((((b0 as u16) << 4u16) | ((b1 as u16) >> 4u16)) == 0xFFFu16) == (b0 == 0xFF && b1 / 16 == 15)) by (bit_vector);
        assert(((b1 & 1) == 0) == (b1 % 2 == 0)) by (bit_vector);
        assert(((b2 >> 2u8) & 0x0F) == (b2 / 4) % 16) by (bit_vector);
        assert(((b2 >> 6u8) & 3) == b2 / 64) by (bit_vector);
        assert((((b2 & 1) << 2u8) | ((b3 >> 6u8) & 3)) == (b2 % 2) * 4 + b3 / 64) by (bit_vector);
        assert(((((b3 & 3) as u16) << 11u16) | ((b4 as u16) << 3u16) | ((b5 >> 5u8) as u16))
            == (b3 % 4) as u16 * 2048 + b4 as u16 * 8 + (b5 / 32) as u16) by (bit_vector);
    }
}

/// Splitting a stream at a frame whose header is at `pos` and which fits in
/// the data: the frame's payload is its bytes after the header, 9 bytes in
/// when a CRC follows the fixed header and 7 otherwise, up to the frame
/// length; the split goes on right after the frame.
pub proof fn law_adts_frame_payload(d: Seq<u8>, pos: nat)
    requires
        pos + 7 <= d.len(),
        adts_header_of(d.skip(pos as int)) is Some,
        pos + adts_header_of(d.skip(pos as int))->0.frame_length <= d.len(),
    ensures ({
        let h = adts_header_of(d.skip(pos as int))->0;
        let start: int = pos + (if d[pos as int + 1] % 2 == 0 { 9int } else { 7int });
        let end: nat = pos + h.frame_length as nat;
        adts_frames(d, pos) == match adts_frames(d, end) {
            Some(rest) => Some(seq![(h, d.subrange(start, end as int))] + rest),
            None => None,
        }
    }),
{
    let e = d.skip(pos as int);
    law_adts_header_fields(e);
    assert(e[0] == d[pos as int] && e[1] == d[pos as int + 1]);
    let b1 = d[pos as int + 1];
    assert(b1 / 16 == 15 ==> (b1 & 0xF0) == 0xF0) by (bit_vector);
}

} // verus!
