use vstd::prelude::*;
use crate::util::buffer::Buffer;
use crate::util::channel_layout::ChannelLayout;
use crate::util::error::{Error, Result, msg};
use crate::util::frame::MediaType;
use crate::util::pixfmt::PixelFormat;
use crate::util::rational::Rational;
use crate::util::samplefmt::SampleFormat;
use crate::codec::codec::CodecId;

verus! {

/// Parameters describing a codec configuration: the light description of a
/// stream's codec passed between demuxers/muxers and decoders/encoders.
#[derive(Debug, Clone)]
pub struct CodecParameters {
    /// The codec identifier.
    pub codec_id: CodecId,
    /// Media type (video, audio).
    pub media_type: MediaType,
    /// Codec-specific extra data (e.g. SPS/PPS for H.264, ESDS for AAC).
    pub extradata: Option<Buffer>,
    /// Average bitrate in bits/second (0 if unknown).
    pub bit_rate: u64,
    /// Video width in pixels.
    pub width: u32,
    /// Video height in pixels.
    pub height: u32,
    /// Pixel format.
    pub pixel_format: Option<PixelFormat>,
    /// Frame rate (frames per second).
    pub frame_rate: Rational,
    /// Sample aspect ratio.
    pub sample_aspect_ratio: Rational,
    /// Sample format.
    pub sample_format: Option<SampleFormat>,
    /// Sample rate in Hz.
    pub sample_rate: u32,
    /// Channel layout.
    pub channel_layout: Option<ChannelLayout>,
    /// Number of audio channels (fallback if layout is None).
    pub channels: u16,
    /// Samples per audio frame (0 if variable).
    pub frame_size: u32,
}

/// The channel layouts of two parameter sets hold the same channels.
pub open spec fn same_layout(a: Option<ChannelLayout>, b: Option<ChannelLayout>) -> bool {
    match (a, b) {
        (None, None) => true,
        (Some(x), Some(y)) => x.view() == y.view(),
        _ => false,
    }
}

/// Two parameter sets describe the same configuration.
pub open spec fn same_params(a: CodecParameters, b: CodecParameters) -> bool {
    &&& a.codec_id == b.codec_id && a.media_type == b.media_type && a.extradata == b.extradata
    &&& a.bit_rate == b.bit_rate && a.width == b.width && a.height == b.height
    &&& a.pixel_format == b.pixel_format && a.frame_rate == b.frame_rate
    &&& a.sample_aspect_ratio == b.sample_aspect_ratio && a.sample_format == b.sample_format
    &&& a.sample_rate == b.sample_rate && same_layout(a.channel_layout, b.channel_layout)
    &&& a.channels == b.channels && a.frame_size == b.frame_size
}

/// The empty configuration with the given codec, media type and sizes.
pub open spec fn blank_params(p: CodecParameters) -> bool {
    &&& p.extradata is None && p.bit_rate == 0 && p.pixel_format is None
    &&& p.frame_rate.num == 0 && p.frame_rate.den == 0
    &&& p.sample_aspect_ratio.num == 1 && p.sample_aspect_ratio.den == 1
    &&& p.sample_format is None && p.channel_layout is None && p.frame_size == 0
}

impl CodecParameters {
    /// Create empty parameters: no codec, video, nothing set, unknown frame
    /// rate and a square sample aspect ratio.
    pub fn new() -> (r: CodecParameters)
        ensures
            blank_params(r), r.codec_id == CodecId::NoCodec, r.media_type == MediaType::Video,
            r.width == 0 && r.height == 0 && r.sample_rate == 0 && r.channels == 0,
    {
        CodecParameters {
            codec_id: CodecId::NoCodec,
            media_type: MediaType::Video,
            extradata: None,
            bit_rate: 0,
            width: 0,
            height: 0,
            pixel_format: None,
            frame_rate: Rational::unknown(),
            sample_aspect_ratio: Rational::new(1, 1),
            sample_format: None,
            sample_rate: 0,
            channel_layout: None,
            channels: 0,
            frame_size: 0,
        }
    }

    /// Create parameters for a video stream.
    pub fn new_video(codec_id: CodecId, width: u32, height: u32) -> (r: Result<CodecParameters>)
        ensures
            width == 0 || height == 0 <==> r matches Err(Error::InvalidArgument(_)),
            width != 0 && height != 0 <==> r is Ok,
            r matches Ok(p) ==> blank_params(p) && p.codec_id == codec_id && p.media_type == MediaType::Video
                && p.width == width && p.height == height && p.sample_rate == 0 && p.channels == 0,
    {
        if width == 0 || height == 0 {
            return Err(Error::InvalidArgument(msg("video dimensions must be > 0")));
        }
        let mut p = Self::new();
        p.codec_id = codec_id;
        p.media_type = MediaType::Video;
        p.width = width;
        p.height = height;
        Ok(p)
    }

    /// Create parameters for an audio stream.
    pub fn new_audio(codec_id: CodecId, sample_rate: u32, channels: u16) -> (r: Result<CodecParameters>)
        ensures
            sample_rate == 0 || channels == 0 <==> r matches Err(Error::InvalidArgument(_)),
            sample_rate != 0 && channels != 0 <==> r is Ok,
            r matches Ok(p) ==> blank_params(p) && p.codec_id == codec_id && p.media_type == MediaType::Audio
                && p.width == 0 && p.height == 0 && p.sample_rate == sample_rate && p.channels == channels,
    {
        if sample_rate == 0 {
            return Err(Error::InvalidArgument(msg("sample_rate must be > 0")));
        }
        if channels == 0 {
            return Err(Error::InvalidArgument(msg("channels must be > 0")));
        }
        let mut p = Self::new();
        p.codec_id = codec_id;
        p.media_type = MediaType::Audio;
        p.sample_rate = sample_rate;
        p.channels = channels;
        Ok(p)
    }

    /// A copy of these parameters (the extradata is shared, not copied).
    pub fn duplicate(&self) -> (r: CodecParameters)
        ensures same_params(r, *self),
    {
        CodecParameters {
            codec_id: self.codec_id,
            media_type: self.media_type,
            extradata: match &self.extradata { Some(b) => Some(b.share()), None => None },
            bit_rate: self.bit_rate,
            width: self.width,
            height: self.height,
            pixel_format: self.pixel_format,
            frame_rate: self.frame_rate,
            sample_aspect_ratio: self.sample_aspect_ratio,
            sample_format: self.sample_format,
            sample_rate: self.sample_rate,
            channel_layout: match &self.channel_layout { Some(l) => Some(l.duplicate()), None => None },
            channels: self.channels,
            frame_size: self.frame_size,
        }
    }

    /// Copy all fields from another parameter set.
    pub fn copy_from(&mut self, other: &CodecParameters)
        ensures same_params(*final(self), *other),
    {
        *self = other.duplicate();
    }

    /// The number of channels: that of the channel layout when one is set
    /// (truncated to 16 bits), else `channels`.
    pub fn nb_channels(&self) -> (r: u16)
        ensures r == match self.channel_layout {
            Some(l) => l.view().len() as u16,
            None => self.channels,
        },
    {
        match &self.channel_layout {
            Some(l) => l.nb_channels(),
            None => self.channels,
        }
    }
}

impl Default for CodecParameters {
    fn default() -> (r: CodecParameters)
        ensures
            blank_params(r), r.codec_id == CodecId::NoCodec, r.media_type == MediaType::Video,
            r.width == 0 && r.height == 0 && r.sample_rate == 0 && r.channels == 0,
    {
        Self::new()
    }
}

} // verus!
