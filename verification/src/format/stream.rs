use vstd::prelude::*;
use crate::util::dict::Dict;
use crate::util::rational::Rational;
use crate::codec::codec::CodecId;
use crate::codec::codec_par::CodecParameters;

verus! {

/// Stream disposition flags.
#[derive(Debug, Clone, Copy, PartialEq, Eq, Structural)]
pub struct StreamDisposition {
    /// This is the default stream for its type.
    pub default: bool,
    /// Contains attached pictures (album art).
    pub attached_pic: bool,
    /// Contains forced subtitles.
    pub forced: bool,
    /// Stream is for hearing impaired.
    pub hearing_impaired: bool,
    /// Stream is for visually impaired.
    pub visual_impaired: bool,
}

impl Default for StreamDisposition {
    /// No flag set.
    fn default() -> (r: Self)
        ensures !r.default && !r.attached_pic && !r.forced && !r.hearing_impaired && !r.visual_impaired,
    {
        StreamDisposition { default: false, attached_pic: false, forced: false, hearing_impaired: false, visual_impaired: false }
    }
}

/// A single media stream within a container.
#[derive(Debug)]
pub struct Stream {
    /// Stream index (0-based).
    pub index: u32,
    /// Codec parameters for this stream.
    pub params: CodecParameters,
    /// Stream time base.
    pub time_base: Rational,
    /// Duration in time_base units (None if unknown).
    pub duration: Option<i64>,
    /// Number of frames (None if unknown).
    pub nb_frames: Option<u64>,
    /// Stream-level metadata.
    pub metadata: Dict,
    /// Stream disposition flags.
    pub disposition: StreamDisposition,
}

impl Stream {
    /// Create a new stream with an unknown time base, no duration or frame
    /// count, no metadata and no disposition flags.
    pub fn new(index: u32, params: CodecParameters) -> (r: Self)
        ensures
            r.index == index, r.params == params, r.time_base.num == 0 && r.time_base.den == 0,
            r.duration is None, r.nb_frames is None, r.metadata.wf(),
            r.metadata.view() == Seq::<(Seq<char>, Seq<char>)>::empty(),
            !r.disposition.default && !r.disposition.attached_pic && !r.disposition.forced
                && !r.disposition.hearing_impaired && !r.disposition.visual_impaired,
    {
        Stream {
            index, params, time_base: Rational::unknown(), duration: None, nb_frames: None,
            metadata: Dict::new(), disposition: StreamDisposition::default(),
        }
    }

    /// Codec ID of this stream.
    pub fn codec_id(&self) -> (r: CodecId)
        ensures r == self.params.codec_id,
    {
        self.params.codec_id
    }
}

} // verus!
