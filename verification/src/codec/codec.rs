use vstd::prelude::*;
use crate::util::error::Result;
use crate::util::frame::{Frame, MediaType};
use crate::util::text::str_eq;
use crate::codec::codec_par::CodecParameters;
use crate::codec::packet::Packet;

verus! {

/// Codec identifiers.
#[derive(Debug, Clone, Copy, PartialEq, Eq, Hash, Structural)]
#[non_exhaustive]
pub enum CodecId {
    NoCodec,
    H264,
    Hevc,
    Vp8,
    Vp9,
    Av1,
    Png,
    PcmS16Le,
    PcmS16Be,
    PcmF32Le,
    PcmF32Be,
    PcmU8,
    Flac,
    Aac,
    Opus,
    Mp3,
    Vorbis,
    Srt,
    Ass,
    WebVtt,
}

impl CodecId {
    /// The codec's name.
    pub open spec fn spec_name(self) -> Seq<char> {
        match self {
            Self::NoCodec => "none"@,
            Self::H264 => "h264"@,
            Self::Hevc => "hevc"@,
            Self::Vp8 => "vp8"@,
            Self::Vp9 => "vp9"@,
            Self::Av1 => "av1"@,
            Self::Png => "png"@,
            Self::PcmS16Le => "pcm_s16le"@,
            Self::PcmS16Be => "pcm_s16be"@,
            Self::PcmF32Le => "pcm_f32le"@,
            Self::PcmF32Be => "pcm_f32be"@,
            Self::PcmU8 => "pcm_u8"@,
            Self::Flac => "flac"@,
            Self::Aac => "aac"@,
            Self::Opus => "opus"@,
            Self::Mp3 => "mp3"@,
            Self::Vorbis => "vorbis"@,
            Self::Srt => "srt"@,
            Self::Ass => "ass"@,
            Self::WebVtt => "webvtt"@,
        }
    }

    /// The codec's media type; subtitle codecs count as audio for now.
    pub open spec fn spec_media_type(self) -> MediaType {
        match self {
            Self::NoCodec => MediaType::Video,
            Self::H264 => MediaType::Video,
            Self::Hevc => MediaType::Video,
            Self::Vp8 => MediaType::Video,
            Self::Vp9 => MediaType::Video,
            Self::Av1 => MediaType::Video,
            Self::Png => MediaType::Video,
            Self::PcmS16Le => MediaType::Audio,
            Self::PcmS16Be => MediaType::Audio,
            Self::PcmF32Le => MediaType::Audio,
            Self::PcmF32Be => MediaType::Audio,
            Self::PcmU8 => MediaType::Audio,
            Self::Flac => MediaType::Audio,
            Self::Aac => MediaType::Audio,
            Self::Opus => MediaType::Audio,
            Self::Mp3 => MediaType::Audio,
            Self::Vorbis => MediaType::Audio,
            Self::Srt => MediaType::Audio,
            Self::Ass => MediaType::Audio,
            Self::WebVtt => MediaType::Audio,
        }
    }

    /// The media type for this codec.
    pub fn media_type(&self) -> (r: MediaType)
        ensures r == self.spec_media_type(),
    {
        match self {
            Self::NoCodec => MediaType::Video,
            Self::H264 => MediaType::Video,
            Self::Hevc => MediaType::Video,
            Self::Vp8 => MediaType::Video,
            Self::Vp9 => MediaType::Video,
            Self::Av1 => MediaType::Video,
            Self::Png => MediaType::Video,
            Self::PcmS16Le => MediaType::Audio,
            Self::PcmS16Be => MediaType::Audio,
            Self::PcmF32Le => MediaType::Audio,
            Self::PcmF32Be => MediaType::Audio,
            Self::PcmU8 => MediaType::Audio,
            Self::Flac => MediaType::Audio,
            Self::Aac => MediaType::Audio,
            Self::Opus => MediaType::Audio,
            Self::Mp3 => MediaType::Audio,
            Self::Vorbis => MediaType::Audio,
            Self::Srt => MediaType::Audio,
            Self::Ass => MediaType::Audio,
            Self::WebVtt => MediaType::Audio,
        }
    }

    /// Human-readable name.
    pub fn name(&self) -> (r: &'static str)
        ensures r@ == self.spec_name(),
    {
        match self {
            Self::NoCodec => "none",
            Self::H264 => "h264",
            Self::Hevc => "hevc",
            Self::Vp8 => "vp8",
            Self::Vp9 => "vp9",
            Self::Av1 => "av1",
            Self::Png => "png",
            Self::PcmS16Le => "pcm_s16le",
            Self::PcmS16Be => "pcm_s16be",
            Self::PcmF32Le => "pcm_f32le",
            Self::PcmF32Be => "pcm_f32be",
            Self::PcmU8 => "pcm_u8",
            Self::Flac => "flac",
            Self::Aac => "aac",
            Self::Opus => "opus",
            Self::Mp3 => "mp3",
            Self::Vorbis => "vorbis",
            Self::Srt => "srt",
            Self::Ass => "ass",
            Self::WebVtt => "webvtt",
        }
    }

    /// Text of the codec: its name.
    pub fn to_string(&self) -> (r: String)
        ensures r@ == self.spec_name(),
    {
        String::from_str(self.name())
    }

    /// Parse from name.
    pub fn from_name(name: &str) -> (r: Option<Self>)
        ensures
            r matches Some(c) ==> c.spec_name() == name@,
            r is None ==> forall|c: CodecId| c.spec_name() != name@,
    {
        let mut i: usize = 0;
        while i < 20
            invariant
                i <= 20,
                forall|j: int| 0 <= j < i ==> (#[trigger] ALL_CODEC_IDS[j]).spec_name() != name@,
            decreases 20 - i,
        {
            let c = ALL_CODEC_IDS[i];
            if str_eq(c.name(), name) {
                return Some(c);
            }
            i += 1;
        }
        assert forall|c: CodecId| c.spec_name() != name@ by {
            match c {
                Self::NoCodec => assert(ALL_CODEC_IDS[0] == c),
                Self::H264 => assert(ALL_CODEC_IDS[1] == c),
                Self::Hevc => assert(ALL_CODEC_IDS[2] == c),
                Self::Vp8 => assert(ALL_CODEC_IDS[3] == c),
                Self::Vp9 => assert(ALL_CODEC_IDS[4] == c),
                Self::Av1 => assert(ALL_CODEC_IDS[5] == c),
                Self::Png => assert(ALL_CODEC_IDS[6] == c),
                Self::PcmS16Le => assert(ALL_CODEC_IDS[7] == c),
                Self::PcmS16Be => assert(ALL_CODEC_IDS[8] == c),
                Self::PcmF32Le => assert(ALL_CODEC_IDS[9] == c),
                Self::PcmF32Be => assert(ALL_CODEC_IDS[10] == c),
                Self::PcmU8 => assert(ALL_CODEC_IDS[11] == c),
                Self::Flac => assert(ALL_CODEC_IDS[12] == c),
                Self::Aac => assert(ALL_CODEC_IDS[13] == c),
                Self::Opus => assert(ALL_CODEC_IDS[14] == c),
                Self::Mp3 => assert(ALL_CODEC_IDS[15] == c),
                Self::Vorbis => assert(ALL_CODEC_IDS[16] == c),
                Self::Srt => assert(ALL_CODEC_IDS[17] == c),
                Self::Ass => assert(ALL_CODEC_IDS[18] == c),
                Self::WebVtt => assert(ALL_CODEC_IDS[19] == c),
            }
        }
        None
    }
}

/// All defined codec IDs.
pub const ALL_CODEC_IDS: [CodecId; 20] = [
    CodecId::NoCodec, CodecId::H264, CodecId::Hevc, CodecId::Vp8, CodecId::Vp9, CodecId::Av1, CodecId::Png, CodecId::PcmS16Le, CodecId::PcmS16Be, CodecId::PcmF32Le, CodecId::PcmF32Be, CodecId::PcmU8, CodecId::Flac, CodecId::Aac, CodecId::Opus, CodecId::Mp3, CodecId::Vorbis, CodecId::Srt, CodecId::Ass, CodecId::WebVtt,
];

/// Distinct codecs have distinct names, so `from_name` of a codec's name
/// gives back that codec.
pub proof fn law_codec_names_distinct(a: CodecId, b: CodecId)
    ensures a.spec_name() == b.spec_name() ==> a == b,
{
    reveal_strlit("none"); reveal_strlit("h264"); reveal_strlit("hevc"); reveal_strlit("vp8"); reveal_strlit("vp9"); reveal_strlit("av1"); reveal_strlit("png"); reveal_strlit("pcm_s16le"); reveal_strlit("pcm_s16be"); reveal_strlit("pcm_f32le"); reveal_strlit("pcm_f32be"); reveal_strlit("pcm_u8"); reveal_strlit("flac"); reveal_strlit("aac"); reveal_strlit("opus"); reveal_strlit("mp3"); reveal_strlit("vorbis"); reveal_strlit("srt"); reveal_strlit("ass"); reveal_strlit("webvtt");
    let x = a.spec_name();
    let y = b.spec_name();
    if x == y {
        assert(x.len() == y.len());
        assert(x[0] == y[0]);
        assert(x[1] == y[1]);
        assert(x[2] == y[2]);
        if x.len() > 3 { assert(x[3] == y[3]); }
        if x.len() > 4 { assert(x[4] == y[4]); }
        if x.len() > 5 { assert(x[5] == y[5]); }
        if x.len() > 6 { assert(x[6] == y[6]); }
        if x.len() > 7 { assert(x[7] == y[7]); }
        if x.len() > 8 { assert(x[8] == y[8]); }
    }
}

/// A decoder implementation.
pub trait Decoder: Send {
    /// The codec this decoder handles.
    fn codec_id(&self) -> CodecId;

    /// Initialize the decoder with the given parameters.
    fn open(&mut self, params: &CodecParameters) -> Result<()>;

    /// Send a compressed packet for decoding; `Error::Again` means output
    /// must be drained first.
    fn send_packet(&mut self, packet: &Packet) -> Result<()>;

    /// Receive a decoded frame; `Error::Again` means more input is needed,
    /// `Error::Eof` that all frames have been flushed.
    fn receive_frame(&mut self, frame: &mut Frame) -> Result<()>;

    /// Signal end of stream; then `receive_frame` drains until `Error::Eof`.
    fn flush(&mut self);
}

/// An encoder implementation.
pub trait Encoder: Send {
    /// The codec this encoder produces.
    fn codec_id(&self) -> CodecId;

    /// Initialize the encoder with the given parameters.
    fn open(&mut self, params: &CodecParameters) -> Result<()>;

    /// Send a raw frame for encoding; `None` signals end of stream.
    fn send_frame(&mut self, frame: Option<&Frame>) -> Result<()>;

    /// Receive an encoded packet; `Error::Again` means more input is needed,
    /// `Error::Eof` that all packets have been flushed.
    fn receive_packet(&mut self, packet: &mut Packet) -> Result<()>;
}

/// A freshly made decoder.
pub struct DecoderBox {
    pub decoder: Box<dyn Decoder>,
}

/// A freshly made encoder.
pub struct EncoderBox {
    pub encoder: Box<dyn Encoder>,
}

/// Makes decoders of one codec.
pub trait DecoderFactory {
    /// A new decoder.
    fn create(&self) -> DecoderBox;
}

/// Makes encoders of one codec.
pub trait EncoderFactory {
    /// A new encoder.
    fn create(&self) -> EncoderBox;
}

/// Codec descriptor for registration.
#[derive(Debug, Clone)]
pub struct CodecDescriptor {
    pub id: CodecId,
    pub name: &'static str,
    pub long_name: &'static str,
    pub media_type: MediaType,
    pub is_encoder: bool,
    pub is_decoder: bool,
}

/// `ids` with `id` appended unless it is already there.
pub open spec fn register_id(ids: Seq<CodecId>, id: CodecId) -> Seq<CodecId> {
    if ids.contains(id) { ids } else { ids.push(id) }
}

fn index_of_id(ids: &Vec<CodecId>, id: CodecId) -> (r: Option<usize>)
    ensures
        r is None ==> !ids@.contains(id),
        r matches Some(i) ==> i < ids@.len() && ids@[i as int] == id,
{
    let mut i: usize = 0;
    while i < ids.len()
        invariant i <= ids@.len(), forall|j: int| 0 <= j < i ==> ids@[j] != id,
        decreases ids.len() - i,
    {
        if ids[i] == id {
            return Some(i);
        }
        i += 1;
    }
    None
}

/// Append `x` to `v`, which then holds one entry more.
fn push_entry<T>(v: &mut Vec<T>, x: T)
    ensures final(v)@.len() == old(v)@.len() + 1,
{
    v.push(x);
}

/// A registry of codec factories, used to find the decoder or encoder for
/// a codec. The first factory registered for a codec is kept; factory `i`
/// belongs to the codec at position `i` of the id list.
pub struct CodecRegistry {
    decoder_ids: Vec<CodecId>,
    decoder_factories: Vec<Box<dyn DecoderFactory>>,
    encoder_ids: Vec<CodecId>,
    encoder_factories: Vec<Box<dyn EncoderFactory>>,
}

impl CodecRegistry {
    /// Codecs with a decoder, in order of registration.
    pub closed spec fn spec_decoder_ids(&self) -> Seq<CodecId> {
        self.decoder_ids@
    }

    /// Codecs with an encoder, in order of registration.
    pub closed spec fn spec_encoder_ids(&self) -> Seq<CodecId> {
        self.encoder_ids@
    }

    /// Each registered codec has its factory, and no codec is registered
    /// twice.
    #[verifier::type_invariant]
    spec fn factories_match(&self) -> bool {
        &&& self.decoder_factories@.len() == self.decoder_ids@.len()
        &&& self.encoder_factories@.len() == self.encoder_ids@.len()
        &&& self.decoder_ids@.no_duplicates()
        &&& self.encoder_ids@.no_duplicates()
    }

    /// Create an empty registry.
    pub fn new() -> (r: CodecRegistry)
        ensures r.spec_decoder_ids() == Seq::<CodecId>::empty(), r.spec_encoder_ids() == Seq::<CodecId>::empty(),
    {
        CodecRegistry {
            decoder_ids: Vec::new(), decoder_factories: Vec::new(),
            encoder_ids: Vec::new(), encoder_factories: Vec::new(),
        }
    }

    /// Register a decoder factory, unless one is registered for the codec.
    pub fn register_decoder(&mut self, id: CodecId, factory: Box<dyn DecoderFactory>)
        ensures
            final(self).spec_decoder_ids() == register_id(old(self).spec_decoder_ids(), id),
            final(self).spec_encoder_ids() == old(self).spec_encoder_ids(),
            old(self).spec_decoder_ids().contains(id) ==> *final(self) == *old(self),
            final(self).spec_decoder_ids().no_duplicates(),
    {
        proof { use_type_invariant(&*self); }
        if index_of_id(&self.decoder_ids, id).is_none() {
            let mut reg = CodecRegistry::new();
            core::mem::swap(self, &mut reg);
            proof { use_type_invariant(&reg); }
            let CodecRegistry { mut decoder_ids, mut decoder_factories, encoder_ids, encoder_factories } = reg;
            decoder_ids.push(id);
            push_entry(&mut decoder_factories, factory);
            *self = CodecRegistry { decoder_ids, decoder_factories, encoder_ids, encoder_factories };
        }
    }

    /// Register an encoder factory, unless one is registered for the codec.
    pub fn register_encoder(&mut self, id: CodecId, factory: Box<dyn EncoderFactory>)
        ensures
            final(self).spec_encoder_ids() == register_id(old(self).spec_encoder_ids(), id),
            final(self).spec_decoder_ids() == old(self).spec_decoder_ids(),
            old(self).spec_encoder_ids().contains(id) ==> *final(self) == *old(self),
            final(self).spec_encoder_ids().no_duplicates(),
    {
        proof { use_type_invariant(&*self); }
        if index_of_id(&self.encoder_ids, id).is_none() {
            let mut reg = CodecRegistry::new();
            core::mem::swap(self, &mut reg);
            proof { use_type_invariant(&reg); }
            let CodecRegistry { decoder_ids, decoder_factories, mut encoder_ids, mut encoder_factories } = reg;
            encoder_ids.push(id);
            push_entry(&mut encoder_factories, factory);
            *self = CodecRegistry { decoder_ids, decoder_factories, encoder_ids, encoder_factories };
        }
    }

    /// Create a decoder for the codec: one comes exactly when a decoder is
    /// registered for it.
    pub fn find_decoder(&self, id: CodecId) -> (r: Option<Box<dyn Decoder>>)
        ensures r is Some <==> self.spec_decoder_ids().contains(id),
    {
        proof { use_type_invariant(self); }
        match index_of_id(&self.decoder_ids, id) {
            Some(i) => Some(self.decoder_factories[i].create().decoder),
            None => None,
        }
    }

    /// Create an encoder for the codec: one comes exactly when an encoder
    /// is registered for it.
    pub fn find_encoder(&self, id: CodecId) -> (r: Option<Box<dyn Encoder>>)
        ensures r is Some <==> self.spec_encoder_ids().contains(id),
    {
        proof { use_type_invariant(self); }
        match index_of_id(&self.encoder_ids, id) {
            Some(i) => Some(self.encoder_factories[i].create().encoder),
            None => None,
        }
    }

    /// All codecs with a registered decoder, in order of registration.
    pub fn decoder_ids(&self) -> (r: Vec<CodecId>)
        ensures r@ == self.spec_decoder_ids(), r@.no_duplicates(),
    {
        proof { use_type_invariant(self); }
        self.decoder_ids.clone()
    }

    /// All codecs with a registered encoder, in order of registration.
    pub fn encoder_ids(&self) -> (r: Vec<CodecId>)
        ensures r@ == self.spec_encoder_ids(), r@.no_duplicates(),
    {
        proof { use_type_invariant(self); }
        self.encoder_ids.clone()
    }
}

/// Registering a codec twice keeps one entry for it.
pub proof fn law_register_idempotent(ids: Seq<CodecId>, id: CodecId)
    ensures register_id(register_id(ids, id), id) == register_id(ids, id),
        register_id(ids, id).contains(id),
{
    if !ids.contains(id) {
        assert(ids.push(id)[ids.len() as int] == id);
    }
}

} // verus!
