use vstd::prelude::*;
use crate::util::error::{Error, Result};
use crate::util::frame::Frame;
use crate::codec::codec::{CodecId, CodecRegistry, Decoder, DecoderBox, DecoderFactory};
use crate::codec::codec_par::CodecParameters;
use crate::codec::packet::Packet;
use crate::codec::codecs::pcm::register_all;

verus! {

/// The error of a decoder that only has a parser: `Unsupported`, with the
/// codec's name and a note that decoding is not implemented.
pub open spec fn is_stub_error(e: Error, id: CodecId) -> bool {
    e matches Error::Unsupported(m) && m@ == id.spec_name() + " decoder not yet implemented (parser only)"@
}

/// Stub decoder that returns `Unsupported` for all operations, a
/// placeholder for codecs whose parser exists but whose decoder does not.
pub struct StubDecoder {
    pub codec_id: CodecId,
}

impl StubDecoder {
    fn new(codec_id: CodecId) -> (r: Self)
        ensures r.codec_id == codec_id,
    {
        StubDecoder { codec_id }
    }

    fn unsupported(&self) -> (r: Error)
        ensures is_stub_error(r, self.codec_id),
    {
        let mut m = String::from_str(self.codec_id.name());
        m.append(" decoder not yet implemented (parser only)");
        Error::Unsupported(m)
    }
}

impl Decoder for StubDecoder {
    fn codec_id(&self) -> (r: CodecId)
        ensures r == self.codec_id,
    {
        self.codec_id
    }

    fn open(&mut self, _params: &CodecParameters) -> (r: Result<()>)
        ensures r matches Err(e) && is_stub_error(e, old(self).codec_id),
    {
        Err(self.unsupported())
    }

    fn send_packet(&mut self, _packet: &Packet) -> (r: Result<()>)
        ensures r matches Err(e) && is_stub_error(e, old(self).codec_id),
    {
        Err(self.unsupported())
    }

    fn receive_frame(&mut self, _frame: &mut Frame) -> (r: Result<()>)
        ensures r matches Err(e) && is_stub_error(e, old(self).codec_id), *final(_frame) == *old(_frame),
    {
        Err(self.unsupported())
    }

    fn flush(&mut self) {}
}

/// Makes stub decoders of one codec.
struct StubDecoderFactory {
    codec_id: CodecId,
}

impl DecoderFactory for StubDecoderFactory {
    fn create(&self) -> DecoderBox {
        DecoderBox { decoder: Box::new(StubDecoder::new(self.codec_id)) }
    }
}

/// The codecs that have a parser but no decoder, in order of registration.
pub open spec fn stub_codecs() -> Seq<CodecId> {
    seq![CodecId::H264, CodecId::Hevc, CodecId::Vp8, CodecId::Vp9, CodecId::Av1,
        CodecId::Aac, CodecId::Opus, CodecId::Mp3, CodecId::Vorbis, CodecId::Flac]
}

fn register_stub(registry: &mut CodecRegistry, id: CodecId)
    ensures
        final(registry).spec_decoder_ids() == crate::codec::codec::register_id(old(registry).spec_decoder_ids(), id),
        final(registry).spec_encoder_ids() == old(registry).spec_encoder_ids(),
{
    registry.register_decoder(id, Box::new(StubDecoderFactory { codec_id: id }));
}

/// Register stub decoders for codecs with parsers but no decoding
/// implementation; a codec that already has a decoder keeps it.
pub fn register(registry: &mut CodecRegistry)
    ensures
        final(registry).spec_decoder_ids() == register_all(old(registry).spec_decoder_ids(), stub_codecs()),
        final(registry).spec_encoder_ids() == old(registry).spec_encoder_ids(),
{
    register_stub(registry, CodecId::H264);
    register_stub(registry, CodecId::Hevc);
    register_stub(registry, CodecId::Vp8);
    register_stub(registry, CodecId::Vp9);
    register_stub(registry, CodecId::Av1);
    register_stub(registry, CodecId::Aac);
    register_stub(registry, CodecId::Opus);
    register_stub(registry, CodecId::Mp3);
    register_stub(registry, CodecId::Vorbis);
    register_stub(registry, CodecId::Flac);
    proof {
        let c = stub_codecs();
        assert(c.skip(1) =~= seq![CodecId::Hevc, CodecId::Vp8, CodecId::Vp9, CodecId::Av1,
            CodecId::Aac, CodecId::Opus, CodecId::Mp3, CodecId::Vorbis, CodecId::Flac]);
        assert(c.skip(2) =~= seq![CodecId::Vp8, CodecId::Vp9, CodecId::Av1,
            CodecId::Aac, CodecId::Opus, CodecId::Mp3, CodecId::Vorbis, CodecId::Flac]);
        assert(c.skip(3) =~= seq![CodecId::Vp9, CodecId::Av1,
            CodecId::Aac, CodecId::Opus, CodecId::Mp3, CodecId::Vorbis, CodecId::Flac]);
        assert(c.skip(4) =~= seq![CodecId::Av1, CodecId::Aac, CodecId::Opus, CodecId::Mp3, CodecId::Vorbis, CodecId::Flac]);
        assert(c.skip(5) =~= seq![CodecId::Aac, CodecId::Opus, CodecId::Mp3, CodecId::Vorbis, CodecId::Flac]);
        assert(c.skip(6) =~= seq![CodecId::Opus, CodecId::Mp3, CodecId::Vorbis, CodecId::Flac]);
        assert(c.skip(7) =~= seq![CodecId::Mp3, CodecId::Vorbis, CodecId::Flac]);
        assert(c.skip(8) =~= seq![CodecId::Vorbis, CodecId::Flac]);
        assert(c.skip(9) =~= seq![CodecId::Flac]);
        assert(c.skip(10) =~= Seq::<CodecId>::empty());
        assert(c.drop_first() =~= c.skip(1));
        assert(c.skip(1).drop_first() =~= c.skip(2));
        assert(c.skip(2).drop_first() =~= c.skip(3));
        assert(c.skip(3).drop_first() =~= c.skip(4));
        assert(c.skip(4).drop_first() =~= c.skip(5));
        assert(c.skip(5).drop_first() =~= c.skip(6));
        assert(c.skip(6).drop_first() =~= c.skip(7));
        assert(c.skip(7).drop_first() =~= c.skip(8));
        assert(c.skip(8).drop_first() =~= c.skip(9));
        assert(c.skip(9).drop_first() =~= c.skip(10));
        reveal_with_fuel(register_all, 11);
    }
}

} // verus!
