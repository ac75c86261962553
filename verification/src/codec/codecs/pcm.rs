use vstd::prelude::*;
use crate::util::buffer::Buffer;
use crate::util::error::{Error, Result, msg};
use crate::util::frame::{Frame, MAX_PLANES};
use crate::util::frame::MediaType;
use crate::codec::codec::{
    CodecId, CodecRegistry, Decoder, Encoder, DecoderBox, EncoderBox, DecoderFactory, EncoderFactory,
    register_id,
};
use crate::codec::codec_par::CodecParameters;
use crate::codec::packet::Packet;

verus! {

/// Whether samples of the codec are stored most significant byte first.
pub open spec fn pcm_big_endian(id: CodecId) -> bool {
    id == CodecId::PcmS16Be || id == CodecId::PcmF32Be
}

/// Bytes per sample of a PCM codec (0 for any other codec).
pub open spec fn pcm_bytes_per_sample(id: CodecId) -> usize {
    match id {
        CodecId::PcmU8 => 1,
        CodecId::PcmS16Le | CodecId::PcmS16Be => 2,
        CodecId::PcmF32Le | CodecId::PcmF32Be => 4,
        _ => 0,
    }
}

/// `d` with the bytes of each whole `n`-byte chunk reversed; a shorter
/// tail is kept as it is.
pub open spec fn swap_chunks(d: Seq<u8>, n: nat) -> Seq<u8>
    decreases d.len(),
{
    if n == 0 || d.len() < n {
        d
    } else {
        d.take(n as int).reverse() + swap_chunks(d.skip(n as int), n)
    }
}

/// The bytes that cross between native and stored byte order.
pub open spec fn pcm_convert(d: Seq<u8>, bps: usize, big_endian: bool) -> Seq<u8> {
    if big_endian && bps > 1 { swap_chunks(d, bps as nat) } else { d }
}

/// Reversing the bytes of each whole chunk twice gives the bytes back.
pub proof fn lemma_swap_chunks_involutive(d: Seq<u8>, n: nat)
    ensures swap_chunks(swap_chunks(d, n), n) == d,
    decreases d.len(),
{
    if n > 0 && d.len() >= n {
        let a = d.take(n as int);
        let s = a.reverse() + swap_chunks(d.skip(n as int), n);
        lemma_swap_chunks_involutive(d.skip(n as int), n);
        assert(s.take(n as int) =~= a.reverse());
        assert(s.skip(n as int) =~= swap_chunks(d.skip(n as int), n));
        assert(a.reverse().reverse() =~= a);
        assert(a + d.skip(n as int) =~= d);
    }
}

/// What a PCM encoder stores, its decoder turns back into the samples it
/// was given, for every PCM codec: the byte-order conversion undoes itself.
pub proof fn law_pcm_roundtrip(samples: Seq<u8>, id: CodecId)
    ensures
        pcm_convert(pcm_convert(samples, pcm_bytes_per_sample(id), pcm_big_endian(id)),
            pcm_bytes_per_sample(id), pcm_big_endian(id)) == samples,
{
    lemma_swap_chunks_involutive(samples, pcm_bytes_per_sample(id) as nat);
}

/// A frame's samples held by a PCM encoder (what `send_frame` leaves and
/// `receive_packet` hands out as the packet's bytes) become, once a decoder
/// of the same codec is sent that packet, the samples the decoder holds
/// for its frame (what `send_packet` leaves and `receive_frame` hands out):
/// the samples the encoder was given.
pub proof fn law_pcm_encode_decode(enc: PcmEncoder, dec: PcmDecoder, plane: Seq<u8>)
    requires
        enc.spec_codec() == dec.spec_codec(),
        enc.spec_pending() == Some(pcm_convert(plane, pcm_bytes_per_sample(enc.spec_codec()), pcm_big_endian(enc.spec_codec()))),
    ensures
        pcm_convert(enc.spec_pending()->0, pcm_bytes_per_sample(dec.spec_codec()), pcm_big_endian(dec.spec_codec())) == plane,
{
    law_pcm_roundtrip(plane, enc.spec_codec());
}

fn is_big_endian(id: CodecId) -> (r: bool)
    ensures r == pcm_big_endian(id),
{
    match id {
        CodecId::PcmS16Be | CodecId::PcmF32Be => true,
        _ => false,
    }
}

fn bytes_per_sample(id: CodecId) -> (r: usize)
    ensures r == pcm_bytes_per_sample(id), r <= 4,
{
    match id {
        CodecId::PcmU8 => 1,
        CodecId::PcmS16Le | CodecId::PcmS16Be => 2,
        CodecId::PcmF32Le | CodecId::PcmF32Be => 4,
        _ => 0,
    }
}

/// Converts `data` between native and stored byte order.
fn convert(data: &[u8], bps: usize, big_endian: bool) -> (r: Vec<u8>)
    ensures r@ == pcm_convert(data@, bps, big_endian),
{
    let mut out: Vec<u8> = Vec::new();
    if !(big_endian && bps > 1) {
        let mut i: usize = 0;
        while i < data.len()
            invariant i <= data@.len(), out@ == data@.take(i as int),
            decreases data.len() - i,
        {
            out.push(data[i]);
            i += 1;
            assert(out@ =~= data@.take(i as int));
        }
        assert(data@.take(data@.len() as int) =~= data@);
        return out;
    }
    let n = bps;
    let mut pos: usize = 0;
    assert(data@.skip(0) =~= data@);
    while pos < data.len()
        invariant
            n > 1, pos <= data@.len(),
            out@ + swap_chunks(data@.skip(pos as int), n as nat) == swap_chunks(data@, n as nat),
        decreases data.len() - pos,
    {
        let ghost rest = data@.skip(pos as int);
        let ghost before = out@;
        if data.len() - pos < n {
            let mut i = pos;
            while i < data.len()
                invariant pos <= i <= data@.len(), out@ == before + data@.subrange(pos as int, i as int),
                decreases data.len() - i,
            {
                out.push(data[i]);
                i += 1;
                assert(out@ =~= before + data@.subrange(pos as int, i as int));
            }
            assert(rest =~= data@.subrange(pos as int, data@.len() as int));
            assert(data@.skip(data@.len() as int) =~= Seq::<u8>::empty());
            assert(out@ + Seq::<u8>::empty() =~= out@);
            pos = data.len();
        } else {
            let last = pos + (n - 1);
            let mut j: usize = 0;
            while j < n
                invariant
                    j <= n, pos + n <= data@.len(), last == pos + n - 1,
                    out@ == before + data@.subrange(pos as int, pos + n).reverse().take(j as int),
                decreases n - j,
            {
                out.push(data[last - j]);
                j += 1;
                assert(out@ =~= before + data@.subrange(pos as int, pos + n).reverse().take(j as int));
            }
            assert(rest.take(n as int) =~= data@.subrange(pos as int, pos + n));
            assert(rest.skip(n as int) =~= data@.skip(pos + n));
            assert(data@.subrange(pos as int, pos + n).reverse().take(n as int)
                =~= data@.subrange(pos as int, pos + n).reverse());
            pos = pos + n;
        }
    }
    assert(data@.skip(pos as int) =~= Seq::<u8>::empty());
    assert(out@ + Seq::<u8>::empty() =~= out@);
    out
}

// ────────────────────────────────────────────────────────────────────────────
// PCM Decoder
// ────────────────────────────────────────────────────────────────────────────

/// Decoder of uncompressed PCM audio: packets become frames holding the
/// same samples in native byte order.
pub struct PcmDecoder {
    codec_id: CodecId,
    channels: u16,
    sample_rate: u32,
    opened: bool,
    pending: Option<Vec<u8>>,
    flushed: bool,
}

impl PcmDecoder {
    /// The codec decoded.
    pub closed spec fn spec_codec(&self) -> CodecId { self.codec_id }
    /// Whether `open` has succeeded.
    pub closed spec fn spec_opened(&self) -> bool { self.opened }
    /// Channels set by `open`.
    pub closed spec fn spec_channels(&self) -> u16 { self.channels }
    /// Sample rate set by `open`.
    pub closed spec fn spec_sample_rate(&self) -> u32 { self.sample_rate }
    /// Decoded samples waiting to be received.
    pub closed spec fn spec_pending(&self) -> Option<Seq<u8>> {
        match self.pending { Some(v) => Some(v@), None => None }
    }
    /// Whether end of stream was signalled.
    pub closed spec fn spec_flushed(&self) -> bool { self.flushed }

    /// Consistency of the decoder's fields.
    pub closed spec fn wf(&self) -> bool {
        &&& self.opened ==> self.channels > 0 && self.sample_rate > 0
        &&& self.pending is Some ==> self.opened
    }

    /// A decoder of `codec_id`, not yet opened.
    pub fn new(codec_id: CodecId) -> (r: Self)
        ensures
            r.wf(), r.spec_codec() == codec_id, !r.spec_opened(), r.spec_pending() is None,
            !r.spec_flushed(), r.spec_channels() == 0, r.spec_sample_rate() == 0,
    {
        PcmDecoder {
            codec_id, channels: 0, sample_rate: 0, opened: false, pending: None, flushed: false,
        }
    }
}

impl Decoder for PcmDecoder {
    fn codec_id(&self) -> (r: CodecId)
        ensures r == self.spec_codec(),
    {
        self.codec_id
    }

    /// Accepts any parameters with channels and a sample rate.
    fn open(&mut self, params: &CodecParameters) -> (r: Result<()>)
        ensures
            params.channels == 0 ==> r matches Err(Error::InvalidArgument(_)),
            params.channels != 0 && params.sample_rate == 0 ==> r matches Err(Error::InvalidArgument(_)),
            r is Err ==> *final(self) == *old(self),
            r is Ok ==> params.channels != 0 && params.sample_rate != 0 && final(self).spec_opened()
                && final(self).spec_channels() == params.channels
                && final(self).spec_sample_rate() == params.sample_rate
                && final(self).spec_codec() == old(self).spec_codec()
                && final(self).spec_pending() == old(self).spec_pending()
                && final(self).spec_flushed() == old(self).spec_flushed(),
            old(self).wf() ==> final(self).wf(),
    {
        if params.channels == 0 {
            return Err(Error::InvalidArgument(msg("channels must be > 0")));
        }
        if params.sample_rate == 0 {
            return Err(Error::InvalidArgument(msg("sample_rate must be > 0")));
        }
        self.channels = params.channels;
        self.sample_rate = params.sample_rate;
        self.opened = true;
        Ok(())
    }

    /// Holds the packet's samples, in native byte order, for `receive_frame`.
    fn send_packet(&mut self, packet: &Packet) -> (r: Result<()>)
        ensures
            !old(self).spec_opened() ==> r matches Err(Error::InvalidState(_)),
            old(self).spec_opened() && old(self).spec_pending() is Some ==> r matches Err(Error::Again),
            r is Err ==> *final(self) == *old(self),
            r is Ok ==> old(self).spec_opened() && old(self).spec_pending() is None
                && final(self).spec_pending() == Some(pcm_convert(packet.data@,
                    pcm_bytes_per_sample(old(self).spec_codec()), pcm_big_endian(old(self).spec_codec())))
                && final(self).spec_opened() && final(self).spec_codec() == old(self).spec_codec()
                && final(self).spec_channels() == old(self).spec_channels()
                && final(self).spec_sample_rate() == old(self).spec_sample_rate()
                && final(self).spec_flushed() == old(self).spec_flushed(),
            old(self).wf() ==> final(self).wf(),
    {
        if !self.opened {
            return Err(Error::InvalidState(msg("decoder not opened")));
        }
        if self.pending.is_some() {
            return Err(Error::Again);
        }
        let converted = convert(packet.data.data(), bytes_per_sample(self.codec_id), is_big_endian(self.codec_id));
        self.pending = Some(converted);
        Ok(())
    }

    /// Hands out the held samples as an audio frame, one plane of
    /// interleaved samples.
    fn receive_frame(&mut self, frame: &mut Frame) -> (r: Result<()>)
        ensures
            old(self).spec_pending() is None && old(self).spec_flushed() ==> r matches Err(Error::Eof),
            old(self).spec_pending() is None && !old(self).spec_flushed() ==> r matches Err(Error::Again),
            old(self).spec_pending() is None ==> *final(self) == *old(self) && *final(frame) == *old(frame),
            old(self).spec_pending() is Some ==> final(self).spec_pending() is None
                && final(self).spec_opened() == old(self).spec_opened()
                && final(self).spec_codec() == old(self).spec_codec()
                && final(self).spec_channels() == old(self).spec_channels()
                && final(self).spec_sample_rate() == old(self).spec_sample_rate()
                && final(self).spec_flushed() == old(self).spec_flushed(),
            old(self).wf() ==> (old(self).spec_pending() matches Some(d) ==> ({
                let frame_bytes = pcm_bytes_per_sample(old(self).spec_codec()) * old(self).spec_channels();
                &&& frame_bytes == 0 ==> (r matches Err(Error::InvalidState(_)))
                &&& frame_bytes != 0 ==> r is Ok
                &&& r is Ok ==> (final(frame).wf() && final(frame).media_type == MediaType::Audio
                    && final(frame).sample_rate == old(self).spec_sample_rate()
                    && final(frame).channels == old(self).spec_channels()
                    && final(frame).nb_samples == (d.len() / frame_bytes as nat) as u32
                    && final(frame).spec_planes()[0] is Some && final(frame).spec_planes()[0]->0.view() == d
                    && (forall|i: int| 1 <= i < MAX_PLANES ==> #[trigger] final(frame).spec_planes()[i] is None)
                    && final(frame).pts is None && final(frame).spec_side_data().len() == 0)
            })),
            old(self).wf() ==> final(self).wf(),
    {
        match self.pending.take() {
            Some(data) => {
                let bps = bytes_per_sample(self.codec_id);
                let ch = self.channels as usize;
                assert(bps * ch <= 4 * 65535) by (nonlinear_arith) requires bps <= 4, ch <= 65535;
                let frame_bytes = bps * ch;
                proof {
                    if old(self).wf() {
                        assert(self.channels > 0 && self.sample_rate > 0);
                    }
                }
                if frame_bytes == 0 {
                    return Err(Error::InvalidState(msg("invalid codec configuration")));
                }
                let nb_samples = #[verifier::truncate] ((data.len() / frame_bytes) as u32);
                let mut f = match Frame::new_audio(self.sample_rate, self.channels, nb_samples) {
                    Ok(f) => f,
                    Err(e) => { return Err(e); }
                };
                match f.set_plane(0, Buffer::from_vec(data), 0) {
                    Ok(()) => {}
                    Err(e) => { return Err(e); }
                }
                *frame = f;
                Ok(())
            }
            None => {
                if self.flushed {
                    Err(Error::Eof)
                } else {
                    Err(Error::Again)
                }
            }
        }
    }

    fn flush(&mut self)
        ensures
            final(self).spec_flushed(),
            final(self).spec_opened() == old(self).spec_opened(),
            final(self).spec_pending() == old(self).spec_pending(),
            final(self).spec_codec() == old(self).spec_codec(),
            final(self).spec_channels() == old(self).spec_channels(),
            final(self).spec_sample_rate() == old(self).spec_sample_rate(),
            old(self).wf() ==> final(self).wf(),
    {
        self.flushed = true;
    }
}

// ────────────────────────────────────────────────────────────────────────────
// PCM Encoder
// ────────────────────────────────────────────────────────────────────────────

/// Encoder of uncompressed PCM audio: the interleaved samples of a frame's
/// first plane become a packet in the codec's byte order.
pub struct PcmEncoder {
    codec_id: CodecId,
    channels: u16,
    sample_rate: u32,
    opened: bool,
    pending: Option<Vec<u8>>,
    flushed: bool,
}

impl PcmEncoder {
    /// The codec produced.
    pub closed spec fn spec_codec(&self) -> CodecId { self.codec_id }
    /// Whether `open` has succeeded.
    pub closed spec fn spec_opened(&self) -> bool { self.opened }
    /// Channels set by `open`.
    pub closed spec fn spec_channels(&self) -> u16 { self.channels }
    /// Sample rate set by `open`.
    pub closed spec fn spec_sample_rate(&self) -> u32 { self.sample_rate }
    /// Encoded bytes waiting to be received.
    pub closed spec fn spec_pending(&self) -> Option<Seq<u8>> {
        match self.pending { Some(v) => Some(v@), None => None }
    }
    /// Whether end of stream was signalled.
    pub closed spec fn spec_flushed(&self) -> bool { self.flushed }

    /// An encoder of `codec_id`, not yet opened.
    pub fn new(codec_id: CodecId) -> (r: Self)
        ensures
            r.spec_codec() == codec_id, !r.spec_opened(), r.spec_pending() is None,
            !r.spec_flushed(), r.spec_channels() == 0, r.spec_sample_rate() == 0,
    {
        PcmEncoder { codec_id, channels: 0, sample_rate: 0, opened: false, pending: None, flushed: false }
    }
}

impl Encoder for PcmEncoder {
    fn codec_id(&self) -> (r: CodecId)
        ensures r == self.spec_codec(),
    {
        self.codec_id
    }

    /// Accepts any parameters with channels and a sample rate.
    fn open(&mut self, params: &CodecParameters) -> (r: Result<()>)
        ensures
            params.channels == 0 ==> r matches Err(Error::InvalidArgument(_)),
            params.channels != 0 && params.sample_rate == 0 ==> r matches Err(Error::InvalidArgument(_)),
            r is Err ==> *final(self) == *old(self),
            r is Ok ==> params.channels != 0 && params.sample_rate != 0 && final(self).spec_opened()
                && final(self).spec_channels() == params.channels
                && final(self).spec_sample_rate() == params.sample_rate
                && final(self).spec_codec() == old(self).spec_codec()
                && final(self).spec_pending() == old(self).spec_pending()
                && final(self).spec_flushed() == old(self).spec_flushed(),
    {
        if params.channels == 0 {
            return Err(Error::InvalidArgument(msg("channels must be > 0")));
        }
        if params.sample_rate == 0 {
            return Err(Error::InvalidArgument(msg("sample_rate must be > 0")));
        }
        self.channels = params.channels;
        self.sample_rate = params.sample_rate;
        self.opened = true;
        Ok(())
    }

    /// Holds the bytes of the frame's first plane, in the codec's byte
    /// order, for `receive_packet`; `None` signals end of stream.
    fn send_frame(&mut self, frame: Option<&Frame>) -> (r: Result<()>)
        ensures
            !old(self).spec_opened() ==> r matches Err(Error::InvalidState(_)),
            old(self).spec_opened() && old(self).spec_pending() is Some ==> r matches Err(Error::Again),
            old(self).spec_opened() && old(self).spec_pending() is None ==> match frame {
                None => r is Ok && final(self).spec_flushed() && final(self).spec_pending() is None,
                Some(f) => {
                    &&& (f.planes@.len() == 0 || f.planes@[0] is None) ==> (r matches Err(Error::InvalidArgument(_)))
                    &&& (f.planes@.len() > 0 && f.planes@[0] is Some) ==> r is Ok
                        && final(self).spec_pending() == Some(pcm_convert(f.planes@[0]->0.view(),
                            pcm_bytes_per_sample(old(self).spec_codec()), pcm_big_endian(old(self).spec_codec())))
                        && final(self).spec_flushed() == old(self).spec_flushed()
                },
            },
            r is Err ==> *final(self) == *old(self),
            final(self).spec_opened() == old(self).spec_opened(),
            final(self).spec_codec() == old(self).spec_codec(),
            final(self).spec_channels() == old(self).spec_channels(),
            final(self).spec_sample_rate() == old(self).spec_sample_rate(),
    {
        if !self.opened {
            return Err(Error::InvalidState(msg("encoder not opened")));
        }
        if self.pending.is_some() {
            return Err(Error::Again);
        }
        match frame {
            Some(f) => {
                if f.planes.len() == 0 {
                    return Err(Error::InvalidArgument(msg("frame has no plane 0")));
                }
                match &f.planes[0] {
                    Some(b) => {
                        let converted = convert(b.data(), bytes_per_sample(self.codec_id), is_big_endian(self.codec_id));
                        self.pending = Some(converted);
                        Ok(())
                    }
                    None => Err(Error::InvalidArgument(msg("frame has no plane 0"))),
                }
            }
            None => {
                self.flushed = true;
                Ok(())
            }
        }
    }

    /// Hands out the held bytes as a packet.
    fn receive_packet(&mut self, packet: &mut Packet) -> (r: Result<()>)
        ensures
            old(self).spec_pending() is None && old(self).spec_flushed() ==> r matches Err(Error::Eof),
            old(self).spec_pending() is None && !old(self).spec_flushed() ==> r matches Err(Error::Again),
            old(self).spec_pending() is None ==> *final(self) == *old(self) && *final(packet) == *old(packet),
            old(self).spec_pending() matches Some(d) ==> r is Ok && final(self).spec_pending() is None
                && final(packet).data@ == d && final(packet).pts is None && final(packet).dts is None
                && final(packet).duration is None && final(packet).stream_index == 0
                && final(packet).side_data@.len() == 0,
            final(self).spec_opened() == old(self).spec_opened(),
            final(self).spec_codec() == old(self).spec_codec(),
            final(self).spec_channels() == old(self).spec_channels(),
            final(self).spec_sample_rate() == old(self).spec_sample_rate(),
            final(self).spec_flushed() == old(self).spec_flushed(),
    {
        match self.pending.take() {
            Some(data) => {
                *packet = Packet::new(Buffer::from_vec(data));
                Ok(())
            }
            None => {
                if self.flushed {
                    Err(Error::Eof)
                } else {
                    Err(Error::Again)
                }
            }
        }
    }
}

/// Makes PCM decoders of one codec.
pub struct PcmDecoderFactory {
    pub codec_id: CodecId,
}

impl DecoderFactory for PcmDecoderFactory {
    fn create(&self) -> DecoderBox {
        DecoderBox { decoder: Box::new(PcmDecoder::new(self.codec_id)) }
    }
}

/// Makes PCM encoders of one codec.
pub struct PcmEncoderFactory {
    pub codec_id: CodecId,
}

impl EncoderFactory for PcmEncoderFactory {
    fn create(&self) -> EncoderBox {
        EncoderBox { encoder: Box::new(PcmEncoder::new(self.codec_id)) }
    }
}

/// The PCM codecs, in order of registration.
pub open spec fn pcm_codecs() -> Seq<CodecId> {
    seq![CodecId::PcmS16Le, CodecId::PcmS16Be, CodecId::PcmF32Le, CodecId::PcmF32Be, CodecId::PcmU8]
}

/// `ids` after registering each codec of `new_ids` in turn.
pub open spec fn register_all(ids: Seq<CodecId>, new_ids: Seq<CodecId>) -> Seq<CodecId>
    decreases new_ids.len(),
{
    if new_ids.len() == 0 {
        ids
    } else {
        register_all(register_id(ids, new_ids[0]), new_ids.drop_first())
    }
}

fn register_pcm(registry: &mut CodecRegistry, id: CodecId)
    ensures
        final(registry).spec_decoder_ids() == register_id(old(registry).spec_decoder_ids(), id),
        final(registry).spec_encoder_ids() == register_id(old(registry).spec_encoder_ids(), id),
{
    registry.register_decoder(id, Box::new(PcmDecoderFactory { codec_id: id }));
    registry.register_encoder(id, Box::new(PcmEncoderFactory { codec_id: id }));
}

/// Register all PCM codecs into the given registry.
pub fn register(registry: &mut CodecRegistry)
    ensures
        final(registry).spec_decoder_ids() == register_all(old(registry).spec_decoder_ids(), pcm_codecs()),
        final(registry).spec_encoder_ids() == register_all(old(registry).spec_encoder_ids(), pcm_codecs()),
{
    let ghost d0 = registry.spec_decoder_ids();
    let ghost e0 = registry.spec_encoder_ids();
    register_pcm(registry, CodecId::PcmS16Le);
    register_pcm(registry, CodecId::PcmS16Be);
    register_pcm(registry, CodecId::PcmF32Le);
    register_pcm(registry, CodecId::PcmF32Be);
    register_pcm(registry, CodecId::PcmU8);
    proof {
        let c = pcm_codecs();
        assert(c.drop_first().drop_first().drop_first().drop_first().drop_first() =~= Seq::<CodecId>::empty());
        assert(c.drop_first() =~= seq![CodecId::PcmS16Be, CodecId::PcmF32Le, CodecId::PcmF32Be, CodecId::PcmU8]);
        assert(c.drop_first().drop_first() =~= seq![CodecId::PcmF32Le, CodecId::PcmF32Be, CodecId::PcmU8]);
        assert(c.drop_first().drop_first().drop_first() =~= seq![CodecId::PcmF32Be, CodecId::PcmU8]);
        assert(c.drop_first().drop_first().drop_first().drop_first() =~= seq![CodecId::PcmU8]);
        reveal_with_fuel(register_all, 6);
    }
}

/// Registering a list of codecs leaves each of them, and each codec that
/// was registered before, registered.
pub proof fn law_register_covers(ids: Seq<CodecId>, new_ids: Seq<CodecId>, id: CodecId)
    requires new_ids.contains(id) || ids.contains(id),
    ensures register_all(ids, new_ids).contains(id),
    decreases new_ids.len(),
{
    if new_ids.len() > 0 {
        let next = register_id(ids, new_ids[0]);
        if new_ids[0] == id {
            assert(next.contains(id)) by {
                if !ids.contains(id) { assert(next[next.len() - 1] == id); }
            };
        } else if ids.contains(id) {
            let k = choose|k: int| 0 <= k < ids.len() && ids[k] == id;
            assert(next[k] == id);
        } else {
            let k = choose|k: int| 0 <= k < new_ids.len() && new_ids[k] == id;
            assert(new_ids.drop_first()[k - 1] == id);
        }
        law_register_covers(next, new_ids.drop_first(), id);
    }
}

} // verus!
