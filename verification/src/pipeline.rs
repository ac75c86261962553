use vstd::prelude::*;
use crate::util::error::{Error, Result, msg};
use crate::util::frame::{Frame, vec_index_mut};
use crate::codec::packet::Packet;
use crate::codec::codec::{CodecId, CodecRegistry};
use crate::codec::codecs::pcm::{register_all, pcm_codecs};
use crate::codec::codecs::stubs::stub_codecs;
use crate::codec::context::{CodecContext, State};
use crate::format::context::{InputContext, OutputContext};
use crate::format::stream::Stream;

verus! {

/// A demux → decode → encode → mux pipeline: the codecs it can use, and
/// the steps of a transcode.
pub struct Pipeline {
    registry: CodecRegistry,
}

/// A decoder and the encoder that re-encodes what it decodes.
pub struct CodecPair {
    pub decoder: CodecContext,
    pub encoder: CodecContext,
}

/// Result of a transcode operation.
#[derive(Debug, Clone, Copy)]
pub struct TranscodeResult {
    pub packets_read: u64,
    pub packets_written: u64,
}

/// The codec to encode stream `i` with: the one asked for, else the
/// stream's own.
pub open spec fn output_codec(asked: Seq<CodecId>, i: int, own: CodecId) -> CodecId {
    if 0 <= i < asked.len() { asked[i] } else { own }
}

impl Pipeline {
    /// Codecs with a decoder.
    pub closed spec fn spec_decoders(&self) -> Seq<CodecId> { self.registry.spec_decoder_ids() }
    /// Codecs with an encoder.
    pub closed spec fn spec_encoders(&self) -> Seq<CodecId> { self.registry.spec_encoder_ids() }

    /// Create a pipeline with the given codec registry.
    pub fn new(registry: CodecRegistry) -> (r: Self)
        ensures r.spec_decoders() == registry.spec_decoder_ids(), r.spec_encoders() == registry.spec_encoder_ids(),
    {
        Pipeline { registry }
    }

    /// Create a pipeline with all built-in codecs registered: the PCM codecs,
    /// then the parser-only stubs.
    pub fn with_defaults() -> (r: Self)
        ensures
            r.spec_decoders() == register_all(register_all(Seq::empty(), pcm_codecs()), stub_codecs()),
            r.spec_encoders() == register_all(Seq::empty(), pcm_codecs()),
    {
        let mut reg = CodecRegistry::new();
        crate::codec::codecs::pcm::register(&mut reg);
        crate::codec::codecs::stubs::register(&mut reg);
        Self::new(reg)
    }

    /// The codec registry.
    pub fn registry(&self) -> (r: &CodecRegistry)
        ensures r.spec_decoder_ids() == self.spec_decoders(), r.spec_encoder_ids() == self.spec_encoders(),
    {
        &self.registry
    }

    /// Opens a decoder and an encoder for each input stream and adds the
    /// output streams: stream `i` is encoded with `output_codecs[i]`, or
    /// its own codec when none is given, keeping its parameters and time
    /// base. The first failure is returned.
    pub fn open_codecs(&self, input: &InputContext, output: &mut OutputContext, output_codecs: &[CodecId])
        -> (r: Result<Vec<CodecPair>>)
        ensures
            r matches Ok(pairs) ==> pairs@.len() == input.spec_streams().len()
                && final(output).spec_stream_count() == old(output).spec_stream_count() + input.spec_streams().len()
                && forall|i: int| 0 <= i < pairs@.len() ==> (#[trigger] pairs@[i]).decoder.spec_is_decoder()
                    && pairs@[i].decoder.spec_state() == State::Open
                    && pairs@[i].encoder.spec_is_encoder() && pairs@[i].encoder.spec_state() == State::Open
                    && pairs@[i].encoder.spec_params().codec_id == output_codec(output_codecs@, i,
                        input.spec_streams()[i].params.codec_id),
            r matches Ok(pairs) ==> forall|i: int| 0 <= i < pairs@.len() ==>
                self.spec_decoders().contains(#[trigger] input.spec_streams()[i].params.codec_id)
                && self.spec_encoders().contains(output_codec(output_codecs@, i, input.spec_streams()[i].params.codec_id)),
            input.spec_streams().len() == 0 ==> (r matches Ok(pairs) && pairs@.len() == 0),
            input.spec_streams().len() > 0 && !self.spec_decoders().contains(input.spec_streams()[0].params.codec_id)
                ==> r matches Err(Error::NotFound(_)),
            final(output).spec_header_written() == old(output).spec_header_written(),
            final(output).spec_trailer_written() == old(output).spec_trailer_written(),
    {
        let streams = input.streams_ref();
        let mut pairs: Vec<CodecPair> = Vec::new();
        let mut i: usize = 0;
        while i < streams.len()
            invariant
                i <= input.spec_streams().len(), pairs@.len() == i, streams@ == input.spec_streams(),
                output.spec_stream_count() == old(output).spec_stream_count() + i,
                output.spec_header_written() == old(output).spec_header_written(),
                output.spec_trailer_written() == old(output).spec_trailer_written(),
                forall|k: int| 0 <= k < i ==> (#[trigger] pairs@[k]).decoder.spec_is_decoder()
                    && pairs@[k].decoder.spec_state() == State::Open
                    && pairs@[k].encoder.spec_is_encoder() && pairs@[k].encoder.spec_state() == State::Open
                    && pairs@[k].encoder.spec_params().codec_id == output_codec(output_codecs@, k,
                        input.spec_streams()[k].params.codec_id),
                forall|k: int| 0 <= k < i ==> self.spec_decoders().contains(#[trigger] input.spec_streams()[k].params.codec_id)
                    && self.spec_encoders().contains(output_codec(output_codecs@, k, input.spec_streams()[k].params.codec_id)),
            decreases streams.len() - i,
        {
            let stream = &streams[i];
            let out_codec = if i < output_codecs.len() { output_codecs[i] } else { stream.params.codec_id };
            let mut decoder = CodecContext::new_decoder(&self.registry, stream.params.codec_id)?;
            decoder.open(&stream.params)?;
            let mut enc_params = stream.params.duplicate();
            enc_params.codec_id = out_codec;
            let mut encoder = CodecContext::new_encoder(&self.registry, out_codec)?;
            encoder.open(&enc_params)?;
            let mut out_stream = Stream::new(#[verifier::truncate] (i as u32), enc_params);
            out_stream.time_base = stream.time_base;
            output.add_stream(out_stream);
            let ghost before = pairs@;
            pairs.push(CodecPair { decoder, encoder });
            proof {
                assert forall|k: int| 0 <= k < i + 1 implies (#[trigger] pairs@[k]).decoder.spec_is_decoder()
                    && pairs@[k].decoder.spec_state() == State::Open
                    && pairs@[k].encoder.spec_is_encoder() && pairs@[k].encoder.spec_state() == State::Open
                    && pairs@[k].encoder.spec_params().codec_id == output_codec(output_codecs@, k,
                        input.spec_streams()[k].params.codec_id) by {
                    if k < i { assert(pairs@[k] == before[k]); }
                }
            }
            i += 1;
        }
        Ok(pairs)
    }

    /// Begin a transcode: read the input's header, open a decoder and an
    /// encoder for each input stream (see [`Pipeline::open_codecs`]) and
    /// write the output's header. The first failure is returned.
    pub fn start(&self, input: &mut InputContext, output: &mut OutputContext, output_codecs: &[CodecId])
        -> (r: Result<Transcode>)
        ensures
            old(input).spec_opened() ==> r matches Err(Error::InvalidState(_)),
            r matches Ok(t) ==> final(input).spec_opened()
                && t.spec_pairs().len() == final(input).spec_streams().len()
                && t.spec_read() == 0 && t.spec_written() == 0 && t.spec_error() is None
                && final(output).spec_header_written() && !old(output).spec_header_written()
                && final(output).spec_trailer_written() == old(output).spec_trailer_written()
                && final(output).spec_stream_count() == old(output).spec_stream_count() + final(input).spec_streams().len(),
    {
        input.open()?;
        let pairs = self.open_codecs(input, output, output_codecs)?;
        output.write_header()?;
        Ok(Transcode::new(pairs))
    }
}

/// Where a transcode stands: what it does next.
#[derive(Debug, Clone, Copy, PartialEq, Eq, Structural)]
pub enum Step {
    /// Read the next input packet.
    ReadPacket,
    /// Take a decoded frame from decoder `i`.
    ReceiveFrame(usize),
    /// Take an encoded packet from encoder `i` and write it.
    ReceivePacket(usize),
    /// Signal the end of input to decoder `i`.
    FlushDecoder(usize),
    /// Take a remaining frame from flushed decoder `i`.
    DrainFrame(usize),
    /// Take a remaining packet from encoder `i` while draining its decoder.
    DrainPacket(usize),
    /// Signal the end of input to encoder `i`.
    FlushEncoder(usize),
    /// Take a remaining packet from flushed encoder `i`.
    FinalPacket(usize),
    /// Write the output trailer.
    WriteTrailer,
    /// The transcode is over.
    Finished,
    /// A step failed; its error is the transcode's.
    Failed,
}

/// How a step went.
#[derive(Debug, Clone, Copy, PartialEq, Eq, Structural)]
pub enum Outcome {
    /// It succeeded (a packet read: of input stream `0`).
    Done(u32),
    /// More input is needed first.
    Again,
    /// The end was reached.
    End,
    /// It failed with another error.
    Error,
}

/// A transcode under way: its decoder/encoder pairs, the packets read and
/// written so far, and the error that failed it, once one has.
pub struct Transcode {
    pairs: Vec<CodecPair>,
    packets_read: u64,
    packets_written: u64,
    error: Option<Error>,
}

/// How a take from a codec context in state `st` goes before the wrapped
/// codec is asked: `Some(Error)` when the context is not open (or not of
/// the right kind), `Some(End)` or `Some(Error)` once it has signalled its
/// end (the end is expected only when `end_expected`), `None` when the
/// wrapped codec answers.
pub open spec fn take_outcome(st: State, right_kind: bool, end_expected: bool) -> Option<Outcome> {
    if st == State::Uninitialized || (st != State::Eof && !right_kind) {
        Some(Outcome::Error)
    } else if st == State::Eof {
        Some(if end_expected { Outcome::End } else { Outcome::Error })
    } else {
        None
    }
}

/// Whether `s` takes an encoded packet and writes it.
pub open spec fn writes_packet(s: Step) -> bool {
    s is ReceivePacket || s is DrainPacket || s is FinalPacket
}

impl Transcode {
    /// The decoder/encoder pairs, one per input stream.
    pub closed spec fn spec_pairs(&self) -> Seq<CodecPair> { self.pairs@ }
    /// Packets read from the input.
    pub closed spec fn spec_read(&self) -> u64 { self.packets_read }
    /// Packets written to the output.
    pub closed spec fn spec_written(&self) -> u64 { self.packets_written }
    /// The error that failed the transcode.
    pub closed spec fn spec_error(&self) -> Option<Error> { self.error }

    /// A transcode with these pairs that has read and written nothing.
    pub fn new(pairs: Vec<CodecPair>) -> (r: Self)
        ensures r.spec_pairs() == pairs@, r.spec_read() == 0, r.spec_written() == 0, r.spec_error() is None,
    {
        Transcode { pairs, packets_read: 0, packets_written: 0, error: None }
    }

    /// The number of decoder/encoder pairs.
    pub fn pair_count(&self) -> (r: usize)
        ensures r == self.spec_pairs().len(),
    {
        self.pairs.len()
    }

    /// The counts of packets read and written.
    pub fn result(&self) -> (r: TranscodeResult)
        ensures r.packets_read == self.spec_read(), r.packets_written == self.spec_written(),
    {
        TranscodeResult { packets_read: self.packets_read, packets_written: self.packets_written }
    }

    /// The error that failed the transcode; an `InvalidState` error when
    /// none has.
    pub fn take_error(&mut self) -> (r: Error)
        ensures
            old(self).spec_error() matches Some(e) ==> r == e,
            old(self).spec_error() is None ==> r matches Error::InvalidState(_),
            final(self).spec_error() is None,
            final(self).spec_pairs() == old(self).spec_pairs(),
            final(self).spec_read() == old(self).spec_read(),
            final(self).spec_written() == old(self).spec_written(),
    {
        match self.error.take() {
            Some(e) => e,
            None => Error::InvalidState(msg("transcode has not failed")),
        }
    }

    /// Record `e` as the error of the transcode.
    fn fail(&mut self, e: Error) -> (o: Outcome)
        ensures
            o == Outcome::Error, final(self).spec_error() == Some(e),
            final(self).spec_pairs() == old(self).spec_pairs(),
            final(self).spec_read() == old(self).spec_read(),
            final(self).spec_written() == old(self).spec_written(),
    {
        self.error = Some(e);
        Outcome::Error
    }

    /// Read a packet and send it to its stream's decoder; the end of input
    /// is `End`, a packet of a stream without a pair is passed over.
    fn read_step(&mut self, input: &mut InputContext) -> (o: Outcome)
        ensures
            final(self).spec_pairs().len() == old(self).spec_pairs().len(),
            o is Done ==> final(self).spec_read() == old(self).spec_read().wrapping_add(1),
            o is End ==> final(self).spec_read() == old(self).spec_read() && final(self).spec_pairs() == old(self).spec_pairs(),
            o is Error ==> final(self).spec_error() is Some,
            !(o is Error) ==> final(self).spec_error() == old(self).spec_error(),
            !(o is Again),
            final(self).spec_written() == old(self).spec_written(),
            o is Done && (o->0 as int) < old(self).spec_pairs().len() ==> forall|j: int|
                0 <= j < old(self).spec_pairs().len() && j != o->0 as int ==> final(self).spec_pairs()[j] == old(self).spec_pairs()[j],
            o is Done && (o->0 as int) >= old(self).spec_pairs().len() ==> final(self).spec_pairs() == old(self).spec_pairs(),
            !old(input).spec_opened() ==> o is Error && final(self).spec_read() == old(self).spec_read(),
    {
        match input.read_packet() {
            Ok(pkt) => {
                self.packets_read = self.packets_read.wrapping_add(1);
                let k = pkt.stream_index;
                if (k as usize) < self.pairs.len() {
                    let pair = vec_index_mut(&mut self.pairs, k as usize);
                    let sent = pair.decoder.send_packet(&pkt);
                    match sent {
                        Ok(()) => Outcome::Done(k),
                        Err(e) => self.fail(e),
                    }
                } else {
                    Outcome::Done(k)
                }
            }
            Err(Error::Eof) => Outcome::End,
            Err(e) => self.fail(e),
        }
    }

    /// Take a frame from decoder `i` and send it to encoder `i`; no frame
    /// yet is `Again`, and the decoder's end is `End` when `draining`.
    fn decode_step(&mut self, i: usize, draining: bool) -> (o: Outcome)
        requires i < old(self).spec_pairs().len(),
        ensures
            final(self).spec_pairs().len() == old(self).spec_pairs().len(),
            forall|j: int| 0 <= j < old(self).spec_pairs().len() && j != i ==> final(self).spec_pairs()[j] == old(self).spec_pairs()[j],
            o is Error ==> final(self).spec_error() is Some,
            !(o is Error) ==> final(self).spec_error() == old(self).spec_error(),
            o is Done ==> o == Outcome::Done(0),
            o is End ==> draining,
            take_outcome(old(self).spec_pairs()[i as int].decoder.spec_state(),
                old(self).spec_pairs()[i as int].decoder.spec_is_decoder(), draining) matches Some(t) ==> o == t,
            final(self).spec_read() == old(self).spec_read(),
            final(self).spec_written() == old(self).spec_written(),
    {
        let mut frame = match Frame::new_audio(1, 1, 0) {
            Ok(f) => f,
            Err(e) => { return self.fail(e); }
        };
        let pair = vec_index_mut(&mut self.pairs, i);
        let got = pair.decoder.receive_frame(&mut frame);
        match got {
            Ok(()) => {
                let sent = pair.encoder.send_frame(Some(&frame));
                match sent {
                    Ok(()) => Outcome::Done(0),
                    Err(e) => self.fail(e),
                }
            }
            Err(Error::Again) => Outcome::Again,
            Err(Error::Eof) => {
                if draining { Outcome::End } else { self.fail(Error::Eof) }
            }
            Err(e) => self.fail(e),
        }
    }

    /// Take a packet from encoder `i` and write it as stream `i`; no packet
    /// yet is `Again`, and the encoder's end is `End` when `flushed`.
    fn write_step(&mut self, i: usize, output: &mut OutputContext, flushed: bool) -> (o: Outcome)
        requires i < old(self).spec_pairs().len(),
        ensures
            final(self).spec_pairs().len() == old(self).spec_pairs().len(),
            forall|j: int| 0 <= j < old(self).spec_pairs().len() && j != i ==> final(self).spec_pairs()[j] == old(self).spec_pairs()[j],
            o is Error ==> final(self).spec_error() is Some,
            !(o is Error) ==> final(self).spec_error() == old(self).spec_error(),
            o is Done ==> o == Outcome::Done(0) && final(self).spec_written() == old(self).spec_written().wrapping_add(1),
            !(o is Done) ==> final(self).spec_written() == old(self).spec_written(),
            o is End ==> flushed,
            take_outcome(old(self).spec_pairs()[i as int].encoder.spec_state(),
                old(self).spec_pairs()[i as int].encoder.spec_is_encoder(), flushed) matches Some(t) ==> o == t,
            final(self).spec_read() == old(self).spec_read(),
            final(output).spec_header_written() == old(output).spec_header_written(),
            final(output).spec_trailer_written() == old(output).spec_trailer_written(),
            final(output).spec_stream_count() == old(output).spec_stream_count(),
    {
        let mut pkt = Packet::empty();
        let pair = vec_index_mut(&mut self.pairs, i);
        let got = pair.encoder.receive_packet(&mut pkt);
        match got {
            Ok(()) => {
                pkt.stream_index = #[verifier::truncate] (i as u32);
                match output.write_packet(&pkt) {
                    Ok(()) => {
                        self.packets_written = self.packets_written.wrapping_add(1);
                        Outcome::Done(0)
                    }
                    Err(e) => self.fail(e),
                }
            }
            Err(Error::Again) => Outcome::Again,
            Err(Error::Eof) => {
                if flushed { Outcome::End } else { self.fail(Error::Eof) }
            }
            Err(e) => self.fail(e),
        }
    }

    /// Perform `step` (see [`next_step`] for what follows it): read and
    /// decode a packet, pass a decoded frame to its encoder, write an
    /// encoded packet, flush a decoder or an encoder, or write the
    /// trailer. The error of a failed step is kept (see
    /// [`Transcode::take_error`]); a finished or failed transcode does
    /// nothing and answers `End`.
    pub fn perform(&mut self, step: Step, input: &mut InputContext, output: &mut OutputContext) -> (o: Outcome)
        requires within_pairs(step, old(self).spec_pairs().len()),
        ensures
            final(self).spec_pairs().len() == old(self).spec_pairs().len(),
            forall|j: int| 0 <= j < old(self).spec_pairs().len() && step_pair(step) != Some(j as usize)
                && !(step is ReadPacket) ==> final(self).spec_pairs()[j] == old(self).spec_pairs()[j],
            o is Error ==> final(self).spec_error() is Some,
            !(o is Error) ==> final(self).spec_error() == old(self).spec_error(),
            step is ReadPacket && o is Done ==> final(self).spec_read() == old(self).spec_read().wrapping_add(1),
            !(step is ReadPacket) || o is End ==> final(self).spec_read() == old(self).spec_read(),
            writes_packet(step) && o is Done ==> final(self).spec_written() == old(self).spec_written().wrapping_add(1),
            !writes_packet(step) || !(o is Done) ==> final(self).spec_written() == old(self).spec_written(),
            step is Finished || step is Failed ==> o == Outcome::End && *final(self) == *old(self)
                && *final(input) == *old(input) && *final(output) == *old(output),
            !(step is ReadPacket) ==> *final(input) == *old(input),
            !(step is WriteTrailer) ==> final(output).spec_trailer_written() == old(output).spec_trailer_written(),
            step is WriteTrailer && o is Done ==> final(output).spec_trailer_written(),
            step is WriteTrailer ==> (o is Done <==> final(output).spec_trailer_written()
                && !old(output).spec_trailer_written()),
            step is WriteTrailer && !old(output).spec_header_written() ==> o is Error,
            step is ReadPacket && !old(input).spec_opened() ==> o is Error,
            step matches Step::ReceiveFrame(i) ==> (take_outcome(old(self).spec_pairs()[i as int].decoder.spec_state(),
                old(self).spec_pairs()[i as int].decoder.spec_is_decoder(), false) matches Some(t) ==> o == t),
            step matches Step::DrainFrame(i) ==> (take_outcome(old(self).spec_pairs()[i as int].decoder.spec_state(),
                old(self).spec_pairs()[i as int].decoder.spec_is_decoder(), true) matches Some(t) ==> o == t),
            step matches Step::ReceivePacket(i) ==> (take_outcome(old(self).spec_pairs()[i as int].encoder.spec_state(),
                old(self).spec_pairs()[i as int].encoder.spec_is_encoder(), false) matches Some(t) ==> o == t),
            step matches Step::DrainPacket(i) ==> (take_outcome(old(self).spec_pairs()[i as int].encoder.spec_state(),
                old(self).spec_pairs()[i as int].encoder.spec_is_encoder(), false) matches Some(t) ==> o == t),
            step matches Step::FinalPacket(i) ==> (take_outcome(old(self).spec_pairs()[i as int].encoder.spec_state(),
                old(self).spec_pairs()[i as int].encoder.spec_is_encoder(), true) matches Some(t) ==> o == t),
            step matches Step::FlushDecoder(i) ==> (o is Done <==> old(self).spec_pairs()[i as int].decoder.spec_state()
                != State::Uninitialized && old(self).spec_pairs()[i as int].decoder.spec_is_decoder()),
            step matches Step::FlushEncoder(i) ==> (old(self).spec_pairs()[i as int].encoder.spec_state() == State::Uninitialized
                || old(self).spec_pairs()[i as int].encoder.spec_state() == State::Eof
                || !old(self).spec_pairs()[i as int].encoder.spec_is_encoder() ==> o is Error),
    {
        match step {
            Step::ReadPacket => self.read_step(input),
            Step::ReceiveFrame(i) => self.decode_step(i, false),
            Step::DrainFrame(i) => self.decode_step(i, true),
            Step::ReceivePacket(i) => self.write_step(i, output, false),
            Step::DrainPacket(i) => self.write_step(i, output, false),
            Step::FinalPacket(i) => self.write_step(i, output, true),
            Step::FlushDecoder(i) => {
                let pair = vec_index_mut(&mut self.pairs, i);
                let r = pair.decoder.flush_decoder();
                match r {
                    Ok(()) => Outcome::Done(0),
                    Err(e) => self.fail(e),
                }
            }
            Step::FlushEncoder(i) => {
                let pair = vec_index_mut(&mut self.pairs, i);
                let r = pair.encoder.send_frame(None);
                match r {
                    Ok(()) => Outcome::Done(0),
                    Err(e) => self.fail(e),
                }
            }
            Step::WriteTrailer => {
                match output.write_trailer() {
                    Ok(()) => Outcome::Done(0),
                    Err(e) => self.fail(e),
                }
            }
            Step::Finished | Step::Failed => Outcome::End,
        }
    }
}

/// The step after `s` went as `o`, with `n` decoder/encoder pairs.
pub open spec fn step_after(s: Step, o: Outcome, n: nat) -> Step {
    match (s, o) {
        (Step::ReadPacket, Outcome::Done(k)) => if (k as nat) < n { Step::ReceiveFrame(k as usize) } else { Step::ReadPacket },
        (Step::ReadPacket, Outcome::End) => if n > 0 { Step::FlushDecoder(0) } else { Step::WriteTrailer },
        (Step::ReceiveFrame(i), Outcome::Done(_)) => Step::ReceivePacket(i),
        (Step::ReceiveFrame(_), Outcome::Again) => Step::ReadPacket,
        (Step::ReceivePacket(i), Outcome::Done(_)) => Step::ReceivePacket(i),
        (Step::ReceivePacket(i), Outcome::Again) => Step::ReceiveFrame(i),
        (Step::FlushDecoder(i), Outcome::Done(_)) => Step::DrainFrame(i),
        (Step::DrainFrame(i), Outcome::Done(_)) => Step::DrainPacket(i),
        (Step::DrainFrame(i), Outcome::Again) => Step::FlushEncoder(i),
        (Step::DrainFrame(i), Outcome::End) => Step::FlushEncoder(i),
        (Step::DrainPacket(i), Outcome::Done(_)) => Step::DrainPacket(i),
        (Step::DrainPacket(i), Outcome::Again) => Step::DrainFrame(i),
        (Step::FlushEncoder(i), Outcome::Done(_)) => Step::FinalPacket(i),
        (Step::FinalPacket(i), Outcome::Done(_)) => Step::FinalPacket(i),
        (Step::FinalPacket(i), Outcome::Again) => if i + 1 < n { Step::FlushDecoder((i + 1) as usize) } else { Step::WriteTrailer },
        (Step::FinalPacket(i), Outcome::End) => if i + 1 < n { Step::FlushDecoder((i + 1) as usize) } else { Step::WriteTrailer },
        (Step::WriteTrailer, Outcome::Done(_)) => Step::Finished,
        (Step::Finished, _) => Step::Finished,
        _ => Step::Failed,
    }
}

/// The step after `step` went as `outcome`, with `pairs` decoder/encoder
/// pairs: reading goes on until the input ends, each decoded frame is
/// encoded and each encoded packet written; then each decoder is flushed
/// and drained, then its encoder; then the trailer is written. Any other
/// outcome fails the transcode.
pub fn next_step(step: Step, outcome: Outcome, pairs: usize) -> (r: Step)
    ensures r == step_after(step, outcome, pairs as nat),
{
    match (step, outcome) {
        (Step::ReadPacket, Outcome::Done(k)) => if (k as usize) < pairs { Step::ReceiveFrame(k as usize) } else { Step::ReadPacket },
        (Step::ReadPacket, Outcome::End) => if pairs > 0 { Step::FlushDecoder(0) } else { Step::WriteTrailer },
        (Step::ReceiveFrame(i), Outcome::Done(_)) => Step::ReceivePacket(i),
        (Step::ReceiveFrame(_), Outcome::Again) => Step::ReadPacket,
        (Step::ReceivePacket(i), Outcome::Done(_)) => Step::ReceivePacket(i),
        (Step::ReceivePacket(i), Outcome::Again) => Step::ReceiveFrame(i),
        (Step::FlushDecoder(i), Outcome::Done(_)) => Step::DrainFrame(i),
        (Step::DrainFrame(i), Outcome::Done(_)) => Step::DrainPacket(i),
        (Step::DrainFrame(i), Outcome::Again) => Step::FlushEncoder(i),
        (Step::DrainFrame(i), Outcome::End) => Step::FlushEncoder(i),
        (Step::DrainPacket(i), Outcome::Done(_)) => Step::DrainPacket(i),
        (Step::DrainPacket(i), Outcome::Again) => Step::DrainFrame(i),
        (Step::FlushEncoder(i), Outcome::Done(_)) => Step::FinalPacket(i),
        (Step::FinalPacket(i), Outcome::Done(_)) => Step::FinalPacket(i),
        (Step::FinalPacket(i), Outcome::Again) => if i < usize::MAX && i + 1 < pairs { Step::FlushDecoder(i + 1) } else { Step::WriteTrailer },
        (Step::FinalPacket(i), Outcome::End) => if i < usize::MAX && i + 1 < pairs { Step::FlushDecoder(i + 1) } else { Step::WriteTrailer },
        (Step::WriteTrailer, Outcome::Done(_)) => Step::Finished,
        (Step::Finished, _) => Step::Finished,
        _ => Step::Failed,
    }
}

/// A transcode ends only by writing the trailer: the only step that leads
/// to `Finished` from an unfinished transcode is a trailer written.
pub proof fn law_finish_after_trailer(s: Step, o: Outcome, n: nat)
    requires s != Step::Finished, step_after(s, o, n) == Step::Finished,
    ensures s == Step::WriteTrailer && o is Done,
{
}

/// A failure is final: after `Failed`, every outcome leads to `Failed`.
pub proof fn law_failure_is_final(o: Outcome, n: nat)
    ensures step_after(Step::Failed, o, n) == Step::Failed,
{
}

/// The pair a step works on, if it works on one.
pub open spec fn step_pair(s: Step) -> Option<usize> {
    match s {
        Step::ReceiveFrame(i) | Step::ReceivePacket(i) | Step::FlushDecoder(i) | Step::DrainFrame(i)
            | Step::DrainPacket(i) | Step::FlushEncoder(i) | Step::FinalPacket(i) => Some(i),
        _ => None,
    }
}

/// `s` names no pair at or beyond `n`.
pub open spec fn within_pairs(s: Step, n: nat) -> bool {
    step_pair(s) matches Some(i) ==> (i as nat) < n
}

/// The steps stay with the pairs: from a step about pair `i < n`, or from
/// one about no pair, every next step names a pair below `n`.
pub proof fn law_steps_within_pairs(s: Step, o: Outcome, n: nat)
    requires within_pairs(s, n),
    ensures within_pairs(step_after(s, o, n), n),
{
}

} // verus!
