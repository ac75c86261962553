use vstd::prelude::*;
use crate::util::error::{Error, Result, msg};
use crate::util::frame::Frame;
use crate::codec::codec::{CodecId, CodecRegistry, Decoder, Encoder};
use crate::codec::codec_par::{CodecParameters, same_params, blank_params};
use crate::codec::error_resilience::ErrorPolicy;
use crate::codec::packet::Packet;

verus! {

/// The state of a codec context.
#[derive(Debug, Clone, Copy, PartialEq, Eq, Structural)]
pub enum State {
    /// Not yet opened.
    Uninitialized,
    /// Ready for send/receive.
    Open,
    /// Flush signaled, draining remaining output.
    Draining,
    /// All output consumed after flush.
    Eof,
}

/// The state after a receive call that returned `r` in state `s`: the end
/// of output is remembered, anything else leaves the state as it was.
pub open spec fn after_receive(s: State, r: Result<()>) -> State {
    if r == Err::<(), Error>(Error::Eof) { State::Eof } else { s }
}

/// High-level codec context that wraps a decoder or encoder and provides
/// the send/receive API.
pub struct CodecContext {
    decoder: Option<Box<dyn Decoder>>,
    encoder: Option<Box<dyn Encoder>>,
    state: State,
    /// Error handling policy.
    pub error_policy: ErrorPolicy,
    /// Parameters this context was opened with.
    params: CodecParameters,
}

fn not_found(kind: &str, id: CodecId) -> (r: Error)
    ensures r matches Error::NotFound(_),
{
    let mut m = String::from_str(kind);
    m.append(id.name());
    Error::NotFound(m)
}

impl CodecContext {
    /// The context's state.
    pub closed spec fn spec_state(&self) -> State { self.state }
    /// Whether the context wraps a decoder.
    pub closed spec fn spec_is_decoder(&self) -> bool { self.decoder is Some }
    /// Whether the context wraps an encoder.
    pub closed spec fn spec_is_encoder(&self) -> bool { self.decoder is None && self.encoder is Some }
    /// The parameters the context was opened with.
    pub closed spec fn spec_params(&self) -> CodecParameters { self.params }
    /// The error handling policy.
    pub closed spec fn spec_policy(&self) -> ErrorPolicy { self.error_policy }

    /// Create a new decoder context from the registry.
    pub fn new_decoder(registry: &CodecRegistry, codec_id: CodecId) -> (r: Result<Self>)
        ensures
            !registry.spec_decoder_ids().contains(codec_id) ==> r matches Err(Error::NotFound(_)),
            registry.spec_decoder_ids().contains(codec_id) ==> r is Ok,
            r is Err ==> r matches Err(Error::NotFound(_)),
            r matches Ok(c) ==> registry.spec_decoder_ids().contains(codec_id) && c.spec_is_decoder()
                && c.spec_state() == State::Uninitialized && c.spec_policy() == ErrorPolicy::Fail
                && blank_params(c.spec_params()),
    {
        match registry.find_decoder(codec_id) {
            Some(decoder) => Ok(CodecContext {
                decoder: Some(decoder), encoder: None, state: State::Uninitialized,
                error_policy: ErrorPolicy::Fail, params: CodecParameters::new(),
            }),
            None => Err(not_found("no decoder for ", codec_id)),
        }
    }

    /// Create a new encoder context from the registry.
    pub fn new_encoder(registry: &CodecRegistry, codec_id: CodecId) -> (r: Result<Self>)
        ensures
            !registry.spec_encoder_ids().contains(codec_id) ==> r matches Err(Error::NotFound(_)),
            registry.spec_encoder_ids().contains(codec_id) ==> r is Ok,
            r is Err ==> r matches Err(Error::NotFound(_)),
            r matches Ok(c) ==> registry.spec_encoder_ids().contains(codec_id) && c.spec_is_encoder()
                && c.spec_state() == State::Uninitialized && c.spec_policy() == ErrorPolicy::Fail
                && blank_params(c.spec_params()),
    {
        match registry.find_encoder(codec_id) {
            Some(encoder) => Ok(CodecContext {
                decoder: None, encoder: Some(encoder), state: State::Uninitialized,
                error_policy: ErrorPolicy::Fail, params: CodecParameters::new(),
            }),
            None => Err(not_found("no encoder for ", codec_id)),
        }
    }

    /// Open the context with the given parameters: the wrapped codec is
    /// opened with them, and on success the context keeps a copy.
    pub fn open(&mut self, params: &CodecParameters) -> (r: Result<()>)
        ensures
            old(self).spec_state() != State::Uninitialized ==> r matches Err(Error::InvalidState(_)),
            !old(self).spec_is_decoder() && !old(self).spec_is_encoder() ==> r matches Err(Error::InvalidState(_)),
            r is Err ==> final(self).spec_state() == old(self).spec_state()
                && final(self).spec_params() == old(self).spec_params(),
            r is Ok ==> old(self).spec_state() == State::Uninitialized && final(self).spec_state() == State::Open
                && same_params(final(self).spec_params(), *params),
            final(self).spec_is_decoder() == old(self).spec_is_decoder(),
            final(self).spec_is_encoder() == old(self).spec_is_encoder(),
            final(self).spec_policy() == old(self).spec_policy(),
    {
        if self.state != State::Uninitialized {
            return Err(Error::InvalidState(msg("codec already opened")));
        }
        match &mut self.decoder {
            Some(dec) => {
                match dec.open(params) {
                    Ok(()) => {}
                    Err(e) => { return Err(e); }
                }
            }
            None => {
                match &mut self.encoder {
                    Some(enc) => {
                        match enc.open(params) {
                            Ok(()) => {}
                            Err(e) => { return Err(e); }
                        }
                    }
                    None => { return Err(Error::InvalidState(msg("no decoder or encoder set"))); }
                }
            }
        }
        self.params = params.duplicate();
        self.state = State::Open;
        Ok(())
    }

    /// Returns true if the context is open and ready for send/receive.
    pub fn is_open(&self) -> (r: bool)
        ensures r == (self.spec_state() == State::Open || self.spec_state() == State::Draining),
    {
        self.state == State::Open || self.state == State::Draining
    }

    /// The parameters this context was opened with.
    pub fn parameters(&self) -> (r: &CodecParameters)
        ensures *r == self.spec_params(),
    {
        &self.params
    }

    // ── Decoder API ──

    /// Send a packet to the decoder; what the decoder answers is returned.
    pub fn send_packet(&mut self, packet: &Packet) -> (r: Result<()>)
        ensures
            old(self).spec_state() == State::Uninitialized ==> r matches Err(Error::InvalidState(_)),
            old(self).spec_state() == State::Eof ==> r == Err::<(), Error>(Error::Eof),
            old(self).spec_state() != State::Uninitialized && old(self).spec_state() != State::Eof
                && !old(self).spec_is_decoder() ==> r matches Err(Error::InvalidState(_)),
            final(self).spec_state() == old(self).spec_state(),
            final(self).spec_params() == old(self).spec_params(),
            final(self).spec_is_decoder() == old(self).spec_is_decoder(),
            final(self).spec_is_encoder() == old(self).spec_is_encoder(),
            final(self).spec_policy() == old(self).spec_policy(),
    {
        match self.state {
            State::Uninitialized => { return Err(Error::InvalidState(msg("codec not opened"))); }
            State::Eof => { return Err(Error::Eof); }
            _ => {}
        }
        match &mut self.decoder {
            Some(dec) => dec.send_packet(packet),
            None => Err(Error::InvalidState(msg("not a decoder context"))),
        }
    }

    /// Receive a decoded frame from the decoder; once it reports the end of
    /// output, so does the context from then on.
    pub fn receive_frame(&mut self, frame: &mut Frame) -> (r: Result<()>)
        ensures
            old(self).spec_state() == State::Uninitialized ==> r matches Err(Error::InvalidState(_)),
            old(self).spec_state() == State::Eof ==> r == Err::<(), Error>(Error::Eof),
            old(self).spec_state() != State::Uninitialized && old(self).spec_state() != State::Eof
                && !old(self).spec_is_decoder() ==> r matches Err(Error::InvalidState(_)),
            final(self).spec_state() == after_receive(old(self).spec_state(), r),
            final(self).spec_params() == old(self).spec_params(),
            final(self).spec_is_decoder() == old(self).spec_is_decoder(),
            final(self).spec_is_encoder() == old(self).spec_is_encoder(),
            final(self).spec_policy() == old(self).spec_policy(),
    {
        match self.state {
            State::Uninitialized => { return Err(Error::InvalidState(msg("codec not opened"))); }
            State::Eof => { return Err(Error::Eof); }
            _ => {}
        }
        let r = match &mut self.decoder {
            Some(dec) => dec.receive_frame(frame),
            None => { return Err(Error::InvalidState(msg("not a decoder context"))); }
        };
        match r {
            Ok(()) => Ok(()),
            Err(Error::Eof) => {
                self.state = State::Eof;
                Err(Error::Eof)
            }
            Err(e) => Err(e),
        }
    }

    /// Signal end-of-stream to the decoder. After this, keep calling
    /// `receive_frame` until `Error::Eof`.
    pub fn flush_decoder(&mut self) -> (r: Result<()>)
        ensures
            old(self).spec_state() == State::Uninitialized ==> r matches Err(Error::InvalidState(_)),
            old(self).spec_state() != State::Uninitialized && !old(self).spec_is_decoder()
                ==> r matches Err(Error::InvalidState(_)),
            old(self).spec_state() != State::Uninitialized && old(self).spec_is_decoder() ==> r is Ok,
            r is Ok ==> final(self).spec_state() == State::Draining,
            r is Err ==> final(self).spec_state() == old(self).spec_state(),
            final(self).spec_params() == old(self).spec_params(),
            final(self).spec_is_decoder() == old(self).spec_is_decoder(),
            final(self).spec_is_encoder() == old(self).spec_is_encoder(),
            final(self).spec_policy() == old(self).spec_policy(),
    {
        if self.state == State::Uninitialized {
            return Err(Error::InvalidState(msg("codec not opened")));
        }
        match &mut self.decoder {
            Some(dec) => { dec.flush(); }
            None => { return Err(Error::InvalidState(msg("not a decoder context"))); }
        }
        self.state = State::Draining;
        Ok(())
    }

    // ── Encoder API ──

    /// Send a frame to the encoder (`None` signals end-of-stream and starts
    /// draining); what the encoder answers is returned.
    pub fn send_frame(&mut self, frame: Option<&Frame>) -> (r: Result<()>)
        ensures
            old(self).spec_state() == State::Uninitialized ==> r matches Err(Error::InvalidState(_)),
            old(self).spec_state() == State::Eof ==> r == Err::<(), Error>(Error::Eof),
            old(self).spec_state() != State::Uninitialized && old(self).spec_state() != State::Eof
                && !old(self).spec_is_encoder() ==> r matches Err(Error::InvalidState(_)),
            final(self).spec_state() == (if old(self).spec_state() != State::Uninitialized
                && old(self).spec_state() != State::Eof && old(self).spec_is_encoder() && frame is None
                { State::Draining } else { old(self).spec_state() }),
            final(self).spec_params() == old(self).spec_params(),
            final(self).spec_is_decoder() == old(self).spec_is_decoder(),
            final(self).spec_is_encoder() == old(self).spec_is_encoder(),
            final(self).spec_policy() == old(self).spec_policy(),
    {
        match self.state {
            State::Uninitialized => { return Err(Error::InvalidState(msg("codec not opened"))); }
            State::Eof => { return Err(Error::Eof); }
            _ => {}
        }
        if self.decoder.is_some() {
            return Err(Error::InvalidState(msg("not an encoder context")));
        }
        match &mut self.encoder {
            Some(enc) => {
                if frame.is_none() {
                    self.state = State::Draining;
                }
                enc.send_frame(frame)
            }
            None => Err(Error::InvalidState(msg("not an encoder context"))),
        }
    }

    /// Receive an encoded packet from the encoder; once it reports the end
    /// of output, so does the context from then on.
    pub fn receive_packet(&mut self, packet: &mut Packet) -> (r: Result<()>)
        ensures
            old(self).spec_state() == State::Uninitialized ==> r matches Err(Error::InvalidState(_)),
            old(self).spec_state() == State::Eof ==> r == Err::<(), Error>(Error::Eof),
            old(self).spec_state() != State::Uninitialized && old(self).spec_state() != State::Eof
                && !old(self).spec_is_encoder() ==> r matches Err(Error::InvalidState(_)),
            final(self).spec_state() == after_receive(old(self).spec_state(), r),
            final(self).spec_params() == old(self).spec_params(),
            final(self).spec_is_decoder() == old(self).spec_is_decoder(),
            final(self).spec_is_encoder() == old(self).spec_is_encoder(),
            final(self).spec_policy() == old(self).spec_policy(),
    {
        match self.state {
            State::Uninitialized => { return Err(Error::InvalidState(msg("codec not opened"))); }
            State::Eof => { return Err(Error::Eof); }
            _ => {}
        }
        if self.decoder.is_some() {
            return Err(Error::InvalidState(msg("not an encoder context")));
        }
        let r = match &mut self.encoder {
            Some(enc) => enc.receive_packet(packet),
            None => { return Err(Error::InvalidState(msg("not an encoder context"))); }
        };
        match r {
            Ok(()) => Ok(()),
            Err(Error::Eof) => {
                self.state = State::Eof;
                Err(Error::Eof)
            }
            Err(e) => Err(e),
        }
    }
}

/// Once a context has reported the end of output, every further receive
/// reports it again: the end state is never left by receiving.
pub proof fn law_eof_is_final(s: State, r: Result<()>)
    requires s == State::Eof,
    ensures after_receive(s, r) == State::Eof,
{
}

} // verus!
