use vstd::prelude::*;
use crate::util::error::Result;
use crate::codec::codec::CodecId;

verus! {

/// Trait for a stream parser.
///
/// Parsers split a raw byte stream into individual codec frames/packets.
/// They are used when reading raw streams (e.g. Annex B H.264) that don't
/// have clear packet boundaries from the container.
pub trait Parser: Send {
    /// The codec this parser handles.
    fn codec_id(&self) -> CodecId;

    /// Feed data into the parser. Returns how many bytes were consumed;
    /// complete packets are then available from `pull_packet`.
    fn parse(&mut self, data: &[u8]) -> Result<usize>;

    /// Pull a complete packet out of the parser, if one is ready.
    fn pull_packet(&mut self) -> Option<Vec<u8>>;

    /// Signal end-of-stream. After this, `pull_packet` may return
    /// remaining buffered data.
    fn flush(&mut self);

    /// Reset the parser state.
    fn reset(&mut self);
}

} // verus!
