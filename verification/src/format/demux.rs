use vstd::prelude::*;
use crate::util::error::Result;
use crate::codec::packet::Packet;
use crate::format::io::IOContext;
use crate::format::stream::Stream;
use crate::format::metadata::Metadata;

verus! {

/// Trait for a demuxer (container reader) implementation.
pub trait Demuxer: Send {
    /// Format name (e.g. "wav", "matroska", "mp4").
    fn name(&self) -> &'static str;

    /// Read the container header and populate streams.
    fn read_header(&mut self, io: &mut IOContext) -> Result<DemuxHeader>;

    /// Read the next packet from the container; `Error::Eof` when no more
    /// packets are available.
    fn read_packet(&mut self, io: &mut IOContext) -> Result<Packet>;
}

/// Information extracted from the container header.
#[derive(Debug)]
pub struct DemuxHeader {
    /// Streams found in the container.
    pub streams: Vec<Stream>,
    /// Container-level metadata.
    pub metadata: Metadata,
}

} // verus!
