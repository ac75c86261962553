use vstd::prelude::*;
use crate::util::error::Result;
use crate::codec::packet::Packet;
use crate::format::io::IOContext;
use crate::format::stream::Stream;

verus! {

/// Trait for a muxer (container writer) implementation.
pub trait Muxer: Send {
    /// Format name.
    fn name(&self) -> &'static str;

    /// Write the container header.
    fn write_header(&mut self, io: &mut IOContext, streams: &[Stream]) -> Result<()>;

    /// Write a packet to the container.
    fn write_packet(&mut self, io: &mut IOContext, packet: &Packet) -> Result<()>;

    /// Write the container trailer (finalize).
    fn write_trailer(&mut self, io: &mut IOContext) -> Result<()>;
}

} // verus!
