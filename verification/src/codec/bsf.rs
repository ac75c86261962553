use vstd::prelude::*;
use crate::util::error::{Error, Result};
use crate::util::frame::vec_index_mut;
use crate::codec::codec_par::CodecParameters;
use crate::codec::packet::Packet;

verus! {

/// Trait for a bitstream filter.
///
/// Bitstream filters transform encoded packets without full decoding
/// (e.g. converting H.264 from Annex B to AVCC format).
pub trait BitstreamFilter: Send {
    /// Name of this filter.
    fn name(&self) -> &'static str;

    /// Initialize with codec parameters.
    fn init(&mut self, params: &CodecParameters) -> Result<()>;

    /// Send a packet for filtering.
    fn send_packet(&mut self, packet: &Packet) -> Result<()>;

    /// Receive a filtered packet; `Error::Again` if more input is needed.
    fn receive_packet(&mut self, packet: &mut Packet) -> Result<()>;

    /// Flush remaining packets.
    fn flush(&mut self);
}

/// A chain of bitstream filters applied in sequence. Beside the filters it
/// keeps their names, one per filter, in the same order.
pub struct BsfChain {
    filters: Vec<FilterSlot>,
    names: Vec<&'static str>,
}

/// One filter of a chain.
struct FilterSlot {
    filter: Box<dyn BitstreamFilter>,
}

impl BsfChain {
    /// Number of filters in the chain.
    pub closed spec fn spec_len(&self) -> nat {
        self.names@.len()
    }

    /// Create an empty chain (passthrough).
    pub fn new() -> (r: Self)
        ensures r.spec_len() == 0,
    {
        BsfChain { filters: Vec::new(), names: Vec::new() }
    }

    /// Append a filter to the chain.
    pub fn push(&mut self, filter: Box<dyn BitstreamFilter>)
        ensures final(self).spec_len() == old(self).spec_len() + 1,
    {
        self.names.push(filter.name());
        self.filters.push(FilterSlot { filter });
    }

    /// Number of filters in the chain.
    pub fn len(&self) -> (r: usize)
        ensures r == self.spec_len(),
    {
        self.names.len()
    }

    /// Returns true if no filters are registered.
    pub fn is_empty(&self) -> (r: bool)
        ensures r == (self.spec_len() == 0),
    {
        self.names.len() == 0
    }

    /// Send a packet to each filter in turn, stopping at the first error,
    /// which is returned. For an empty chain this does nothing.
    pub fn send_packet(&mut self, packet: &Packet) -> (r: Result<()>)
        ensures
            final(self).spec_len() == old(self).spec_len(),
            old(self).spec_len() == 0 ==> r is Ok,
    {
        let n = self.names.len();
        let mut i: usize = 0;
        while i < n
            invariant i <= n, n == self.names@.len(), self.names@ == old(self).names@,
            decreases n - i,
        {
            if i < self.filters.len() {
                let slot = vec_index_mut(&mut self.filters, i);
                match slot.filter.send_packet(packet) {
                    Ok(()) => {}
                    Err(e) => { return Err(e); }
                }
            }
            i += 1;
        }
        Ok(())
    }
}

impl Default for BsfChain {
    fn default() -> (r: Self)
        ensures r.spec_len() == 0,
    {
        Self::new()
    }
}

/// A null bitstream filter (passthrough): each packet sent is handed back
/// unchanged.
pub struct NullBsf {
    pending: Option<Packet>,
}

impl NullBsf {
    /// The packet waiting to be received.
    pub closed spec fn spec_pending(&self) -> Option<Packet> {
        self.pending
    }

    /// A filter holding no packet.
    pub fn new() -> (r: Self)
        ensures r.spec_pending() is None,
    {
        NullBsf { pending: None }
    }
}

impl Default for NullBsf {
    fn default() -> (r: Self)
        ensures r.spec_pending() is None,
    {
        Self::new()
    }
}

/// `a` is a copy of `b`: equal fields, buffers sharing the bytes.
pub open spec fn packet_copy(a: Packet, b: Packet) -> bool {
    a.data == b.data && a.pts == b.pts && a.dts == b.dts
        && a.duration == b.duration && a.time_base == b.time_base
        && a.stream_index == b.stream_index && a.flags == b.flags && a.pos == b.pos
        && a.side_data@ == b.side_data@
}

impl BitstreamFilter for NullBsf {
    fn name(&self) -> (r: &'static str)
        ensures r@ == "null"@,
    {
        "null"
    }

    fn init(&mut self, _params: &CodecParameters) -> (r: Result<()>)
        ensures r is Ok, *final(self) == *old(self),
    {
        Ok(())
    }

    /// Holds a copy of the packet; `Error::Again` while one is held.
    fn send_packet(&mut self, packet: &Packet) -> (r: Result<()>)
        ensures
            old(self).spec_pending() is Some <==> r matches Err(Error::Again),
            r is Err ==> *final(self) == *old(self),
            r is Ok ==> (final(self).spec_pending() matches Some(p) && packet_copy(p, *packet)),
    {
        if self.pending.is_some() {
            return Err(Error::Again);
        }
        self.pending = Some(packet.duplicate());
        Ok(())
    }

    /// Hands out the held packet; `Error::Again` when none is held.
    fn receive_packet(&mut self, packet: &mut Packet) -> (r: Result<()>)
        ensures
            old(self).spec_pending() is None <==> r matches Err(Error::Again),
            r is Err ==> *final(self) == *old(self) && *final(packet) == *old(packet),
            r is Ok ==> final(self).spec_pending() is None && Some(*final(packet)) == old(self).spec_pending(),
    {
        match self.pending.take() {
            Some(p) => {
                *packet = p;
                Ok(())
            }
            None => Err(Error::Again),
        }
    }

    /// Drops any held packet.
    fn flush(&mut self)
        ensures final(self).spec_pending() is None,
    {
        self.pending = None;
    }
}

} // verus!
