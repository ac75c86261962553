use vstd::prelude::*;
use crate::util::error::{Error, Result, msg};
use crate::codec::packet::Packet;
use crate::format::demux::Demuxer;
use crate::format::io::IOContext;
use crate::format::metadata::Metadata;
use crate::format::mux::Muxer;
use crate::format::stream::Stream;

verus! {

/// High-level context for reading a container.
pub struct InputContext {
    io: IOContext,
    demuxer: Box<dyn Demuxer>,
    /// Streams discovered in the header.
    pub streams: Vec<Stream>,
    /// Container metadata.
    pub metadata: Metadata,
    opened: bool,
}

impl InputContext {
    /// Whether the header has been read.
    pub closed spec fn spec_opened(&self) -> bool { self.opened }
    /// The streams found.
    pub closed spec fn spec_streams(&self) -> Seq<Stream> { self.streams@ }

    /// Create an input context with the given I/O and demuxer.
    pub fn new(io: IOContext, demuxer: Box<dyn Demuxer>) -> (r: Self)
        ensures !r.spec_opened(), r.spec_streams().len() == 0,
    {
        InputContext { io, demuxer, streams: Vec::new(), metadata: Metadata::new(), opened: false }
    }

    /// Read the container header, populating streams and metadata; the
    /// demuxer's error is returned as it is.
    pub fn open(&mut self) -> (r: Result<()>)
        ensures
            old(self).spec_opened() ==> (r matches Err(Error::InvalidState(_))) && final(self).spec_opened()
                && final(self).spec_streams() == old(self).spec_streams(),
            !old(self).spec_opened() ==> (r is Ok <==> final(self).spec_opened()),
            r is Err ==> final(self).spec_streams() == old(self).spec_streams(),
    {
        if self.opened {
            return Err(Error::InvalidState(msg("already opened")));
        }
        let header = match self.demuxer.read_header(&mut self.io) {
            Ok(h) => h,
            Err(e) => { return Err(e); }
        };
        self.streams = header.streams;
        self.metadata = header.metadata;
        self.opened = true;
        Ok(())
    }

    /// Read the next packet from the container; the demuxer answers once the
    /// header is read.
    pub fn read_packet(&mut self) -> (r: Result<Packet>)
        ensures
            !old(self).spec_opened() ==> r matches Err(Error::InvalidState(_)),
            final(self).spec_opened() == old(self).spec_opened(),
            final(self).spec_streams() == old(self).spec_streams(),
    {
        if !self.opened {
            return Err(Error::InvalidState(msg("not opened")));
        }
        self.demuxer.read_packet(&mut self.io)
    }

    /// The streams found.
    pub(crate) fn streams_ref(&self) -> (r: &Vec<Stream>)
        ensures r@ == self.spec_streams(),
    {
        &self.streams
    }

    /// Number of streams.
    pub fn nb_streams(&self) -> (r: usize)
        ensures r == self.spec_streams().len(),
    {
        self.streams.len()
    }

    /// Get the demuxer format name.
    pub fn format_name(&self) -> &str {
        self.demuxer.name()
    }
}

/// High-level context for writing a container.
pub struct OutputContext {
    io: IOContext,
    muxer: Box<dyn Muxer>,
    /// Streams to be written.
    pub streams: Vec<Stream>,
    header_written: bool,
    trailer_written: bool,
}

impl OutputContext {
    /// Whether the header was written.
    pub closed spec fn spec_header_written(&self) -> bool { self.header_written }
    /// Whether the trailer was written.
    pub closed spec fn spec_trailer_written(&self) -> bool { self.trailer_written }
    /// The streams added.
    pub closed spec fn spec_stream_count(&self) -> nat { self.streams@.len() }
    /// The I/O context written to.
    pub closed spec fn spec_io(&self) -> IOContext { self.io }

    /// Create an output context with the given I/O and muxer.
    pub fn new(io: IOContext, muxer: Box<dyn Muxer>) -> (r: Self)
        ensures !r.spec_header_written(), !r.spec_trailer_written(), r.spec_stream_count() == 0, r.spec_io() == io,
    {
        OutputContext { io, muxer, streams: Vec::new(), header_written: false, trailer_written: false }
    }

    /// Add a stream to the output.
    pub fn add_stream(&mut self, stream: Stream)
        ensures
            final(self).spec_stream_count() == old(self).spec_stream_count() + 1,
            final(self).spec_io() == old(self).spec_io(),
            final(self).spec_header_written() == old(self).spec_header_written(),
            final(self).spec_trailer_written() == old(self).spec_trailer_written(),
    {
        self.streams.push(stream);
    }

    /// Write the container header; once, and only with streams.
    pub fn write_header(&mut self) -> (r: Result<()>)
        ensures
            old(self).spec_header_written() ==> r matches Err(Error::InvalidState(_)),
            !old(self).spec_header_written() && old(self).spec_stream_count() == 0
                ==> r matches Err(Error::InvalidArgument(_)),
            old(self).spec_header_written() || old(self).spec_stream_count() == 0 ==> *final(self) == *old(self),
            final(self).spec_header_written() == (old(self).spec_header_written() || r is Ok),
            final(self).spec_trailer_written() == old(self).spec_trailer_written(),
            final(self).spec_stream_count() == old(self).spec_stream_count(),
    {
        if self.header_written {
            return Err(Error::InvalidState(msg("header already written")));
        }
        if self.streams.len() == 0 {
            return Err(Error::InvalidArgument(msg("no streams added")));
        }
        match self.muxer.write_header(&mut self.io, self.streams.as_slice()) {
            Ok(()) => {}
            Err(e) => { return Err(e); }
        }
        self.header_written = true;
        Ok(())
    }

    /// Write a packet to the container, between header and trailer; before
    /// the header or after the trailer it fails and changes nothing.
    pub fn write_packet(&mut self, packet: &Packet) -> (r: Result<()>)
        ensures
            !old(self).spec_header_written() ==> r matches Err(Error::InvalidState(_)),
            old(self).spec_trailer_written() ==> r matches Err(Error::InvalidState(_)),
            !old(self).spec_header_written() || old(self).spec_trailer_written() ==> *final(self) == *old(self),
            final(self).spec_header_written() == old(self).spec_header_written(),
            final(self).spec_trailer_written() == old(self).spec_trailer_written(),
            final(self).spec_stream_count() == old(self).spec_stream_count(),
    {
        if !self.header_written {
            return Err(Error::InvalidState(msg("header not written")));
        }
        if self.trailer_written {
            return Err(Error::InvalidState(msg("trailer already written")));
        }
        self.muxer.write_packet(&mut self.io, packet)
    }

    /// Write the container trailer (finalize), once, after the header;
    /// otherwise it fails and changes nothing.
    pub fn write_trailer(&mut self) -> (r: Result<()>)
        ensures
            !old(self).spec_header_written() ==> r matches Err(Error::InvalidState(_)),
            old(self).spec_trailer_written() ==> r matches Err(Error::InvalidState(_)),
            !old(self).spec_header_written() || old(self).spec_trailer_written() ==> *final(self) == *old(self),
            final(self).spec_trailer_written() == (old(self).spec_trailer_written() || r is Ok),
            final(self).spec_header_written() == old(self).spec_header_written(),
            final(self).spec_stream_count() == old(self).spec_stream_count(),
    {
        if !self.header_written {
            return Err(Error::InvalidState(msg("header not written")));
        }
        if self.trailer_written {
            return Err(Error::InvalidState(msg("trailer already written")));
        }
        match self.muxer.write_trailer(&mut self.io) {
            Ok(()) => {}
            Err(e) => { return Err(e); }
        }
        self.trailer_written = true;
        Ok(())
    }

    /// Consume the context and return the underlying I/O.
    pub fn into_io(self) -> (r: IOContext)
        ensures r == self.spec_io(),
    {
        self.io
    }

    /// Get the muxer format name.
    pub fn format_name(&self) -> &str {
        self.muxer.name()
    }
}

} // verus!
