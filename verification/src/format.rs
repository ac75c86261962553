//! Containers: in-memory I/O, streams, and the WAV and MP4 demuxers and
//! muxers.

pub mod io;
pub mod stream;
pub mod metadata;
pub mod demux;
pub mod mux;
pub mod wav;
pub mod mp4;
pub mod seek;
pub mod interleave;
pub mod probe;
pub mod context;
pub mod protocol;
