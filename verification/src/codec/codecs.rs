//! Bitstream parsers and codecs.

pub mod nal;
pub mod adts;
pub mod opus;
pub mod webvtt;
pub mod ass;
pub mod pcm;
pub mod stubs;
