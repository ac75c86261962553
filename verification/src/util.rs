//! Core utilities shared by codecs and containers.

pub mod error;
pub mod text;
pub mod mathematics;
pub mod rational;
pub mod timestamp;
pub mod samplefmt;
pub mod samples;
pub mod fifo;
pub mod base64;
pub mod channel_layout;
pub mod pixfmt;
pub mod imgutils;
pub mod buffer;
pub mod frame;
pub mod dict;
pub mod hash;
pub mod audio_fifo;
pub mod log;
