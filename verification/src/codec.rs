//! Codec framework: packets, parameters, registries and the bitstream
//! parsers of individual codecs.

pub mod packet;
pub mod codec;
pub mod codec_par;
pub mod codecs;
pub mod subtitle;
pub mod bsf;
pub mod error_resilience;
pub mod parser;
pub mod context;
