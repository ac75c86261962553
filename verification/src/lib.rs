//! A multimedia toolkit: rational time arithmetic, sample and pixel formats,
//! byte FIFOs, codec bitstream parsers and container muxing, with contracts
//! checked by Verus.

pub mod util;
pub mod codec;
pub mod format;
pub mod pipeline;
