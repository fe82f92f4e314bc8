//! The flat binary format: a bit-level encoder and decoder.

pub mod bits;
pub mod decode;
pub mod encode;
pub mod filler;
pub mod roundtrip;
pub mod zigzag;
