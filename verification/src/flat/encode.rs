//! Writing values in the flat format.

pub mod encoder;
pub mod errors;
