//! Reading values back from the flat format.

pub mod decoder;
pub mod errors;
