//! Generation of the intermediate representation.

pub mod air;
pub mod scope;
pub mod stack;
