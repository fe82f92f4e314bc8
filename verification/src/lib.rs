//! A verified core of the Nano smart-contract toolchain: the flat bit-level
//! codec, the pretty printer, the type environment of the compiler, the
//! intermediate-representation stack and a few helpers around untyped
//! Plutus Core.

pub mod flat;
pub mod lang;
pub mod project;
pub mod text;
pub mod uplc;
