//! The Nano language: its names, types, type environment and code
//! generation stack.

pub mod ast;
pub mod builtins;
pub mod gen_uplc;
pub mod id_gen;
pub mod levenshtein;
pub mod name_map;
pub mod parser;
pub mod pretty;
pub mod tipo;
