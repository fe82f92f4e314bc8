//! What the parser produces besides the syntax tree: the tokens it reads,
//! the comments and blank lines it keeps aside, and the errors it reports.

pub mod error;
pub mod extra;
pub mod token;
