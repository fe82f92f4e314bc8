use vstd::prelude::*;

verus! {

/// A token of the source.
#[derive(Clone, Debug, PartialEq, Hash, Eq)]
pub enum Token {
    Error(char),
    Name { name: String },
    Ordinal { index: u32 },
    UpName { name: String },
    DiscardName { name: String },
    Int { value: String },
    ByteString { value: String },
    String { value: String },
}

} // verus!
