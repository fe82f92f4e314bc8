use vstd::prelude::*;

verus! {

/// Why an encoding step failed.
pub enum Error {
    /// Byte arrays may only start on a byte boundary.
    BufferNotByteAligned,
    /// Any other failure, described in words.
    Message(String),
}

} // verus!
