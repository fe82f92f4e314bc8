use vstd::prelude::*;

verus! {

/// The standard library's error for bytes that are not valid UTF-8.
#[verifier::external_type_specification]
#[verifier::external_body]
pub struct ExFromUtf8Error(std::string::FromUtf8Error);

/// Why a decoding step failed.
pub enum Error {
    /// The buffer ended before the value did.
    EndOfBuffer,
    /// A byte array may only start on a byte boundary.
    BufferNotByteAligned,
    /// More than eight bits were asked for at once.
    IncorrectNumBits,
    /// The buffer holds fewer bytes than the value needs.
    NotEnoughBytes(usize),
    /// A string's bytes are not valid UTF-8.
    DecodeUtf8(std::string::FromUtf8Error),
    /// A code point that is no character.
    DecodeChar(u32),
}

} // verus!
