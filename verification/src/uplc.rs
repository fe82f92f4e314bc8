//! Untyped Plutus Core: its terms and constants, the builtin functions, and
//! the data that scripts take and give.

use vstd::prelude::*;
use pallas_primitives::alonzo::PlutusData;
use pallas_primitives::Fragment;

pub mod ast;
pub mod builder;
pub mod builtins;
pub mod grammar;
pub mod parser;

verus! {

/// What `Fragment::decode_fragment` of pallas gives for the bytes: the
/// datum they encode in CBOR, or the message of the decoding error.
pub uninterp spec fn decoded_data(bytes: Seq<u8>) -> Result<PlutusData, Seq<char>>;

/// What `Fragment::encode_fragment` of pallas gives for a datum: its CBOR
/// bytes, or the message of the encoding error.
pub uninterp spec fn encoded_data(d: PlutusData) -> Result<Seq<u8>, Seq<char>>;

/// Decodes a datum with `Fragment::decode_fragment` of pallas, turning the
/// error into its message; the result is [`decoded_data`] of the bytes.
#[verifier::external_body]
fn decode_fragment(bytes: &[u8]) -> (r: Result<PlutusData, String>)
    ensures
        match r {
            Ok(d) => decoded_data(bytes@) == Ok::<PlutusData, Seq<char>>(d),
            Err(m) => decoded_data(bytes@) == Err::<PlutusData, Seq<char>>(m@),
        },
{
    match PlutusData::decode_fragment(bytes) {
        Ok(d) => Ok(d),
        Err(e) => Err(e.to_string()),
    }
}

/// Encodes a datum with `Fragment::encode_fragment` of pallas, turning the
/// error into its message; the result is [`encoded_data`] of the datum.
#[verifier::external_body]
fn encode_fragment(d: &PlutusData) -> (r: Result<Vec<u8>, String>)
    ensures
        match r {
            Ok(b) => encoded_data(*d) == Ok::<Seq<u8>, Seq<char>>(b@),
            Err(m) => encoded_data(*d) == Err::<Seq<u8>, Seq<char>>(m@),
        },
{
    match d.encode_fragment() {
        Ok(b) => Ok(b),
        Err(e) => Err(e.to_string()),
    }
}

/// The datum that the CBOR bytes encode; an error carries the decoder's
/// message.
pub fn plutus_data(bytes: &[u8]) -> (r: Result<PlutusData, String>)
    ensures
        match r {
            Ok(d) => decoded_data(bytes@) == Ok::<PlutusData, Seq<char>>(d),
            Err(m) => decoded_data(bytes@) == Err::<PlutusData, Seq<char>>(m@),
        },
{
    decode_fragment(bytes)
}

/// The CBOR bytes of a datum; an error carries the encoder's message.
pub fn plutus_data_to_bytes(data: &PlutusData) -> (r: Result<Vec<u8>, String>)
    ensures
        match r {
            Ok(b) => encoded_data(*data) == Ok::<Seq<u8>, Seq<char>>(b@),
            Err(m) => encoded_data(*data) == Err::<Seq<u8>, Seq<char>>(m@),
        },
{
    encode_fragment(data)
}

} // verus!
