//! What every protobuf message of this library offers: its encoding, and
//! reading it back from bytes.
use vstd::prelude::*;
use crate::wire::WireError;

verus! {

/// A protobuf message with a value (its view) that the bytes are read into.
pub trait ProtoMessage: View + Sized {
    /// The message's protobuf encoding.
    spec fn encoded(m: Self::V) -> Seq<u8>;

    /// The message that the bytes encode, if they encode one.
    spec fn decoded(bytes: Seq<u8>) -> Option<Self::V>;

    /// Writes the message.
    fn encode_bytes(&self) -> (r: Vec<u8>)
        ensures
            r@ == Self::encoded(self@),
    ;

    /// Reads a message, failing exactly where the bytes encode none.
    fn decode_bytes(bytes: &[u8]) -> (r: Result<Self, WireError>)
        ensures
            match Self::decoded(bytes@) {
                Some(m) => r matches Ok(x) && x@ == m,
                None => r is Err,
            },
    ;
}

} // verus!
