use vstd::prelude::*;

verus! {

/// What can go wrong while encoding, decoding or resolving.
#[derive(Debug, Clone, Copy, PartialEq, Eq, Structural)]
pub enum DnsError {
    /// The buffer is too short for a declared header, question, record,
    /// label or pointer, or a name follows too many compression pointers.
    MalformedMessage,
    /// A name holds a label too long for its length byte.
    LabelTooLong,
    /// Sending the query or receiving the reply failed.
    TransportFailure,
    /// The delegation chain ended without an address.
    NotFound,
    /// The resolution used up its budget of round trips.
    TooManyHops,
}

} // verus!
