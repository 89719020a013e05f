use vstd::prelude::*;

verus! {

/// Why a ticket token failed to decode.
#[derive(Clone, Copy, Debug, PartialEq, Eq, Structural)]
pub enum ParseError {
    /// The token is not a well-formed hex string.
    BadToken,
    /// The token is hex, but its payload is not a ticket encoding.
    BadPayload,
}

/// Why an envelope failed to decode from wire bytes.
#[derive(Clone, Copy, Debug, PartialEq, Eq, Structural)]
pub enum DecodeError {
    /// The bytes are not an encoding of any envelope: truncated,
    /// an unknown body discriminant, malformed text, or trailing bytes.
    Malformed,
}

impl ParseError {
    /// A short human-readable description.
    pub fn message(&self) -> (r: String)
        ensures
            self is BadToken ==> r@ == "ticket token is not valid hex"@,
            self is BadPayload ==> r@ == "ticket payload is malformed"@,
    {
        match self {
            ParseError::BadToken => String::from_str("ticket token is not valid hex"),
            ParseError::BadPayload => String::from_str("ticket payload is malformed"),
        }
    }
}

impl DecodeError {
    /// A short human-readable description.
    pub fn message(&self) -> (r: String)
        ensures
            r@ == "envelope bytes are malformed"@,
    {
        String::from_str("envelope bytes are malformed")
    }
}

} // verus!
