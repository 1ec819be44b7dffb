use vstd::prelude::*;

verus! {

/// The ways a query can fail, apart from transport trouble, which the
/// caller that owns the socket reports on its own.
#[derive(Debug, PartialEq)]
pub enum Error {
    /// Malformed or unrecognized top-level framing.
    InvalidResponse,
    /// The buffer ended before a fixed-width field could be read.
    Truncated,
    /// The response uses a protocol feature this client does not support.
    NotImplemented { feature: &'static str },
    /// A response-type or challenge-marker byte was not the expected one.
    InvalidHeader { expected: u8, found: u8 },
    /// A later fragment carried a different answer id than the first.
    UnexpectedAnswerID { expected: i32, found: i32 },
    /// The server-type byte is none of the known values.
    InvalidServerType,
    /// The server-environment byte is none of the known values.
    InvalidServerEnvironment,
}

} // verus!
