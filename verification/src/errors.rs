//! The client's error taxonomy: transient network failures, which the
//! dispatcher may retry, and terminal failures, which it surfaces at once.

use vstd::prelude::*;

verus! {

/// Outcome classification for a failed call.
///
/// `Network` failures (connect, I/O, malformed frame, envelope corruption)
/// are transient and safe to retry. All other variants are terminal.
#[derive(Clone, PartialEq, Eq, Debug)]
pub enum MelnetError {
    /// A transport-level failure: connect refused, read/write error,
    /// truncated or malformed frame, or a response envelope that could
    /// not be decoded. Safe to retry.
    Network,
    /// The server has no handler for the requested verb under the netname.
    VerbNotFound,
    /// The server executed the verb but reported a logical failure; the
    /// bytes are the server's message, surfaced verbatim.
    Custom(Vec<u8>),
    /// The server answered successfully but the caller's expected result
    /// type could not be decoded from the body.
    DecodeError,
    /// The overall wall-clock deadline elapsed before the call finished.
    Timeout,
}

impl MelnetError {
    /// A failure is transient exactly when it is network-class; every
    /// other failure must be surfaced without a retry.
    pub open spec fn is_transient(self) -> bool {
        self is Network
    }

    /// Runtime test matching `is_transient`.
    pub fn transient(&self) -> (r: bool)
        ensures
            r == self.is_transient(),
    {
        matches!(self, MelnetError::Network)
    }
}

} // verus!
