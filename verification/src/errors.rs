//! Error kinds surfaced by the protocol layer. The core never swallows an
//! error: every failure is reported to the immediate caller.

use vstd::prelude::*;

verus! {

/// What can go wrong while driving the protocol.
#[derive(Clone, Copy, Debug, PartialEq, Eq, Structural)]
pub enum Error {
    /// I/O failure on the underlying stream; fatal to the session.
    Transport,
    /// Malformed compressed data; fatal, never treated as end-of-stream.
    Compression,
    /// A frame could not be interpreted, or the frame source ended before
    /// the awaited completion frame; the collection aborts.
    Protocol,
    /// A single-result query completed without the required payload frame;
    /// the caller may retry the query.
    MissingResponse,
    /// The negotiation command completed with a failure status; the session
    /// must be discarded.
    HandshakeRejected,
}

impl Error {
    /// A short human-readable description of the error kind.
    pub fn describe(&self) -> (r: &'static str)
        ensures r@.len() > 0,
    {
        let r = match self {
            Error::Transport => "transport failure",
            Error::Compression => "corrupt compressed data",
            Error::Protocol => "uninterpretable or truncated response",
            Error::MissingResponse => "expected response not found",
            Error::HandshakeRejected => "negotiation rejected by peer",
        };
        proof {
            reveal_strlit("transport failure");
            reveal_strlit("corrupt compressed data");
            reveal_strlit("uninterpretable or truncated response");
            reveal_strlit("expected response not found");
            reveal_strlit("negotiation rejected by peer");
        }
        r
    }
}

} // verus!
