//! Errors of the wire layer. Every one of them is fatal to the connection
//! it occurred on: framing and decoding are not defensively versioned, so a
//! malformed stream cannot be trusted past the first bad byte.

use vstd::prelude::*;

verus! {

/// A fatal per-connection protocol error.
#[derive(Clone, Copy, Debug, PartialEq, Eq, Structural)]
pub enum WireError {
    /// A frame length prefix was zero or at least `frame::FRAME_MAX_LEN`.
    FrameTooLarge,
    /// A frame payload was not valid UTF-8.
    BadUtf8,
    /// A frame payload or an envelope `data` field was not a well-formed
    /// encoding of the message it claimed to be.
    BadMessage,
}

impl WireError {
    /// The human-readable reason surfaced to the peer's user interface.
    pub fn text(&self) -> (r: String)
        ensures
            *self == WireError::FrameTooLarge ==> r@ == "Message too long"@,
            *self == WireError::BadUtf8 ==> r@ == "invalid utf-8 data"@,
            *self == WireError::BadMessage ==> r@ == "malformed message"@,
    {
        match self {
            WireError::FrameTooLarge => String::from_str("Message too long"),
            WireError::BadUtf8 => String::from_str("invalid utf-8 data"),
            WireError::BadMessage => String::from_str("malformed message"),
        }
    }
}

} // verus!
