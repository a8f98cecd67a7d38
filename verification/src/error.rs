//! The ways in which decoding or dispatching a frame can fail.

use vstd::prelude::*;

verus! {

/// Why a decode or a dispatch did not succeed.
#[derive(Clone, Copy, Debug, PartialEq, Eq, Structural)]
pub enum ProtocolError {
    /// The input ended before the value was complete.
    TruncatedInput,
    /// A variable-length integer ran on for too many continuation bytes, or
    /// an identifier's text is in none of the accepted forms.
    Malformed,
    /// The bytes of a text field are not valid UTF-8.
    InvalidUtf8,
    /// No handler is registered for the packet id in the current state.
    UnknownPacket,
    /// The peer broke the protocol: an unregistered id during the handshake,
    /// or a frame whose fields do not fill exactly its declared length.
    ProtocolViolation,
}

} // verus!
