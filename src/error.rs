//! The ways an exchange with the remote process can fail.

use vstd::prelude::*;

verus! {

/// Failure of one request/reply exchange, by kind.
#[derive(Clone, Copy, Debug, PartialEq, Eq, Structural)]
pub enum OscError {
    /// The fixed local port could not be bound.
    Bind,
    /// The remote endpoint could not be resolved.
    Address,
    /// The datagram could not be sent.
    Send,
    /// Reading the reply failed at the operating-system level.
    Receive,
    /// No reply arrived within the read timeout.
    Timeout,
    /// The reply is not a well-formed message of the expected type.
    Decode,
    /// The message cannot be framed.
    Encode,
}

} // verus!
