//! The ways in which handling a connection can fail.

use vstd::prelude::*;

verus! {

/// Why a read, a decode or a connection step failed.
#[derive(Debug, Clone, Copy, PartialEq, Eq, Structural)]
pub enum ProtocolError {
    /// The bytes break the framing or a field's encoding; the connection
    /// cannot be trusted past this point.
    Malformed,
    /// The peer closed the stream, or an I/O error occurred.
    ConnectionClosed,
    /// No activity within the idle timeout.
    Timeout,
    /// No schema exists for the packet id in the current state.
    UnknownPacket,
}

} // verus!
