//! The ways an operation on a Homa socket can fail.

use vstd::prelude::*;

verus! {

/// Why an operation did not complete. Every failure reaches the caller as it
/// is; nothing is retried on the caller's behalf.
#[derive(Clone, Copy, Debug, PartialEq, Eq, Structural)]
pub enum HomaError {
    /// The memory for the page arena could not be mapped.
    AllocationError,
    /// The transport refused the arena it was asked to register.
    RegistrationError,
    /// A transfer or control call failed; the number is the operating
    /// system's error code.
    TransportError(i32),
    /// A non-blocking receive found no message. The caller decides when to
    /// ask again.
    WouldBlock,
    /// The caller's buffer is shorter than the message that arrived.
    BufferTooSmall,
    /// The transport's answer contradicts itself or the page ledger.
    ProtocolViolation,
}

} // verus!
