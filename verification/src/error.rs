//! What can go wrong, in terms a caller can act on.

use vstd::prelude::*;

use crate::types::{Command, NtStatus};

verus! {

/// Which of the guarantees behind a durable handle did not hold.
///
/// All of them mean the same thing to a caller: reopen the file and write it from the start.
#[derive(Debug, Clone, Copy, PartialEq, Eq, Structural)]
pub enum DurableLoss {
    /// The server did not give the open back: the open timed out, the server restarted, or no
    /// answer came.
    Expired,
    /// The server gave a handle back and would not say, in a way that can be read, which file
    /// it is.
    IdentityUnavailable,
    /// The server gave back a handle to a different file.
    IdentityMismatch,
}

/// A failed operation.
#[derive(Debug, PartialEq, Eq)]
pub enum Error {
    /// The server answered with an error.
    Protocol { status: NtStatus, command: Command },
    /// A durable open could not be claimed back.
    DurableHandleLost { path: String, reason: DurableLoss },
    /// A response that does not follow the protocol.
    InvalidData,
    /// There is no connection to send on.
    Disconnected,
    /// The server refused the credentials.
    Auth { message: String },
}

} // verus!
