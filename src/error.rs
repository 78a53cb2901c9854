//! Errors of a gossip round.
use vstd::prelude::*;

verus! {

/// Why a gossip round was aborted. None of these is fatal to the process.
#[derive(Clone, Copy, Debug, PartialEq, Eq, Structural)]
pub enum GossipError {
    /// Malformed filter or envelope bytes from the remote peer.
    DecodeFailure,
    /// The remote peer did not answer in time.
    Timeout,
    /// The storage collaborator could not answer a query.
    StoreUnavailable,
}

} // verus!
