//! Errors of the library.

use vstd::prelude::*;

verus! {

/// What can go wrong while setting up the cluster or running an operation.
#[derive(Clone, Copy, Debug, PartialEq, Eq, Structural)]
pub enum Error {
    /// The cluster could not be opened with the requested configuration.
    ClusterUnavailable,
    /// The scratchpad cannot hold the requested allocation.
    OutOfMemory,
    /// A transfer of round `round` was reported as failed; the operation
    /// stopped there.
    TransferFailure { round: usize },
}

} // verus!
