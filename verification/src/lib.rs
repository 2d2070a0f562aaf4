//! A compute-request broker: model registration, a fingerprint-keyed
//! result cache with time-to-live semantics, a directory of off-chain
//! processors with reputation-based selection, a ledger of delegated
//! compute requests with deadline and dispute handling, and a router
//! that decides for each request whether it is served from the cache,
//! executed locally, or delegated to an off-chain processor.
//!
//! Host collaborators (caller identity, clock, block height, resource
//! meter) are passed into each operation as plain values; the library
//! itself performs no I/O.
use vstd::prelude::*;

pub mod cache;
pub mod directory;
pub mod dtable;
pub mod hashing;
pub mod ledger;
pub mod optimizer;
pub mod registry;
pub mod router;
pub mod stats;
pub mod table;

verus! {

/// Every failure the broker can report. Each operation's contract says
/// exactly which of these it returns, and on which inputs.
#[derive(Clone, Copy, Debug, PartialEq, Eq, Structural)]
pub enum BrokerError {
    /// The caller is not the owner of the component it tried to mutate.
    Unauthorized,
    /// No model is registered under the given id.
    ModelNotFound,
    /// No request is stored under the given id.
    RequestNotFound,
    /// The request is not in the lifecycle state the operation needs.
    InvalidState,
    /// The request's deadline has passed.
    Expired,
    /// The input payload exceeds the model's configured input size.
    InputTooLarge,
    /// The batch holds more inputs than the model's batch size allows.
    BatchTooLarge,
    /// The model exists but is not marked active.
    ModelInactive,
    /// The requested deadline does not lie in the future.
    InvalidDeadline,
    /// No active processor is registered, so nothing can be delegated.
    NoProcessorsAvailable,
    /// The caller is not the processor the request was assigned to.
    Forbidden,
}

} // verus!
