//! What goes wrong between the relayer and a chain.

use vstd::prelude::*;

verus! {

/// A failure reported by a chain handle, or met while a request to a chain
/// was put together.
#[derive(Clone, Debug, PartialEq, Eq)]
pub enum Error {
    /// The height does not fit a block height of the chain.
    InvalidHeight(u64),
    /// The height cannot be sent as a request's metadata.
    InvalidMetadata(u64),
    /// A query could not be answered.
    Query(String),
    /// A transaction could not be handed to the chain.
    SendTx(String),
    /// The chain's runtime could not be started or reached.
    Runtime(String),
    /// The chain's events could not be subscribed to.
    Subscription(String),
}

} // verus!
