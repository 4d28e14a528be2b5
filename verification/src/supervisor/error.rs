//! What goes wrong in the supervisor.

use crate::error::Error as RelayerError;
use crate::identifier::ChainId;
use crate::identifier::ChannelId;
use crate::identifier::ClientId;
use crate::identifier::ConnectionId;
use crate::identifier::PortId;
use crate::registry::SpawnError;
use crate::worker::WorkerError;
use vstd::prelude::*;

verus! {

#[derive(Debug, PartialEq, Eq)]
pub enum Error {
    /// The channel end on the named chain is not initialized.
    ChannelUninitialized(PortId, ChannelId, ChainId),
    /// The connection of the channel names no connection on the other chain.
    ChannelConnectionUninitialized(ChannelId, ChainId, ClientId),
    /// The connection under the channel is not open.
    ConnectionNotOpen(ConnectionId, ChannelId, ChainId),
    /// The channel end names no connection.
    MissingConnectionHops(ChannelId, ChainId),
    /// A chain failed to answer.
    Relayer(RelayerError),
    /// No handle for a chain could be had.
    Spawn(SpawnError),
    /// A worker did not take what was sent to it.
    Worker(WorkerError),
    /// No configured chain could be reached and subscribed to.
    NoChainsAvailable,
    /// The handle that a batch came from names another chain than the batch.
    HandleMismatch(ChainId, ChainId),
}

} // verus!
