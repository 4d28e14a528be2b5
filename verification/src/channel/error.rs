//! Why a step of the channel handshake failed.

use crate::chain::state::State;
use crate::error::Error as RelayerError;
use crate::event::IbcEvent;
use crate::identifier::ChainId;
use crate::identifier::ChannelId;
use crate::identifier::ClientId;
use crate::identifier::PortId;
use crate::supervisor::error::Error as SupervisorError;
use vstd::prelude::*;

verus! {

#[derive(Debug, PartialEq, Eq)]
pub enum ChannelError {
    /// A chain failed while a driver was put together from what is on chain.
    Relayer(RelayerError),
    /// The channel, its connection or its client could not be resolved.
    Supervisor(SupervisorError),
    /// A query to the named chain failed.
    Query(ChainId, RelayerError),
    /// The other end of the named channel could not be resolved.
    QueryChannel(ChannelId, SupervisorError),
    /// The named chain did not take the transaction.
    Submit(ChainId, RelayerError),
    /// The named chain gave no signer.
    FetchSigner(ChainId, RelayerError),
    /// No proof of the channel end could be had.
    ChannelProof(RelayerError),
    /// The messages that update the named client on the named chain could
    /// not be built.
    ClientOperation(ClientId, ChainId, RelayerError),
    /// A query of a channel end failed while the handshake was being
    /// finished.
    HandshakeFinalize(PortId, ChannelId, ChainId, RelayerError),
    /// The chain rejected the transaction; the string is its reason.
    TxResponse(String),
    /// The answer to a transaction holds no event of the step.
    MissingEvent(String),
    /// An event that cannot belong to the step.
    InvalidEvent(IbcEvent),
    MissingLocalChannelId,
    MissingCounterpartyChannelId,
    MissingLocalConnection(ChainId),
    MissingCounterpartyConnection,
    /// The channel end on the source names another port than the driver
    /// holds for the destination.
    MismatchPort {
        destination_chain_id: ChainId,
        destination_port_id: PortId,
        source_chain_id: ChainId,
        counterparty_port_id: PortId,
        counterparty_channel_id: ChannelId,
    },
    /// The destination holds a channel end that does not fit the one that
    /// the step expects.
    ChannelAlreadyExist(ChannelId),
    /// The destination holds no channel end, where the step needs one.
    MissingChannelOnDestination,
    /// After a submission the two ends were not in the states named here;
    /// the caller tries again.
    PartialOpenHandshake(State, State),
    /// The retries were used up, or an error that is not retried came up.
    MaxRetry {
        description: String,
        /// How often the operation was tried.
        tries: u64,
        /// The time waited between tries, in milliseconds.
        total_delay: u64,
        /// The error of the last try.
        source: Box<ChannelError>,
    },
    /// The retry mechanism itself failed.
    RetryInternal(String),
}

impl ChannelError {
    /// Whether the operation is tried again after this error: failures of a
    /// query or a submission, a rejected transaction, a missing event and a
    /// handshake that has not come as far as expected are; errors of usage
    /// and states that contradict the protocol are not.
    pub open spec fn spec_is_retryable(&self) -> bool {
        match *self {
            ChannelError::Relayer(_) => true,
            ChannelError::Query(_, _) => true,
            ChannelError::QueryChannel(_, _) => true,
            ChannelError::Submit(_, _) => true,
            ChannelError::FetchSigner(_, _) => true,
            ChannelError::ChannelProof(_) => true,
            ChannelError::ClientOperation(_, _, _) => true,
            ChannelError::HandshakeFinalize(_, _, _, _) => true,
            ChannelError::TxResponse(_) => true,
            ChannelError::MissingEvent(_) => true,
            ChannelError::PartialOpenHandshake(_, _) => true,
            _ => false,
        }
    }

    #[verifier::when_used_as_spec(spec_is_retryable)]
    pub fn is_retryable(&self) -> (r: bool)
        ensures
            r == self.spec_is_retryable(),
    {
        match self {
            ChannelError::Relayer(_) => true,
            ChannelError::Query(_, _) => true,
            ChannelError::QueryChannel(_, _) => true,
            ChannelError::Submit(_, _) => true,
            ChannelError::FetchSigner(_, _) => true,
            ChannelError::ChannelProof(_) => true,
            ChannelError::ClientOperation(_, _, _) => true,
            ChannelError::HandshakeFinalize(_, _, _, _) => true,
            ChannelError::TxResponse(_) => true,
            ChannelError::MissingEvent(_) => true,
            ChannelError::PartialOpenHandshake(_, _) => true,
            _ => false,
        }
    }
}

} // verus!
