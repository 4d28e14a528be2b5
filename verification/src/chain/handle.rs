//! The session that the relayer holds with one chain.

use crate::chain::msgs::Any;
use crate::chain::msgs::Msg;
use crate::chain::msgs::Proofs;
use crate::chain::msgs::Signer;
use crate::chain::requests::QueryClientConnectionsRequest;
use crate::chain::requests::QueryClientStatesRequest;
use crate::chain::requests::QueryConnectionChannelsRequest;
use crate::chain::state::ChannelEnd;
use crate::chain::state::ClientState;
use crate::chain::state::ConnectionEnd;
use crate::chain::state::IdentifiedChannelEnd;
use crate::chain::state::IdentifiedClientState;
use crate::config::ChainConfig;
use crate::error::Error;
use crate::event::EventBatch;
use crate::event::IbcEvent;
use crate::event::MonitorError;
use crate::identifier::ChainId;
use crate::identifier::ChannelId;
use crate::identifier::ClientId;
use crate::identifier::ConnectionId;
use crate::identifier::Height;
use crate::identifier::PortId;
use crossbeam_channel::Receiver;
use crossbeam_channel::Sender;
use std::sync::Arc;
use vstd::prelude::*;

verus! {

#[verifier::external_type_specification]
#[verifier::external_body]
#[verifier::reject_recursive_types(T)]
pub struct ExReceiver<T>(Receiver<T>);

#[verifier::external_type_specification]
#[verifier::external_body]
#[verifier::reject_recursive_types(T)]
pub struct ExSender<T>(Sender<T>);

/// What a subscription yields: a batch of events, or the reason why there is
/// none.
pub type ArcBatch = Arc<Result<EventBatch, MonitorError>>;

/// The receiving end of a chain's stream of event batches.
pub type Subscription = Receiver<ArcBatch>;

/// What a chain says of its own health.
#[derive(Debug, PartialEq, Eq)]
pub enum HealthCheck {
    Healthy,
    Unhealthy(String),
}

/// A session with one chain: queries of its state, submission of
/// transactions, and its stream of events.
///
/// Every method may block on the network, and none promises anything of its
/// answer: what this library does with an answer holds for every answer.
pub trait ChainHandle: Sized + Clone {
    /// Starts the session with the chain that `config` describes.
    fn spawn(config: &ChainConfig) -> Result<Self, Error>;

    /// Ends the session.
    fn shutdown(&self) -> Result<(), Error>;

    fn id(&self) -> ChainId;

    fn health_check(&self) -> Result<HealthCheck, Error>;

    fn subscribe(&self) -> Result<Subscription, Error>;

    fn query_latest_height(&self) -> Result<Height, Error>;

    fn query_clients(&self, request: QueryClientStatesRequest) -> Result<
        Vec<IdentifiedClientState>,
        Error,
    >;

    fn query_client_state(&self, client_id: &ClientId, height: Height) -> Result<ClientState, Error>;

    fn query_client_connections(&self, request: QueryClientConnectionsRequest) -> Result<
        Vec<ConnectionId>,
        Error,
    >;

    fn query_connection(&self, connection_id: &ConnectionId, height: Height) -> Result<
        ConnectionEnd,
        Error,
    >;

    fn query_connection_channels(&self, request: QueryConnectionChannelsRequest) -> Result<
        Vec<IdentifiedChannelEnd>,
        Error,
    >;

    fn query_channel(&self, port_id: &PortId, channel_id: &ChannelId, height: Height) -> Result<
        ChannelEnd,
        Error,
    >;

    /// Proofs of the channel end's state at `height`.
    fn build_channel_proofs(&self, port_id: &PortId, channel_id: &ChannelId, height: Height) -> Result<
        Proofs,
        Error,
    >;

    /// The messages that bring the client `client_id` on this chain up to
    /// `target` of the chain `src_chain_id` that it follows.
    fn build_update_client(&self, client_id: &ClientId, src_chain_id: &ChainId, target: Height) -> Result<
        Vec<Any>,
        Error,
    >;

    fn get_signer(&self) -> Result<Signer, Error>;

    /// The version of the application behind a port.
    fn module_version(&self, port_id: &PortId) -> Result<String, Error>;

    /// Submits the messages in one transaction, in order; the answer holds
    /// the events that the chain emitted for them, in order.
    fn send_msgs(&self, msgs: Vec<Msg>) -> Result<Vec<IbcEvent>, Error>;
}

} // verus!
