//! Events that a chain emits, and the batches in which they arrive.
//!
//! An event holds identifiers and numbers only; packet data and
//! acknowledgements are kept in the hexadecimal spelling in which a chain
//! reports them.

use crate::identifier::ChainId;
use crate::identifier::ChannelId;
use crate::identifier::ClientId;
use crate::identifier::ConnectionId;
use crate::identifier::Height;
use crate::identifier::PortId;
use crate::identifier::Sequence;
use vstd::prelude::*;

verus! {

/// A new block was committed at `height`.
#[derive(Clone, Copy, Debug, PartialEq, Eq, Structural)]
pub struct NewBlock {
    pub height: Height,
}

/// What an event about a light client says.
#[derive(Debug, PartialEq, Eq)]
pub struct ClientAttributes {
    pub height: Height,
    pub client_id: ClientId,
    pub client_type: String,
    pub consensus_height: Height,
}

impl Clone for ClientAttributes {
    fn clone(&self) -> (r: Self)
        ensures
            r == *self,
    {
        ClientAttributes {
            height: self.height,
            client_id: self.client_id.clone(),
            client_type: self.client_type.clone(),
            consensus_height: self.consensus_height,
        }
    }
}

/// What an event of the connection handshake says.
#[derive(Debug, PartialEq, Eq)]
pub struct ConnectionAttributes {
    pub height: Height,
    pub connection_id: Option<ConnectionId>,
    pub client_id: ClientId,
    pub counterparty_connection_id: Option<ConnectionId>,
    pub counterparty_client_id: ClientId,
}

impl Clone for ConnectionAttributes {
    fn clone(&self) -> (r: Self)
        ensures
            r == *self,
    {
        ConnectionAttributes {
            height: self.height,
            connection_id: self.connection_id.clone(),
            client_id: self.client_id.clone(),
            counterparty_connection_id: self.counterparty_connection_id.clone(),
            counterparty_client_id: self.counterparty_client_id.clone(),
        }
    }
}

/// What an event of the channel handshake says.
#[derive(Debug, PartialEq, Eq)]
pub struct ChannelAttributes {
    pub height: Height,
    pub port_id: PortId,
    pub channel_id: Option<ChannelId>,
    pub connection_id: ConnectionId,
    pub counterparty_port_id: PortId,
    pub counterparty_channel_id: Option<ChannelId>,
}

impl Clone for ChannelAttributes {
    fn clone(&self) -> (r: Self)
        ensures
            r == *self,
    {
        ChannelAttributes {
            height: self.height,
            port_id: self.port_id.clone(),
            channel_id: self.channel_id.clone(),
            connection_id: self.connection_id.clone(),
            counterparty_port_id: self.counterparty_port_id.clone(),
            counterparty_channel_id: self.counterparty_channel_id.clone(),
        }
    }
}

/// A packet between two channel ends.
#[derive(Debug, PartialEq, Eq)]
pub struct Packet {
    pub sequence: Sequence,
    pub source_port: PortId,
    pub source_channel: ChannelId,
    pub destination_port: PortId,
    pub destination_channel: ChannelId,
    /// The packet's data, in hexadecimal.
    pub data: String,
    pub timeout_height: Height,
    /// Nanoseconds since the epoch; 0 for no timeout by time.
    pub timeout_timestamp: u64,
}

impl Clone for Packet {
    fn clone(&self) -> (r: Self)
        ensures
            r == *self,
    {
        Packet {
            sequence: self.sequence,
            source_port: self.source_port.clone(),
            source_channel: self.source_channel.clone(),
            destination_port: self.destination_port.clone(),
            destination_channel: self.destination_channel.clone(),
            data: self.data.clone(),
            timeout_height: self.timeout_height,
            timeout_timestamp: self.timeout_timestamp,
        }
    }
}

/// An event about one packet.
#[derive(Debug, PartialEq, Eq)]
pub struct PacketEvent {
    pub height: Height,
    pub packet: Packet,
}

impl Clone for PacketEvent {
    fn clone(&self) -> (r: Self)
        ensures
            r == *self,
    {
        PacketEvent { height: self.height, packet: self.packet.clone() }
    }
}

/// The receiving chain wrote the acknowledgement of a packet.
#[derive(Debug, PartialEq, Eq)]
pub struct WriteAcknowledgement {
    pub height: Height,
    pub packet: Packet,
    /// The acknowledgement, in hexadecimal.
    pub ack: String,
}

impl Clone for WriteAcknowledgement {
    fn clone(&self) -> (r: Self)
        ensures
            r == *self,
    {
        WriteAcknowledgement {
            height: self.height,
            packet: self.packet.clone(),
            ack: self.ack.clone(),
        }
    }
}

/// An event of the inter-chain protocol, as a chain emits it.
#[derive(Debug, PartialEq, Eq)]
pub enum IbcEvent {
    NewBlock(NewBlock),
    CreateClient(ClientAttributes),
    UpdateClient(ClientAttributes),
    UpgradeClient(ClientAttributes),
    ClientMisbehaviour(ClientAttributes),
    OpenInitConnection(ConnectionAttributes),
    OpenTryConnection(ConnectionAttributes),
    OpenAckConnection(ConnectionAttributes),
    OpenConfirmConnection(ConnectionAttributes),
    OpenInitChannel(ChannelAttributes),
    OpenTryChannel(ChannelAttributes),
    OpenAckChannel(ChannelAttributes),
    OpenConfirmChannel(ChannelAttributes),
    CloseInitChannel(ChannelAttributes),
    CloseConfirmChannel(ChannelAttributes),
    SendPacket(PacketEvent),
    ReceivePacket(PacketEvent),
    WriteAcknowledgement(WriteAcknowledgement),
    AcknowledgePacket(PacketEvent),
    TimeoutPacket(PacketEvent),
    TimeoutOnClosePacket(PacketEvent),
    /// An empty response.
    Empty(String),
    /// The chain refused a transaction; the string is its reason.
    ChainError(String),
}

impl Clone for IbcEvent {
    fn clone(&self) -> (r: Self)
        ensures
            r == *self,
    {
        match self {
            IbcEvent::NewBlock(e) => IbcEvent::NewBlock(*e),
            IbcEvent::CreateClient(e) => IbcEvent::CreateClient(e.clone()),
            IbcEvent::UpdateClient(e) => IbcEvent::UpdateClient(e.clone()),
            IbcEvent::UpgradeClient(e) => IbcEvent::UpgradeClient(e.clone()),
            IbcEvent::ClientMisbehaviour(e) => IbcEvent::ClientMisbehaviour(e.clone()),
            IbcEvent::OpenInitConnection(e) => IbcEvent::OpenInitConnection(e.clone()),
            IbcEvent::OpenTryConnection(e) => IbcEvent::OpenTryConnection(e.clone()),
            IbcEvent::OpenAckConnection(e) => IbcEvent::OpenAckConnection(e.clone()),
            IbcEvent::OpenConfirmConnection(e) => IbcEvent::OpenConfirmConnection(e.clone()),
            IbcEvent::OpenInitChannel(e) => IbcEvent::OpenInitChannel(e.clone()),
            IbcEvent::OpenTryChannel(e) => IbcEvent::OpenTryChannel(e.clone()),
            IbcEvent::OpenAckChannel(e) => IbcEvent::OpenAckChannel(e.clone()),
            IbcEvent::OpenConfirmChannel(e) => IbcEvent::OpenConfirmChannel(e.clone()),
            IbcEvent::CloseInitChannel(e) => IbcEvent::CloseInitChannel(e.clone()),
            IbcEvent::CloseConfirmChannel(e) => IbcEvent::CloseConfirmChannel(e.clone()),
            IbcEvent::SendPacket(e) => IbcEvent::SendPacket(e.clone()),
            IbcEvent::ReceivePacket(e) => IbcEvent::ReceivePacket(e.clone()),
            IbcEvent::AcknowledgePacket(e) => IbcEvent::AcknowledgePacket(e.clone()),
            IbcEvent::TimeoutPacket(e) => IbcEvent::TimeoutPacket(e.clone()),
            IbcEvent::TimeoutOnClosePacket(e) => IbcEvent::TimeoutOnClosePacket(e.clone()),
            IbcEvent::WriteAcknowledgement(e) => IbcEvent::WriteAcknowledgement(e.clone()),
            IbcEvent::Empty(e) => IbcEvent::Empty(e.clone()),
            IbcEvent::ChainError(e) => IbcEvent::ChainError(e.clone()),
        }
    }
}

impl IbcEvent {
    /// The attributes of an event of the channel handshake, that is of one
    /// of the four steps that open a channel; `None` for any other event,
    /// the events that close a channel among them.
    pub open spec fn spec_channel_attributes(&self) -> Option<ChannelAttributes> {
        match *self {
            IbcEvent::OpenInitChannel(a) => Some(a),
            IbcEvent::OpenTryChannel(a) => Some(a),
            IbcEvent::OpenAckChannel(a) => Some(a),
            IbcEvent::OpenConfirmChannel(a) => Some(a),
            _ => None,
        }
    }

    pub fn channel_attributes(&self) -> (r: Option<&ChannelAttributes>)
        ensures
            match r {
                Some(a) => self.spec_channel_attributes() == Some(*a),
                None => self.spec_channel_attributes() is None,
            },
    {
        match self {
            IbcEvent::OpenInitChannel(a) => Some(a),
            IbcEvent::OpenTryChannel(a) => Some(a),
            IbcEvent::OpenAckChannel(a) => Some(a),
            IbcEvent::OpenConfirmChannel(a) => Some(a),
            _ => None,
        }
    }

    /// The attributes of an event of the connection handshake; `None` for
    /// any other event.
    pub open spec fn spec_connection_attributes(&self) -> Option<ConnectionAttributes> {
        match *self {
            IbcEvent::OpenInitConnection(a) => Some(a),
            IbcEvent::OpenTryConnection(a) => Some(a),
            IbcEvent::OpenAckConnection(a) => Some(a),
            IbcEvent::OpenConfirmConnection(a) => Some(a),
            _ => None,
        }
    }

    pub fn connection_attributes(&self) -> (r: Option<&ConnectionAttributes>)
        ensures
            match r {
                Some(a) => self.spec_connection_attributes() == Some(*a),
                None => self.spec_connection_attributes() is None,
            },
    {
        match self {
            IbcEvent::OpenInitConnection(a) => Some(a),
            IbcEvent::OpenTryConnection(a) => Some(a),
            IbcEvent::OpenAckConnection(a) => Some(a),
            IbcEvent::OpenConfirmConnection(a) => Some(a),
            _ => None,
        }
    }
}

/// The events of one block of one chain, in the order in which the chain
/// emitted them.
#[derive(Clone, Debug, PartialEq, Eq)]
pub struct EventBatch {
    pub chain_id: ChainId,
    pub height: Height,
    pub events: Vec<IbcEvent>,
}

/// Why a subscription handed over no batch.
#[derive(Clone, Debug, PartialEq, Eq)]
pub enum MonitorError {
    /// The chain ended the subscription.
    SubscriptionCancelled(String),
    /// Any other failure of the event source.
    Other(String),
}

} // verus!
