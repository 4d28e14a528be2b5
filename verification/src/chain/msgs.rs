//! The messages that the relayer hands to a chain.
//!
//! A message is kept as the values that make it up; how it is encoded for the
//! wire is not this library's concern.

use crate::chain::state::ChannelEnd;
use crate::identifier::ChannelId;
use crate::identifier::Height;
use crate::identifier::PortId;
use vstd::prelude::*;

verus! {

/// The account that signs what the relayer submits to a chain.
#[derive(Clone, Debug, PartialEq, Eq)]
pub struct Signer(pub String);

/// Proofs of a channel end's state on one chain, with the height at which
/// they were taken.
#[derive(Clone, Debug, PartialEq, Eq)]
pub struct Proofs {
    pub height: Height,
    pub object_proof: Vec<u8>,
    pub other_proof: Option<Vec<u8>>,
}

impl Proofs {
    pub fn height(&self) -> (r: Height)
        ensures
            r == self.height,
    {
        self.height
    }
}

/// A message in encoded form, with the name of its type.
#[derive(Clone, Debug, PartialEq, Eq)]
pub struct Any {
    pub type_url: String,
    pub value: Vec<u8>,
}

#[derive(Clone, Debug, PartialEq, Eq)]
pub struct MsgChannelOpenInit {
    pub port_id: PortId,
    pub channel: ChannelEnd,
    pub signer: Signer,
}

#[derive(Clone, Debug, PartialEq, Eq)]
pub struct MsgChannelOpenTry {
    pub port_id: PortId,
    pub previous_channel_id: Option<ChannelId>,
    pub counterparty_version: String,
    pub channel: ChannelEnd,
    pub proofs: Proofs,
    pub signer: Signer,
}

#[derive(Clone, Debug, PartialEq, Eq)]
pub struct MsgChannelOpenAck {
    pub port_id: PortId,
    pub channel_id: ChannelId,
    pub counterparty_channel_id: ChannelId,
    pub counterparty_version: String,
    pub proofs: Proofs,
    pub signer: Signer,
}

#[derive(Clone, Debug, PartialEq, Eq)]
pub struct MsgChannelOpenConfirm {
    pub port_id: PortId,
    pub channel_id: ChannelId,
    pub proofs: Proofs,
    pub signer: Signer,
}

#[derive(Clone, Debug, PartialEq, Eq)]
pub struct MsgChannelCloseInit {
    pub port_id: PortId,
    pub channel_id: ChannelId,
    pub signer: Signer,
}

#[derive(Clone, Debug, PartialEq, Eq)]
pub struct MsgChannelCloseConfirm {
    pub port_id: PortId,
    pub channel_id: ChannelId,
    pub proofs: Proofs,
    pub signer: Signer,
}

/// One message of a transaction.
#[derive(Clone, Debug, PartialEq, Eq)]
pub enum Msg {
    /// A message that this library carries without reading it, such as the
    /// update of a light client.
    Encoded(Any),
    ChannelOpenInit(MsgChannelOpenInit),
    ChannelOpenTry(MsgChannelOpenTry),
    ChannelOpenAck(MsgChannelOpenAck),
    ChannelOpenConfirm(MsgChannelOpenConfirm),
    ChannelCloseInit(MsgChannelCloseInit),
    ChannelCloseConfirm(MsgChannelCloseConfirm),
}

} // verus!
