//! An opened connection between two chains, as the channel handshake needs it.

use crate::chain::handle::ChainHandle;
use crate::identifier::ClientId;
use crate::identifier::ConnectionId;
use vstd::prelude::*;

verus! {

/// One side of a connection: the chain, the client under the connection, and
/// the connection end, once it has a name.
pub struct ConnectionSide<Chain: ChainHandle> {
    pub chain: Chain,
    pub client_id: ClientId,
    pub connection_id: Option<ConnectionId>,
}

impl<Chain: ChainHandle> ConnectionSide<Chain> {
    pub fn new(chain: Chain, client_id: ClientId, connection_id: Option<ConnectionId>) -> (r: Self)
        ensures
            r.chain == chain,
            r.client_id == client_id,
            r.connection_id == connection_id,
    {
        ConnectionSide { chain, client_id, connection_id }
    }
}

/// A connection between the chains `ChainA` and `ChainB`.
pub struct Connection<ChainA: ChainHandle, ChainB: ChainHandle> {
    /// The delay that the connection asks for, in nanoseconds.
    pub delay_period: u64,
    pub a_side: ConnectionSide<ChainA>,
    pub b_side: ConnectionSide<ChainB>,
}

impl<ChainA: ChainHandle, ChainB: ChainHandle> Connection<ChainA, ChainB> {
    pub fn src_chain(&self) -> (r: &ChainA)
        ensures
            *r == self.a_side.chain,
    {
        &self.a_side.chain
    }

    pub fn dst_chain(&self) -> (r: &ChainB)
        ensures
            *r == self.b_side.chain,
    {
        &self.b_side.chain
    }

    pub fn src_client_id(&self) -> (r: &ClientId)
        ensures
            *r == self.a_side.client_id,
    {
        &self.a_side.client_id
    }

    pub fn dst_client_id(&self) -> (r: &ClientId)
        ensures
            *r == self.b_side.client_id,
    {
        &self.b_side.client_id
    }

    pub fn src_connection_id(&self) -> (r: Option<&ConnectionId>)
        ensures
            match r {
                Some(id) => self.a_side.connection_id == Some(*id),
                None => self.a_side.connection_id is None,
            },
    {
        self.a_side.connection_id.as_ref()
    }

    pub fn dst_connection_id(&self) -> (r: Option<&ConnectionId>)
        ensures
            match r {
                Some(id) => self.b_side.connection_id == Some(*id),
                None => self.b_side.connection_id is None,
            },
    {
        self.b_side.connection_id.as_ref()
    }
}

} // verus!
