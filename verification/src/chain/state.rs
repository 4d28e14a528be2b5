//! On-chain state as a chain's queries return it: channel ends, connection
//! ends and client states.

use crate::identifier::ChainId;
use crate::identifier::ChannelId;
use crate::identifier::ClientId;
use crate::identifier::ConnectionId;
use crate::identifier::PortId;
use vstd::prelude::*;

verus! {

/// The view of an optional identifier.
pub open spec fn opt_view<T: View>(o: Option<T>) -> Option<T::V> {
    match o {
        Some(t) => Some(t@),
        None => None,
    }
}

/// How far a channel end has come in its handshake.
#[derive(Clone, Copy, Debug, PartialEq, Eq, Structural, Hash)]
pub enum State {
    Uninitialized,
    Init,
    TryOpen,
    Open,
    Closed,
}

impl State {
    /// The number of the state; a lower number is an earlier state.
    pub open spec fn spec_number(self) -> nat {
        match self {
            State::Uninitialized => 0,
            State::Init => 1,
            State::TryOpen => 2,
            State::Open => 3,
            State::Closed => 4,
        }
    }

    pub fn number(self) -> (r: u32)
        ensures
            r == self.spec_number(),
    {
        match self {
            State::Uninitialized => 0,
            State::Init => 1,
            State::TryOpen => 2,
            State::Open => 3,
            State::Closed => 4,
        }
    }

    pub fn is_open(self) -> (r: bool)
        ensures
            r == (self == State::Open),
    {
        self == State::Open
    }

    /// Whether this state is no further along than `other`.
    pub fn less_or_equal_progress(self, other: State) -> (r: bool)
        ensures
            r == (self.spec_number() <= other.spec_number()),
    {
        self.number() <= other.number()
    }
}

/// Whether packets on a channel are delivered in the order sent.
#[derive(Clone, Copy, Debug, PartialEq, Eq, Structural, Hash)]
pub enum Order {
    /// No ordering was stated.
    Unspecified,
    Unordered,
    Ordered,
}

impl Default for Order {
    fn default() -> (r: Self)
        ensures
            r == Order::Unordered,
    {
        Order::Unordered
    }
}

/// The other end of a channel, as one end records it.
#[derive(Debug, PartialEq, Eq)]
pub struct Counterparty {
    pub port_id: PortId,
    pub channel_id: Option<ChannelId>,
}

pub struct CounterpartyView {
    pub port_id: Seq<char>,
    pub channel_id: Option<Seq<char>>,
}

impl View for Counterparty {
    type V = CounterpartyView;

    open spec fn view(&self) -> CounterpartyView {
        CounterpartyView { port_id: self.port_id@, channel_id: opt_view(self.channel_id) }
    }
}

impl Counterparty {
    pub fn new(port_id: PortId, channel_id: Option<ChannelId>) -> (r: Self)
        ensures
            r.port_id == port_id,
            r.channel_id == channel_id,
    {
        Counterparty { port_id, channel_id }
    }
}

impl Clone for Counterparty {
    fn clone(&self) -> (r: Self)
        ensures
            r == *self,
    {
        let channel_id = match &self.channel_id {
            Some(id) => Some(id.clone()),
            None => None,
        };
        Counterparty { port_id: self.port_id.clone(), channel_id }
    }
}

/// One end of a channel, as it is stored on its chain.
#[derive(Debug, PartialEq, Eq)]
pub struct ChannelEnd {
    pub state: State,
    pub ordering: Order,
    pub remote: Counterparty,
    pub connection_hops: Vec<ConnectionId>,
    pub version: String,
}

pub struct ChannelEndView {
    pub state: State,
    pub ordering: Order,
    pub remote: CounterpartyView,
    pub connection_hops: Seq<Seq<char>>,
    pub version: Seq<char>,
}

impl View for ChannelEnd {
    type V = ChannelEndView;

    open spec fn view(&self) -> ChannelEndView {
        ChannelEndView {
            state: self.state,
            ordering: self.ordering,
            remote: self.remote@,
            connection_hops: self.connection_hops.deep_view(),
            version: self.version@,
        }
    }
}

/// A copy of a list of connection identifiers.
pub fn clone_hops(hops: &Vec<ConnectionId>) -> (r: Vec<ConnectionId>)
    ensures
        r@ == hops@,
{
    let mut out: Vec<ConnectionId> = Vec::new();
    let mut i: usize = 0;
    while i < hops.len()
        invariant
            i <= hops.len(),
            out@ == hops@.subrange(0, i as int),
        decreases hops.len() - i,
    {
        out.push(hops[i].clone());
        assert(out@ == hops@.subrange(0, i + 1));
        i = i + 1;
    }
    assert(hops@.subrange(0, hops.len() as int) == hops@);
    out
}

/// Whether two lists of connection identifiers spell the same.
pub fn same_hops(a: &Vec<ConnectionId>, b: &Vec<ConnectionId>) -> (r: bool)
    ensures
        r == (a.deep_view() == b.deep_view()),
{
    if a.len() != b.len() {
        assert(a.deep_view().len() != b.deep_view().len());
        return false;
    }
    let mut i: usize = 0;
    while i < a.len()
        invariant
            i <= a.len(),
            a.len() == b.len(),
            forall|j: int| 0 <= j < i ==> a@[j]@ == b@[j]@,
        decreases a.len() - i,
    {
        if a[i] != b[i] {
            assert(a.deep_view()[i as int] != b.deep_view()[i as int]);
            return false;
        }
        i = i + 1;
    }
    assert(a.deep_view() =~= b.deep_view());
    true
}

impl ChannelEnd {
    pub fn new(
        state: State,
        ordering: Order,
        remote: Counterparty,
        connection_hops: Vec<ConnectionId>,
        version: String,
    ) -> (r: Self)
        ensures
            r.state == state,
            r.ordering == ordering,
            r.remote == remote,
            r.connection_hops == connection_hops,
            r.version == version,
    {
        ChannelEnd { state, ordering, remote, connection_hops, version }
    }

    pub fn state_matches(&self, other: State) -> (r: bool)
        ensures
            r == (self.state == other),
    {
        self.state == other
    }

    pub fn is_open(&self) -> (r: bool)
        ensures
            r == (self.state == State::Open),
    {
        self.state == State::Open
    }
}

impl Clone for ChannelEnd {
    fn clone(&self) -> (r: Self)
        ensures
            r@ == self@,
            r.state == self.state,
            r.ordering == self.ordering,
            r.remote == self.remote,
            r.connection_hops@ == self.connection_hops@,
            r.version == self.version,
    {
        ChannelEnd {
            state: self.state,
            ordering: self.ordering,
            remote: self.remote.clone(),
            connection_hops: clone_hops(&self.connection_hops),
            version: self.version.clone(),
        }
    }
}

/// A channel end together with the port and channel that name it on its chain.
#[derive(Clone, Debug, PartialEq, Eq)]
pub struct IdentifiedChannelEnd {
    pub port_id: PortId,
    pub channel_id: ChannelId,
    pub channel_end: ChannelEnd,
}

impl IdentifiedChannelEnd {
    pub fn new(port_id: PortId, channel_id: ChannelId, channel_end: ChannelEnd) -> (r: Self)
        ensures
            r.port_id == port_id,
            r.channel_id == channel_id,
            r.channel_end == channel_end,
    {
        IdentifiedChannelEnd { port_id, channel_id, channel_end }
    }
}

/// How far a connection end has come in its handshake.
#[derive(Clone, Copy, Debug, PartialEq, Eq, Structural, Hash)]
pub enum ConnectionState {
    Uninitialized,
    Init,
    TryOpen,
    Open,
}

impl ConnectionState {
    pub open spec fn spec_number(self) -> nat {
        match self {
            ConnectionState::Uninitialized => 0,
            ConnectionState::Init => 1,
            ConnectionState::TryOpen => 2,
            ConnectionState::Open => 3,
        }
    }

    pub fn number(self) -> (r: u32)
        ensures
            r == self.spec_number(),
    {
        match self {
            ConnectionState::Uninitialized => 0,
            ConnectionState::Init => 1,
            ConnectionState::TryOpen => 2,
            ConnectionState::Open => 3,
        }
    }

    pub fn is_open(self) -> (r: bool)
        ensures
            r == (self == ConnectionState::Open),
    {
        self == ConnectionState::Open
    }

    /// Whether this state is no further along than `other`.
    pub fn less_or_equal_progress(self, other: ConnectionState) -> (r: bool)
        ensures
            r == (self.spec_number() <= other.spec_number()),
    {
        self.number() <= other.number()
    }
}

/// The other end of a connection, as one end records it.
#[derive(Clone, Debug, PartialEq, Eq)]
pub struct ConnectionCounterparty {
    pub client_id: ClientId,
    pub connection_id: Option<ConnectionId>,
}

/// One end of a connection, as it is stored on its chain.
#[derive(Clone, Debug, PartialEq, Eq)]
pub struct ConnectionEnd {
    pub state: ConnectionState,
    pub client_id: ClientId,
    pub counterparty: ConnectionCounterparty,
    /// The delay that the connection asks for, in nanoseconds.
    pub delay_period: u64,
}

impl ConnectionEnd {
    pub fn is_open(&self) -> (r: bool)
        ensures
            r == (self.state == ConnectionState::Open),
    {
        self.state == ConnectionState::Open
    }
}

/// A connection end together with the identifier that names it on its chain.
#[derive(Clone, Debug, PartialEq, Eq)]
pub struct IdentifiedConnectionEnd {
    pub connection_id: ConnectionId,
    pub connection_end: ConnectionEnd,
}

/// The fraction of the validators' voting power that a light client trusts.
#[derive(Clone, Copy, Debug, PartialEq, Eq, Structural)]
pub struct TrustThreshold {
    pub numerator: u64,
    pub denominator: u64,
}

/// What a light client records of the chain that it follows.
#[derive(Clone, Debug, PartialEq, Eq)]
pub struct ClientState {
    /// The chain that the client follows.
    pub chain_id: ChainId,
    pub trust_threshold: Option<TrustThreshold>,
}

/// A client state together with the identifier that names it on its chain.
#[derive(Clone, Debug, PartialEq, Eq)]
pub struct IdentifiedClientState {
    pub client_id: ClientId,
    pub client_state: ClientState,
}

} // verus!
