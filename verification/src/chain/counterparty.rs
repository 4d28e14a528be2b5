//! What is on the other side of a channel or a connection.

use crate::chain::handle::ChainHandle;
use crate::chain::requests::PageRequest;
use crate::chain::requests::QueryClientConnectionsRequest;
use crate::chain::requests::QueryConnectionChannelsRequest;
use crate::chain::state::ChannelEnd;
use crate::chain::state::ClientState;
use crate::chain::state::ConnectionEnd;
use crate::chain::state::ConnectionState;
use crate::chain::state::IdentifiedChannelEnd;
use crate::chain::state::IdentifiedClientState;
use crate::chain::state::IdentifiedConnectionEnd;
use crate::chain::state::State;
use crate::identifier::ChainId;
use crate::identifier::ChannelId;
use crate::identifier::ConnectionId;
use crate::identifier::Height;
use crate::identifier::PortId;
use crate::supervisor::error::Error;
use vstd::prelude::*;

verus! {

/// A channel end with the connection and the client that it rests on, all on
/// one chain.
#[derive(Debug)]
pub struct ChannelConnectionClient {
    pub channel: IdentifiedChannelEnd,
    pub connection: IdentifiedConnectionEnd,
    pub client: IdentifiedClientState,
}

/// Whether the first connection that a channel end names exists: the
/// connection that the channel rests on.
pub open spec fn first_hop(hops: Seq<ConnectionId>) -> Option<ConnectionId> {
    if hops.len() > 0 {
        Some(hops[0])
    } else {
        None
    }
}

/// The connection that the channel end `(port_id, channel_id)` of the chain
/// `chain_id` rests on: the first that it names.
///
/// Fails with `ChannelUninitialized` for an end that is not initialized, and
/// with `MissingConnectionHops` for one that names no connection.
pub fn connection_of_channel(
    channel_end: &ChannelEnd,
    port_id: &PortId,
    channel_id: &ChannelId,
    chain_id: ChainId,
) -> (r: Result<ConnectionId, Error>)
    ensures
        match r {
            Ok(id) => channel_end.state != State::Uninitialized && first_hop(
                channel_end.connection_hops@,
            ) == Some(id),
            Err(Error::ChannelUninitialized(port, channel, chain)) => channel_end.state
                == State::Uninitialized && port == *port_id && channel == *channel_id && chain
                == chain_id,
            Err(Error::MissingConnectionHops(channel, chain)) => channel_end.state
                != State::Uninitialized && channel_end.connection_hops@.len() == 0 && channel
                == *channel_id && chain == chain_id,
            Err(_) => false,
        },
{
    if channel_end.state_matches(State::Uninitialized) {
        return Err(Error::ChannelUninitialized(port_id.clone(), channel_id.clone(), chain_id));
    }
    if channel_end.connection_hops.len() == 0 {
        return Err(Error::MissingConnectionHops(channel_id.clone(), chain_id));
    }
    Ok(channel_end.connection_hops[0].clone())
}

/// Whether `r` is the chain at the other end of the connection
/// `connection` of `chain`, by what `chain` answers at the latest height:
/// the chain named by the state of the client of the connection; or the
/// failure of the query that failed.
pub open spec fn is_chain_behind<C: ChainHandle>(
    chain: &C,
    connection: ConnectionId,
    r: Result<ChainId, Error>,
) -> bool {
    match r {
        Ok(id) => exists|end: ConnectionEnd, state: ClientState|
            {
                &&& #[trigger] answers_connection(chain, connection, end)
                &&& #[trigger] call_ensures(
                    C::query_client_state,
                    (chain, &end.client_id, Height::zero()),
                    Ok(state),
                )
                &&& id == state.chain_id
            },
        Err(Error::Relayer(cause)) => {
            ||| call_ensures(
                C::query_connection,
                (chain, &connection, Height::zero()),
                Err(cause),
            )
            ||| exists|end: ConnectionEnd| #[trigger]
                answers_connection(chain, connection, end) && call_ensures(
                    C::query_client_state,
                    (chain, &end.client_id, Height::zero()),
                    Err(cause),
                )
        },
        Err(_) => false,
    }
}

/// The chain at the other end of the connection `src_connection_id` of
/// `src_chain`: the chain that the connection's client follows.
pub fn counterparty_chain_from_connection<C: ChainHandle>(
    src_chain: &C,
    src_connection_id: &ConnectionId,
) -> (r: Result<ChainId, Error>)
    ensures
        is_chain_behind(src_chain, *src_connection_id, r),
        r matches Err(e) ==> e is Relayer,
{
    let connection_end = match src_chain.query_connection(src_connection_id, Height::zero()) {
        Ok(end) => end,
        Err(e) => {
            return Err(Error::Relayer(e));
        },
    };
    assert(answers_connection(src_chain, *src_connection_id, connection_end));
    let client_state = match src_chain.query_client_state(
        &connection_end.client_id,
        Height::zero(),
    ) {
        Ok(state) => state,
        Err(e) => {
            return Err(Error::Relayer(e));
        },
    };
    Ok(client_state.chain_id)
}

/// Whether `end` is what `chain` answers for the channel end
/// `(port_id, channel_id)`, `connection` the first connection that it names,
/// and `found`, which is not open, what `chain` answers for that connection.
pub open spec fn is_unopened_under<C: ChainHandle>(
    chain: &C,
    port_id: PortId,
    channel_id: ChannelId,
    connection: ConnectionId,
    end: ChannelEnd,
    found: ConnectionEnd,
) -> bool {
    &&& call_ensures(C::query_channel, (chain, &port_id, &channel_id, Height::zero()), Ok(end))
    &&& first_hop(end.connection_hops@) == Some(connection)
    &&& answers_connection(chain, connection, found)
    &&& found.state != ConnectionState::Open
}

/// Whether the channel end `(port_id, channel_id)` of `chain` rests on the
/// connection `connection`, which `chain` holds and which is not open.
pub open spec fn rests_on_unopened<C: ChainHandle>(
    chain: &C,
    port_id: PortId,
    channel_id: ChannelId,
    connection: ConnectionId,
) -> bool {
    exists|end: ChannelEnd, found: ConnectionEnd| #[trigger]
        is_unopened_under(chain, port_id, channel_id, connection, end, found)
}

/// Whether `found` holds what `chain` answers when it is asked for the
/// channel end `(port_id, channel_id)`, then for the connection that `found`
/// names, then for the state of the client that `found` names, each at the
/// latest height.
pub open spec fn is_resolved<C: ChainHandle>(
    chain: &C,
    port_id: &PortId,
    channel_id: &ChannelId,
    found: ChannelConnectionClient,
) -> bool {
    &&& call_ensures(
        C::query_channel,
        (chain, port_id, channel_id, Height::zero()),
        Ok(found.channel.channel_end),
    )
    &&& call_ensures(
        C::query_connection,
        (chain, &found.connection.connection_id, Height::zero()),
        Ok(found.connection.connection_end),
    )
    &&& call_ensures(
        C::query_client_state,
        (chain, &found.client.client_id, Height::zero()),
        Ok(found.client.client_state),
    )
}

/// The channel end `(port_id, channel_id)` of `chain` with its connection and
/// its client.
///
/// Fails where a query fails, where the channel end is not initialized or
/// names no connection, and where the connection is not open.
pub fn channel_connection_client<C: ChainHandle>(
    chain: &C,
    port_id: &PortId,
    channel_id: &ChannelId,
) -> (r: Result<ChannelConnectionClient, Error>)
    ensures
        is_channel_resolution(chain, *port_id, *channel_id, r),
        match r {
            Ok(found) => {
                &&& is_resolved(chain, port_id, channel_id, found)
                &&& found.channel.port_id == *port_id
                &&& found.channel.channel_id == *channel_id
                &&& found.channel.channel_end.state != State::Uninitialized
                &&& first_hop(found.channel.channel_end.connection_hops@) == Some(
                    found.connection.connection_id,
                )
                &&& found.connection.connection_end.state == ConnectionState::Open
                &&& found.client.client_id == found.connection.connection_end.client_id
            },
            Err(e) => {
                &&& e is Relayer || e is ChannelUninitialized || e is MissingConnectionHops
                    || e is ConnectionNotOpen
                &&& e is ChannelUninitialized ==> exists|end: ChannelEnd| #[trigger]
                    call_ensures(
                        C::query_channel,
                        (chain, port_id, channel_id, Height::zero()),
                        Ok(end),
                    ) && end.state == State::Uninitialized
                &&& e is MissingConnectionHops ==> exists|end: ChannelEnd| #[trigger]
                    call_ensures(
                        C::query_channel,
                        (chain, port_id, channel_id, Height::zero()),
                        Ok(end),
                    ) && end.state != State::Uninitialized && end.connection_hops@.len() == 0
                &&& e matches Error::ConnectionNotOpen(connection, channel, _) ==> {
                    &&& channel == *channel_id
                    &&& rests_on_unopened(chain, *port_id, *channel_id, connection)
                }
            },
        },
{
    let channel_end = match chain.query_channel(port_id, channel_id, Height::zero()) {
        Ok(end) => end,
        Err(e) => {
            return Err(Error::Relayer(e));
        },
    };
    assert(answers_channel(chain, *port_id, *channel_id, channel_end));
    let name = chain.id();
    let connection_id = match connection_of_channel(&channel_end, port_id, channel_id, name) {
        Ok(id) => id,
        Err(e) => {
            return Err(e);
        },
    };
    let connection_end = match chain.query_connection(&connection_id, Height::zero()) {
        Ok(end) => end,
        Err(e) => {
            assert(fails_under(chain, *port_id, *channel_id, e));
            return Err(Error::Relayer(e));
        },
    };
    assert(answers_connection(chain, connection_id, connection_end));
    if !connection_end.is_open() {
        assert(is_unopened_under(
            chain,
            *port_id,
            *channel_id,
            connection_id,
            channel_end,
            connection_end,
        ));
        return Err(Error::ConnectionNotOpen(connection_id, channel_id.clone(), chain.id()));
    }
    let client_id = connection_end.client_id.clone();
    let client_state = match chain.query_client_state(&client_id, Height::zero()) {
        Ok(state) => state,
        Err(e) => {
            assert(fails_under(chain, *port_id, *channel_id, e));
            return Err(Error::Relayer(e));
        },
    };
    let client = IdentifiedClientState { client_id, client_state };
    let connection = IdentifiedConnectionEnd { connection_id, connection_end };
    let channel = IdentifiedChannelEnd::new(port_id.clone(), channel_id.clone(), channel_end);
    Ok(ChannelConnectionClient { channel, connection, client })
}

/// Whether `found` is the channel end `(port_id, channel_id)` of `chain`
/// with its connection and its client, as `chain` answers for them: the end
/// is initialized, the connection is the first that it names and is open,
/// and the client is that of the connection.
pub open spec fn is_found_under<C: ChainHandle>(
    chain: &C,
    port_id: PortId,
    channel_id: ChannelId,
    found: ChannelConnectionClient,
) -> bool {
    &&& is_resolved(chain, &port_id, &channel_id, found)
    &&& found.channel.channel_end.state != State::Uninitialized
    &&& first_hop(found.channel.channel_end.connection_hops@) == Some(
        found.connection.connection_id,
    )
    &&& found.connection.connection_end.state == ConnectionState::Open
    &&& found.client.client_id == found.connection.connection_end.client_id
}

/// Whether `end` is what `chain` answers for the channel end
/// `(port_id, channel_id)`, at the latest height.
pub open spec fn answers_channel<C: ChainHandle>(
    chain: &C,
    port_id: PortId,
    channel_id: ChannelId,
    end: ChannelEnd,
) -> bool {
    call_ensures(C::query_channel, (chain, &port_id, &channel_id, Height::zero()), Ok(end))
}

/// Whether `cause` is the failure of `chain` to answer while the channel
/// end `(port_id, channel_id)` is resolved: for the channel end; or, where
/// it answers for an end that is initialized and names a connection, for
/// that connection; or, where it answers for the connection and the
/// connection is open, for the state of the client of the connection.
pub open spec fn fails_under<C: ChainHandle>(
    chain: &C,
    port_id: PortId,
    channel_id: ChannelId,
    cause: crate::error::Error,
) -> bool {
    ||| call_ensures(C::query_channel, (chain, &port_id, &channel_id, Height::zero()), Err(cause))
    ||| exists|end: ChannelEnd|
        {
            &&& #[trigger] answers_channel(chain, port_id, channel_id, end)
            &&& end.state != State::Uninitialized
            &&& end.connection_hops@.len() > 0
            &&& call_ensures(
                C::query_connection,
                (chain, &end.connection_hops@[0], Height::zero()),
                Err(cause),
            )
        }
    ||| exists|end: ChannelEnd, connection: ConnectionEnd|
        {
            &&& #[trigger] answers_channel(chain, port_id, channel_id, end)
            &&& end.state != State::Uninitialized
            &&& end.connection_hops@.len() > 0
            &&& #[trigger] answers_connection(chain, end.connection_hops@[0], connection)
            &&& connection.state == ConnectionState::Open
            &&& call_ensures(
                C::query_client_state,
                (chain, &connection.client_id, Height::zero()),
                Err(cause),
            )
        }
}

/// Whether `r` is what comes of resolving the channel end
/// `(port_id, channel_id)` of `chain`, by what `chain` answers: the end with
/// its connection and its client, see `is_found_under`; or
/// `ChannelUninitialized` for an end that is not initialized,
/// `MissingConnectionHops` for one that names no connection,
/// `ConnectionNotOpen` for one whose connection is not open, each with the
/// name by which `chain` calls itself; or the failure of `chain` to answer,
/// see `fails_under`.
pub open spec fn is_channel_resolution<C: ChainHandle>(
    chain: &C,
    port_id: PortId,
    channel_id: ChannelId,
    r: Result<ChannelConnectionClient, Error>,
) -> bool {
    match r {
        Ok(found) => {
            &&& is_found_under(chain, port_id, channel_id, found)
            &&& found.channel.port_id == port_id
            &&& found.channel.channel_id == channel_id
        },
        Err(Error::ChannelUninitialized(port, channel, name)) => {
            &&& port == port_id
            &&& channel == channel_id
            &&& call_ensures(C::id, (chain,), name)
            &&& exists|end: ChannelEnd| #[trigger]
                answers_channel(chain, port_id, channel_id, end) && end.state
                    == State::Uninitialized
        },
        Err(Error::MissingConnectionHops(channel, name)) => {
            &&& channel == channel_id
            &&& call_ensures(C::id, (chain,), name)
            &&& exists|end: ChannelEnd| #[trigger]
                answers_channel(chain, port_id, channel_id, end) && end.state
                    != State::Uninitialized && end.connection_hops@.len() == 0
        },
        Err(Error::ConnectionNotOpen(connection, channel, name)) => {
            &&& channel == channel_id
            &&& call_ensures(C::id, (chain,), name)
            &&& rests_on_unopened(chain, port_id, channel_id, connection)
        },
        Err(Error::Relayer(cause)) => fails_under(chain, port_id, channel_id, cause),
        Err(_) => false,
    }
}

/// Whether `r` names the chain at the other end of the channel end
/// `(port_id, channel_id)` of `chain`, or says why none is named: the chain
/// that the state of the client under the channel names, where the channel
/// end resolves, see `is_channel_resolution`; else the failure to resolve
/// it.
pub open spec fn is_chain_resolution<C: ChainHandle>(
    chain: &C,
    port_id: PortId,
    channel_id: ChannelId,
    r: Result<ChainId, Error>,
) -> bool {
    exists|resolved: Result<ChannelConnectionClient, Error>|
        {
            &&& #[trigger] is_channel_resolution(chain, port_id, channel_id, resolved)
            &&& r == match resolved {
                Ok(found) => Ok::<ChainId, Error>(found.client.client_state.chain_id),
                Err(e) => Err::<ChainId, Error>(e),
            }
        }
}

/// Whether `id` names the chain at the other end of the channel end
/// `(port_id, channel_id)` of `chain`: the chain that the state of the client
/// under the channel names.
pub open spec fn is_chain_behind_channel<C: ChainHandle>(
    chain: &C,
    port_id: PortId,
    channel_id: ChannelId,
    id: ChainId,
) -> bool {
    exists|found: ChannelConnectionClient| #[trigger]
        is_found_under(chain, port_id, channel_id, found) && found.client.client_state.chain_id
            == id
}

/// The chain at the other end of the channel `(src_port_id, src_channel_id)`
/// of `src_chain`.
///
/// The channel end is resolved on `src_chain`: see
/// `channel_connection_client`. The chain is the one that the client under
/// the channel's connection follows, as the state of that client says.
pub fn counterparty_chain_from_channel<C: ChainHandle>(
    src_chain: &C,
    src_channel_id: &ChannelId,
    src_port_id: &PortId,
) -> (r: Result<ChainId, Error>)
    ensures
        match r {
            Ok(chain_id) => is_chain_behind_channel(
                src_chain,
                *src_port_id,
                *src_channel_id,
                chain_id,
            ),
            Err(e) => e is Relayer || e is ChannelUninitialized || e is MissingConnectionHops
                || e is ConnectionNotOpen,
        },
        is_chain_resolution(src_chain, *src_port_id, *src_channel_id, r),
{
    let resolved = channel_connection_client(src_chain, src_port_id, src_channel_id);
    let ghost inner = resolved;
    let r = match resolved {
        Ok(found) => {
            assert(is_found_under(src_chain, *src_port_id, *src_channel_id, found));
            Ok(found.client.client_state.chain_id)
        },
        Err(e) => Err(e),
    };
    assert(is_channel_resolution(src_chain, *src_port_id, *src_channel_id, inner));
    r
}

/// Whether the channel end `end` names `(port, channel)` as its other end.
pub open spec fn names_counterparty(end: ChannelEnd, port: Seq<char>, channel: Seq<char>) -> bool {
    end.remote.channel_id matches Some(id) && id@ == channel && end.remote.port_id@ == port
}

/// The place of the first of `channels` that names `(port, channel)` as its
/// other end, if there is one.
pub fn position_of_counterparty(
    channels: &Vec<IdentifiedChannelEnd>,
    port_id: &PortId,
    channel_id: &ChannelId,
) -> (r: Option<usize>)
    ensures
        match r {
            Some(i) => {
                &&& i < channels.len()
                &&& names_counterparty(channels@[i as int].channel_end, port_id@, channel_id@)
                &&& forall|j: int|
                    0 <= j < i ==> !names_counterparty(
                        (#[trigger] channels@[j]).channel_end,
                        port_id@,
                        channel_id@,
                    )
            },
            None => forall|j: int|
                0 <= j < channels.len() ==> !names_counterparty(
                    (#[trigger] channels@[j]).channel_end,
                    port_id@,
                    channel_id@,
                ),
        },
{
    let mut i: usize = 0;
    while i < channels.len()
        invariant
            i <= channels.len(),
            forall|j: int|
                0 <= j < i ==> !names_counterparty(
                    (#[trigger] channels@[j]).channel_end,
                    port_id@,
                    channel_id@,
                ),
        decreases channels.len() - i,
    {
        let remote = &channels[i].channel_end.remote;
        let found = match &remote.channel_id {
            Some(id) => *id == *channel_id && remote.port_id == *port_id,
            None => false,
        };
        if found {
            return Some(i);
        }
        i = i + 1;
    }
    None
}

/// Whether `state` is the state of the first of `channels` that names
/// `(port, channel)` as its other end, or `Uninitialized` where none does.
pub open spec fn is_state_among(
    channels: Seq<IdentifiedChannelEnd>,
    port: Seq<char>,
    channel: Seq<char>,
    state: State,
) -> bool {
    ||| exists|i: int|
        {
            &&& 0 <= i < channels.len()
            &&& names_counterparty((#[trigger] channels[i]).channel_end, port, channel)
            &&& forall|j: int|
                0 <= j < i ==> !names_counterparty((#[trigger] channels[j]).channel_end, port, channel)
            &&& channels[i].channel_end.state == state
        }
    ||| {
        &&& forall|j: int|
            0 <= j < channels.len() ==> !names_counterparty(
                (#[trigger] channels[j]).channel_end,
                port,
                channel,
            )
        &&& state == State::Uninitialized
    }
}

/// Whether `request` asks for every channel on the connection `connection`.
pub open spec fn asks_for_channels_of(
    request: QueryConnectionChannelsRequest,
    connection: ConnectionId,
) -> bool {
    &&& request.connection_id == connection
    &&& request.pagination matches Some(page)
    &&& page.key@.len() == 0
    &&& page.offset == 0
    &&& page.limit == u64::MAX
    &&& !page.count_total
    &&& !page.reverse
}

/// What `channel_state_on_destination` answers, by what the other chain
/// answers.
///
/// Where the channel end names its other end, the other chain is asked for
/// that end, at the latest height: the state is that of the end it answers
/// with, and its failure is the failure. Where the channel end names none,
/// but the connection names its other end, the other chain is asked for
/// every channel on that connection: the state is that of the first that
/// names `channel` as its other end, `Uninitialized` where none does.
/// Where neither is named, the state is `Uninitialized` and no chain is
/// asked.
pub open spec fn is_state_on_destination<C: ChainHandle>(
    channel: IdentifiedChannelEnd,
    connection: IdentifiedConnectionEnd,
    counterparty_chain: &C,
    r: Result<State, Error>,
) -> bool {
    match channel.channel_end.remote.channel_id {
        Some(remote_channel_id) => match r {
            Ok(state) => exists|end: ChannelEnd|
                #[trigger] call_ensures(
                    C::query_channel,
                    (
                        counterparty_chain,
                        &channel.channel_end.remote.port_id,
                        &remote_channel_id,
                        Height::zero(),
                    ),
                    Ok(end),
                ) && end.state == state,
            Err(Error::Relayer(cause)) => call_ensures(
                C::query_channel,
                (
                    counterparty_chain,
                    &channel.channel_end.remote.port_id,
                    &remote_channel_id,
                    Height::zero(),
                ),
                Err(cause),
            ),
            Err(_) => false,
        },
        None => match connection.connection_end.counterparty.connection_id {
            Some(remote_connection_id) => match r {
                Ok(state) => exists|
                    request: QueryConnectionChannelsRequest,
                    channels: Vec<IdentifiedChannelEnd>,
                |
                    {
                        &&& asks_for_channels_of(request, remote_connection_id)
                        &&& #[trigger] call_ensures(
                            C::query_connection_channels,
                            (counterparty_chain, request),
                            Ok(channels),
                        )
                        &&& is_state_among(channels@, channel.port_id@, channel.channel_id@, state)
                    },
                Err(Error::Relayer(cause)) => exists|request: QueryConnectionChannelsRequest|
                    {
                        &&& asks_for_channels_of(request, remote_connection_id)
                        &&& #[trigger] call_ensures(
                            C::query_connection_channels,
                            (counterparty_chain, request),
                            Err(cause),
                        )
                    },
                Err(_) => false,
            },
            None => r == Ok::<State, Error>(State::Uninitialized),
        },
    }
}

/// The state of the other end of `channel`, as `counterparty_chain` holds it.
///
/// Where the channel end names its other end, that end is queried. Where it
/// does not, but the connection names its other end, the state is that of
/// the first channel on that connection that names `channel` as its other
/// end. Where nothing is found the state is `Uninitialized`.
pub fn channel_state_on_destination<C: ChainHandle>(
    channel: &IdentifiedChannelEnd,
    connection: &IdentifiedConnectionEnd,
    counterparty_chain: &C,
) -> (r: Result<State, Error>)
    ensures
        is_state_on_destination(*channel, *connection, counterparty_chain, r),
        r matches Err(e) ==> e is Relayer,
        channel.channel_end.remote.channel_id is None
            && connection.connection_end.counterparty.connection_id is None ==> r matches Ok(
            State::Uninitialized,
        ),
{
    match &channel.channel_end.remote.channel_id {
        Some(remote_channel_id) => {
            match counterparty_chain.query_channel(
                &channel.channel_end.remote.port_id,
                remote_channel_id,
                Height::zero(),
            ) {
                Ok(end) => Ok(end.state),
                Err(e) => Err(Error::Relayer(e)),
            }
        },
        None => {
            match &connection.connection_end.counterparty.connection_id {
                Some(remote_connection_id) => {
                    let request = QueryConnectionChannelsRequest {
                        connection_id: remote_connection_id.clone(),
                        pagination: Some(PageRequest::all()),
                    };
                    let ghost asked = request;
                    assert(asks_for_channels_of(asked, *remote_connection_id));
                    match counterparty_chain.query_connection_channels(request) {
                        Ok(channels) => {
                            assert(call_ensures(
                                C::query_connection_channels,
                                (counterparty_chain, asked),
                                Ok::<Vec<IdentifiedChannelEnd>, crate::error::Error>(channels),
                            ));
                            match position_of_counterparty(
                                &channels,
                                &channel.port_id,
                                &channel.channel_id,
                            ) {
                                Some(i) => {
                                    let state = channels[i].channel_end.state;
                                    assert(is_state_among(
                                        channels@,
                                        channel.port_id@,
                                        channel.channel_id@,
                                        state,
                                    ));
                                    Ok(state)
                                },
                                None => {
                                    assert(is_state_among(
                                        channels@,
                                        channel.port_id@,
                                        channel.channel_id@,
                                        State::Uninitialized,
                                    ));
                                    Ok(State::Uninitialized)
                                },
                            }
                        },
                        Err(e) => {
                            assert(call_ensures(
                                C::query_connection_channels,
                                (counterparty_chain, asked),
                                Err::<Vec<IdentifiedChannelEnd>, crate::error::Error>(e),
                            ));
                            Err(Error::Relayer(e))
                        },
                    }
                },
                None => Ok(State::Uninitialized),
            }
        },
    }
}

/// Whether the connection end `end` names `connection` as its other end.
pub open spec fn names_connection(end: ConnectionEnd, connection: Seq<char>) -> bool {
    end.counterparty.connection_id matches Some(id) && id@ == connection
}

/// Whether `chain` answers with `end` when it is asked for the connection
/// end `id`, at the latest height.
pub open spec fn answers_connection<C: ChainHandle>(
    chain: &C,
    id: ConnectionId,
    end: ConnectionEnd,
) -> bool {
    call_ensures(C::query_connection, (chain, &id, Height::zero()), Ok(end))
}

/// Whether the search passes over the candidate `id`: `chain` answers with
/// an end that does not name `connection` as its other end.
pub open spec fn is_passed_over<C: ChainHandle>(
    chain: &C,
    id: ConnectionId,
    connection: Seq<char>,
) -> bool {
    exists|end: ConnectionEnd|
        #[trigger] answers_connection(chain, id, end) && !names_connection(end, connection)
}

/// Whether the search ends at the candidate `id`: `chain` answers with an
/// end in the state `state` that names `connection` as its other end.
pub open spec fn is_found_at<C: ChainHandle>(
    chain: &C,
    id: ConnectionId,
    connection: Seq<char>,
    state: ConnectionState,
) -> bool {
    exists|end: ConnectionEnd|
        #[trigger] answers_connection(chain, id, end) && names_connection(end, connection)
            && end.state == state
}

/// Whether the search among `candidates` ends at place `n` with `state`:
/// the candidates before it are passed over, and the search ends at the
/// candidate at `n`, or, where `n` is past the last, with `Uninitialized`.
pub open spec fn search_ends_at<C: ChainHandle>(
    chain: &C,
    candidates: Seq<ConnectionId>,
    connection: Seq<char>,
    state: ConnectionState,
    n: int,
) -> bool {
    &&& 0 <= n <= candidates.len()
    &&& forall|k: int| 0 <= k < n ==> is_passed_over(chain, #[trigger] candidates[k], connection)
    &&& if n < candidates.len() {
        is_found_at(chain, candidates[n], connection, state)
    } else {
        state == ConnectionState::Uninitialized
    }
}

/// Whether `state` is what the search among `candidates` gives: the other
/// chain is asked for them one by one, in order; the state is that of the
/// first whose end names `connection` as its other end, and `Uninitialized`
/// where the end of none does.
pub open spec fn is_state_among_connections<C: ChainHandle>(
    chain: &C,
    candidates: Seq<ConnectionId>,
    connection: Seq<char>,
    state: ConnectionState,
) -> bool {
    exists|n: int| #[trigger] search_ends_at(chain, candidates, connection, state, n)
}

/// What `connection_state_on_destination` answers, by what the other chain
/// answers.
///
/// Where the connection end names its other end, the other chain is asked
/// for that end, at the latest height: the state is that of the end it
/// answers with, and its failure is the failure. Where it names none, the
/// other chain is asked for the connections of the client that the
/// connection end names on it, and the state is searched among them: see
/// `is_state_among_connections`.
pub open spec fn is_connection_state_on_destination<C: ChainHandle>(
    connection: IdentifiedConnectionEnd,
    counterparty_chain: &C,
    r: Result<ConnectionState, Error>,
) -> bool {
    match connection.connection_end.counterparty.connection_id {
        Some(remote_connection_id) => match r {
            Ok(state) => exists|end: ConnectionEnd|
                #[trigger] answers_connection(counterparty_chain, remote_connection_id, end)
                    && end.state == state,
            Err(Error::Relayer(cause)) => call_ensures(
                C::query_connection,
                (counterparty_chain, &remote_connection_id, Height::zero()),
                Err(cause),
            ),
            Err(_) => false,
        },
        None => match r {
            Ok(state) => exists|
                request: QueryClientConnectionsRequest,
                candidates: Vec<ConnectionId>,
            |
                {
                    &&& request.client_id == connection.connection_end.counterparty.client_id
                    &&& #[trigger] call_ensures(
                        C::query_client_connections,
                        (counterparty_chain, request),
                        Ok(candidates),
                    )
                    &&& is_state_among_connections(
                        counterparty_chain,
                        candidates@,
                        connection.connection_id@,
                        state,
                    )
                },
            Err(e) => e is Relayer,
        },
    }
}

/// The state of the other end of `connection`, as `counterparty_chain` holds
/// it.
///
/// Where the connection end names its other end, that end is queried. Where
/// it does not, the state is that of the first connection of the other
/// chain's client that names `connection` as its other end; `Uninitialized`
/// where there is none.
pub fn connection_state_on_destination<C: ChainHandle>(
    connection: &IdentifiedConnectionEnd,
    counterparty_chain: &C,
) -> (r: Result<ConnectionState, Error>)
    ensures
        is_connection_state_on_destination(*connection, counterparty_chain, r),
        r matches Err(e) ==> e is Relayer,
{
    match &connection.connection_end.counterparty.connection_id {
        Some(remote_connection_id) => {
            match counterparty_chain.query_connection(remote_connection_id, Height::zero()) {
                Ok(end) => {
                    assert(answers_connection(counterparty_chain, *remote_connection_id, end));
                    Ok(end.state)
                },
                Err(e) => Err(Error::Relayer(e)),
            }
        },
        None => {
            let request = QueryClientConnectionsRequest {
                client_id: connection.connection_end.counterparty.client_id.clone(),
            };
            let ghost asked = request;
            let candidates = match counterparty_chain.query_client_connections(request) {
                Ok(ids) => ids,
                Err(e) => {
                    return Err(Error::Relayer(e));
                },
            };
            let mut i: usize = 0;
            while i < candidates.len()
                invariant
                    i <= candidates.len(),
                    connection.connection_end.counterparty.connection_id is None,
                    asked.client_id == connection.connection_end.counterparty.client_id,
                    call_ensures(
                        C::query_client_connections,
                        (counterparty_chain, asked),
                        Ok::<Vec<ConnectionId>, crate::error::Error>(candidates),
                    ),
                    forall|k: int|
                        0 <= k < i ==> is_passed_over(
                            counterparty_chain,
                            #[trigger] candidates@[k],
                            connection.connection_id@,
                        ),
                decreases candidates.len() - i,
            {
                let end = match counterparty_chain.query_connection(&candidates[i], Height::zero()) {
                    Ok(end) => end,
                    Err(e) => {
                        return Err(Error::Relayer(e));
                    },
                };
                assert(answers_connection(counterparty_chain, candidates@[i as int], end));
                let found = match &end.counterparty.connection_id {
                    Some(id) => *id == connection.connection_id,
                    None => false,
                };
                if found {
                    assert(names_connection(end, connection.connection_id@));
                    assert(is_found_at(
                        counterparty_chain,
                        candidates@[i as int],
                        connection.connection_id@,
                        end.state,
                    ));
                    assert(search_ends_at(
                        counterparty_chain,
                        candidates@,
                        connection.connection_id@,
                        end.state,
                        i as int,
                    ));
                    return Ok(end.state);
                }
                assert(!names_connection(end, connection.connection_id@));
                assert(is_passed_over(
                    counterparty_chain,
                    candidates@[i as int],
                    connection.connection_id@,
                ));
                i = i + 1;
            }
            assert(search_ends_at(
                counterparty_chain,
                candidates@,
                connection.connection_id@,
                ConnectionState::Uninitialized,
                candidates@.len() as int,
            ));
            Ok(ConnectionState::Uninitialized)
        },
    }
}

} // verus!
