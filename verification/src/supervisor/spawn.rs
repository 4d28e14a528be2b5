//! The scan that seeds the workers: on startup, and when a chain is added,
//! the clients, connections and channels of a chain are gone through, and a
//! worker is started for each object that the configuration and the filter
//! admit.

use crate::chain::counterparty::channel_state_on_destination;
use crate::chain::counterparty::connection_state_on_destination;
use crate::chain::counterparty::is_connection_state_on_destination;
use crate::chain::counterparty::is_state_on_destination;
use crate::chain::handle::ChainHandle;
use crate::chain::requests::PageRequest;
use crate::chain::requests::QueryClientConnectionsRequest;
use crate::chain::requests::QueryClientStatesRequest;
use crate::chain::requests::QueryConnectionChannelsRequest;
use crate::chain::state::ConnectionState;
use crate::chain::state::IdentifiedChannelEnd;
use crate::chain::state::IdentifiedClientState;
use crate::chain::state::IdentifiedConnectionEnd;
use crate::chain::state::State;
use crate::config::Config;
use crate::config::ModeConfig;
use crate::identifier::ChainId;
use crate::identifier::Height;
use crate::object::Channel;
use crate::object::Client;
use crate::object::Connection;
use crate::object::Object;
use crate::object::ObjectView;
use crate::object::Packet;
use crate::chain::counterparty::asks_for_channels_of;
use crate::error::Error as RelayerError;
use crate::registry::grows_within;
use crate::registry::handles_kept;
use crate::registry::is_handle_of;
use crate::registry::lemma_handle_stays;
use crate::registry::lemma_handles_kept_twice;
use crate::registry::lemma_grows_twice;
use crate::registry::Registry;
use crate::chain::state::ConnectionEnd;
use crate::identifier::ConnectionId;
use crate::supervisor::client_state_filter::cache_extends;
use crate::supervisor::client_state_filter::decided;
use crate::supervisor::client_state_filter::ClientKey;
use crate::supervisor::client_state_filter::FilterPolicy;
use crate::supervisor::client_state_filter::Permission;
use crate::supervisor::error::Error;
use crate::supervisor::relay_packets_on_channel;
use crate::worker::Worker;
use crate::worker::WorkerMap;
use vstd::prelude::*;

verus! {

/// When the scan runs.
#[derive(Clone, Copy, Debug, PartialEq, Eq, Structural)]
pub enum SpawnMode {
    /// When the supervisor starts.
    Startup,
    /// When the configuration has changed.
    Reload,
}

/// Whether `after` is `before` with objects added at the end, each with the
/// chain `chain` as its source.
pub open spec fn adds_for_chain(
    before: Seq<ObjectView>,
    after: Seq<ObjectView>,
    chain: Seq<char>,
) -> bool {
    &&& before.len() <= after.len()
    &&& after.take(before.len() as int) == before
    &&& forall|i: int| before.len() <= i < after.len() ==> (#[trigger] after[i]).src_chain_id() == chain
}

/// Objects added twice for a chain were added for that chain.
pub proof fn lemma_adds_twice(
    first: Seq<ObjectView>,
    second: Seq<ObjectView>,
    third: Seq<ObjectView>,
    chain: Seq<char>,
)
    requires
        adds_for_chain(first, second, chain),
        adds_for_chain(second, third, chain),
    ensures
        adds_for_chain(first, third, chain),
{
    assert(third.take(first.len() as int) =~= third.take(second.len() as int).take(
        first.len() as int,
    ));
    assert forall|i: int| first.len() <= i < third.len() implies (
    #[trigger] third[i]).src_chain_id() == chain by {
        if i < second.len() {
            assert(third.take(second.len() as int)[i] == second[i]);
        }
    }
}

/// Nothing added is an addition for any chain.
pub proof fn lemma_adds_nothing(objects: Seq<ObjectView>, chain: Seq<char>)
    ensures
        adds_for_chain(objects, objects, chain),
{
    assert(objects.take(objects.len() as int) =~= objects);
}

/// One object added, or none where it was there, is an addition for the
/// object's source.
pub proof fn lemma_adds_one(before: Seq<ObjectView>, object: ObjectView)
    ensures
        adds_for_chain(before, before.push(object), object.src_chain_id()),
{
    assert(before.push(object).take(before.len() as int) =~= before);
}

/// The workers that a channel end asks for.
#[derive(Clone, Copy, Debug, PartialEq, Eq, Structural)]
pub struct ChannelWorkers {
    /// The worker of the client on the other chain.
    pub client: bool,
    /// The worker of the packets of the channel end.
    pub packets: bool,
    /// The worker of the handshake of the channel.
    pub channel: bool,
}

/// The workers that a channel end in the state `src` asks for, whose other
/// end is in the state `dst`.
///
/// Where both ends are open and packets on the channel are relayed: the
/// worker of the client, where clients are relayed, and the worker of the
/// packets, where packets are. Else, where channel handshakes are relayed
/// and the other end is not open and has come no further than this end: the
/// worker of the channel. Else none.
pub open spec fn spec_channel_workers(
    src: State,
    dst: State,
    relay_packets: bool,
    mode: ModeConfig,
) -> ChannelWorkers {
    if src == State::Open && dst == State::Open && relay_packets {
        ChannelWorkers { client: mode.clients.enabled, packets: mode.packets.enabled, channel: false }
    } else if mode.channels.enabled && dst != State::Open && dst.spec_number()
        <= src.spec_number() {
        ChannelWorkers { client: false, packets: false, channel: true }
    } else {
        ChannelWorkers { client: false, packets: false, channel: false }
    }
}

pub fn channel_workers(src: State, dst: State, relay_packets: bool, mode: ModeConfig) -> (r:
    ChannelWorkers)
    ensures
        r == spec_channel_workers(src, dst, relay_packets, mode),
{
    if src.is_open() && dst.is_open() && relay_packets {
        ChannelWorkers { client: mode.clients.enabled, packets: mode.packets.enabled, channel: false }
    } else if mode.channels.enabled && !dst.is_open() && dst.less_or_equal_progress(src) {
        ChannelWorkers { client: false, packets: false, channel: true }
    } else {
        ChannelWorkers { client: false, packets: false, channel: false }
    }
}

/// Whether a connection end in the state `src`, whose other end is in the
/// state `dst`, asks for the worker of its handshake: where connection
/// handshakes are relayed, the other end is not open and has come no
/// further than this end.
pub open spec fn spec_connection_worker(
    src: ConnectionState,
    dst: ConnectionState,
    mode: ModeConfig,
) -> bool {
    mode.connections.enabled && dst != ConnectionState::Open && dst.spec_number()
        <= src.spec_number()
}

pub fn connection_worker(src: ConnectionState, dst: ConnectionState, mode: ModeConfig) -> (r: bool)
    ensures
        r == spec_connection_worker(src, dst, mode),
{
    mode.connections.enabled && !dst.is_open() && dst.less_or_equal_progress(src)
}

/// `objects` with `object` as the last, where it is wanted and not there
/// yet; else `objects` as they are.
pub open spec fn with_object(
    objects: Seq<ObjectView>,
    wanted: bool,
    object: ObjectView,
) -> Seq<ObjectView> {
    if wanted && !objects.contains(object) {
        objects.push(object)
    } else {
        objects
    }
}

/// The objects that have a worker once the workers `wanted` of the channel
/// end `channel` of `chain` are started, after `before`: first the client
/// on the other chain, then the packets of the channel end, then the
/// channel, each where it is wanted and has no worker yet.
pub open spec fn with_channel_objects(
    before: Seq<ObjectView>,
    chain: Seq<char>,
    client: IdentifiedClientState,
    connection: IdentifiedConnectionEnd,
    channel: IdentifiedChannelEnd,
    wanted: ChannelWorkers,
) -> Seq<ObjectView> {
    let other = client.client_state.chain_id@;
    let with_client = with_object(
        before,
        wanted.client,
        ObjectView::Client {
            dst_client_id: connection.connection_end.counterparty.client_id@,
            dst_chain_id: other,
            src_chain_id: chain,
        },
    );
    let with_packets = with_object(
        with_client,
        wanted.packets,
        ObjectView::Packet {
            dst_chain_id: other,
            src_chain_id: chain,
            src_channel_id: channel.channel_id@,
            src_port_id: channel.port_id@,
        },
    );
    with_object(
        with_packets,
        wanted.channel,
        ObjectView::Channel {
            dst_chain_id: other,
            src_chain_id: chain,
            src_channel_id: channel.channel_id@,
            src_port_id: channel.port_id@,
        },
    )
}

/// Whether `after` are the objects that have a worker once the channel end
/// `channel` of `chain` was scanned, after `before`, where the other chain
/// answered `found` for the state of the other end: the workers that the
/// two states ask for are started, see `spec_channel_workers`; where the
/// other chain did not answer, none is.
pub open spec fn is_channel_scanned(
    config: Config,
    before: Seq<ObjectView>,
    after: Seq<ObjectView>,
    chain: Seq<char>,
    client: IdentifiedClientState,
    connection: IdentifiedConnectionEnd,
    channel: IdentifiedChannelEnd,
    found: Result<State, Error>,
) -> bool {
    match found {
        Ok(other_state) => after == with_channel_objects(
            before,
            chain,
            client,
            connection,
            channel,
            spec_channel_workers(
                channel.channel_end.state,
                other_state,
                !config.mode.packets.filter || config.spec_packets_on_channel_allowed(
                    chain,
                    channel.port_id@,
                    channel.channel_id@,
                ),
                config.mode,
            ),
        ),
        Err(_) => after == before,
    }
}

/// Whether `after` are the objects that have a worker once the connection
/// end `connection` of `chain` was scanned, after `before`, where the other
/// chain answered `found` for the state of the other end: the worker of the
/// connection is started where the two states ask for it, see
/// `spec_connection_worker`; where the other chain did not answer, none is.
pub open spec fn is_connection_scanned(
    config: Config,
    before: Seq<ObjectView>,
    after: Seq<ObjectView>,
    chain: Seq<char>,
    client: IdentifiedClientState,
    connection: IdentifiedConnectionEnd,
    found: Result<ConnectionState, Error>,
) -> bool {
    match found {
        Ok(other_state) => after == with_object(
            before,
            spec_connection_worker(connection.connection_end.state, other_state, config.mode),
            ObjectView::Connection {
                dst_chain_id: client.client_state.chain_id@,
                src_chain_id: chain,
                src_connection_id: connection.connection_id@,
            },
        ),
        Err(_) => after == before,
    }
}

/// Whether `after` are the objects that have a worker once the channel end
/// `channel` of `chain` was scanned, after `before`, with the handles
/// `handles` held afterwards, each under its name in `ids`: where a handle
/// is held for the chain that the client follows, it was asked for the state
/// of the other end, and the workers are started as `is_channel_scanned`
/// says; where none could be had, no worker is started.
pub open spec fn is_channel_step<Chain: ChainHandle>(
    config: Config,
    ids: Seq<Seq<char>>,
    handles: Seq<Chain>,
    before: Seq<ObjectView>,
    after: Seq<ObjectView>,
    chain: Seq<char>,
    client: IdentifiedClientState,
    connection: IdentifiedConnectionEnd,
    channel: IdentifiedChannelEnd,
) -> bool {
    if ids.contains(client.client_state.chain_id@) {
        exists|other: Chain, found: Result<State, Error>|
            {
                &&& is_handle_of(ids, handles, client.client_state.chain_id@, other)
                &&& #[trigger] is_state_on_destination(channel, connection, &other, found)
                &&& is_channel_scanned(
                    config,
                    before,
                    after,
                    chain,
                    client,
                    connection,
                    channel,
                    found,
                )
            }
    } else {
        after == before
    }
}

/// Whether `after` are the objects that have a worker once the connection
/// end `connection` of `chain` was scanned, after `before`: as
/// `is_channel_step`, with `is_connection_scanned`.
pub open spec fn is_connection_step<Chain: ChainHandle>(
    config: Config,
    ids: Seq<Seq<char>>,
    handles: Seq<Chain>,
    before: Seq<ObjectView>,
    after: Seq<ObjectView>,
    chain: Seq<char>,
    client: IdentifiedClientState,
    connection: IdentifiedConnectionEnd,
) -> bool {
    if ids.contains(client.client_state.chain_id@) {
        exists|other: Chain, found: Result<ConnectionState, Error>|
            {
                &&& is_handle_of(ids, handles, client.client_state.chain_id@, other)
                &&& #[trigger] is_connection_state_on_destination(connection, &other, found)
                &&& is_connection_scanned(
                    config,
                    before,
                    after,
                    chain,
                    client,
                    connection,
                    found,
                )
            }
    } else {
        after == before
    }
}

/// Whether the channel end `channel` of `chain` was scanned, with some
/// handles held afterwards: see `is_channel_step`.
pub open spec fn was_channel_scanned<Chain: ChainHandle>(
    config: Config,
    before: Seq<ObjectView>,
    after: Seq<ObjectView>,
    chain: Seq<char>,
    client: IdentifiedClientState,
    connection: IdentifiedConnectionEnd,
    channel: IdentifiedChannelEnd,
) -> bool {
    exists|ids: Seq<Seq<char>>, handles: Seq<Chain>| #[trigger]
        is_channel_step(config, ids, handles, before, after, chain, client, connection, channel)
}

/// Whether the connection end `connection` of `chain` was scanned, with
/// some handles held afterwards: see `is_connection_step`.
pub open spec fn was_connection_scanned<Chain: ChainHandle>(
    config: Config,
    before: Seq<ObjectView>,
    after: Seq<ObjectView>,
    chain: Seq<char>,
    client: IdentifiedClientState,
    connection: IdentifiedConnectionEnd,
) -> bool {
    exists|ids: Seq<Seq<char>>, handles: Seq<Chain>| #[trigger]
        is_connection_step(config, ids, handles, before, after, chain, client, connection)
}

/// Whether `after` are the objects that have a worker once the channel
/// ends `channels` of the connection `connection` of `chain` were scanned,
/// one after the other, after `before`: see `was_channel_scanned`.
pub open spec fn are_channels_scanned<Chain: ChainHandle>(
    config: Config,
    chain: Seq<char>,
    client: IdentifiedClientState,
    connection: IdentifiedConnectionEnd,
    channels: Seq<IdentifiedChannelEnd>,
    before: Seq<ObjectView>,
    after: Seq<ObjectView>,
) -> bool
    decreases channels.len(),
{
    if channels.len() == 0 {
        after == before
    } else {
        exists|between: Seq<ObjectView>|
            {
                &&& are_channels_scanned::<Chain>(
                    config,
                    chain,
                    client,
                    connection,
                    channels.drop_last(),
                    before,
                    between,
                )
                &&& #[trigger] was_channel_scanned::<Chain>(
                    config,
                    between,
                    after,
                    chain,
                    client,
                    connection,
                    channels.last(),
                )
            }
    }
}

/// Whether `after` are the objects that have a worker once the connection
/// end `connection` of `chain` and its channels were scanned, after
/// `before`, where the chain answered `answer` for the channels of the
/// connection. Where it did not answer, no worker is started. Else the
/// connection end is scanned, see `was_connection_scanned`, and then, where
/// it is open, its channels, see `are_channels_scanned`.
pub open spec fn is_connection_scan_from<Chain: ChainHandle>(
    config: Config,
    chain: Seq<char>,
    client: IdentifiedClientState,
    connection: IdentifiedConnectionEnd,
    answer: Result<Vec<IdentifiedChannelEnd>, RelayerError>,
    before: Seq<ObjectView>,
    after: Seq<ObjectView>,
) -> bool {
    match answer {
        Ok(channels) => exists|between: Seq<ObjectView>|
            {
                &&& #[trigger] was_connection_scanned::<Chain>(
                    config,
                    before,
                    between,
                    chain,
                    client,
                    connection,
                )
                &&& if connection.connection_end.state == ConnectionState::Open {
                    are_channels_scanned::<Chain>(
                        config,
                        chain,
                        client,
                        connection,
                        channels@,
                        between,
                        after,
                    )
                } else {
                    after == between
                }
            },
        Err(_) => after == before,
    }
}

/// Whether `after` are the objects that have a worker once the connection
/// end `connection` of the chain behind `handle`, which calls itself
/// `chain`, and its channels were scanned, after `before`: the chain was
/// asked for all channels of the connection, and its answer was dealt with
/// as `is_connection_scan_from` says.
pub open spec fn is_connection_scan<Chain: ChainHandle>(
    config: Config,
    handle: &Chain,
    chain: Seq<char>,
    client: IdentifiedClientState,
    connection: IdentifiedConnectionEnd,
    before: Seq<ObjectView>,
    after: Seq<ObjectView>,
) -> bool {
    exists|
        request: QueryConnectionChannelsRequest,
        answer: Result<Vec<IdentifiedChannelEnd>, RelayerError>,
    |
        {
            &&& asks_for_channels_of(request, connection.connection_id)
            &&& #[trigger] call_ensures(Chain::query_connection_channels, (handle, request), answer)
            &&& is_connection_scan_from::<Chain>(
                config,
                chain,
                client,
                connection,
                answer,
                before,
                after,
            )
        }
}

/// Whether `after` are the objects that have a worker once the connection
/// `connection_id` of the chain behind `handle` was scanned, after `before`:
/// the chain was asked for the connection end, at the latest height; where
/// it answered, the end and its channels were scanned, see
/// `is_connection_scan`; where it did not, no worker is started.
pub open spec fn is_listed_connection_scan<Chain: ChainHandle>(
    config: Config,
    handle: &Chain,
    chain: Seq<char>,
    client: IdentifiedClientState,
    connection_id: ConnectionId,
    before: Seq<ObjectView>,
    after: Seq<ObjectView>,
) -> bool {
    exists|answer: Result<ConnectionEnd, RelayerError>|
        {
            &&& #[trigger] call_ensures(
                Chain::query_connection,
                (handle, &connection_id, Height::zero()),
                answer,
            )
            &&& match answer {
                Ok(end) => is_connection_scan(
                    config,
                    handle,
                    chain,
                    client,
                    (IdentifiedConnectionEnd { connection_id, connection_end: end }),
                    before,
                    after,
                ),
                Err(_) => after == before,
            }
        }
}

/// Whether `after` are the objects that have a worker once the connections
/// `connections` of the client `client` were scanned, one after the other,
/// after `before`: see `is_listed_connection_scan`.
pub open spec fn are_connections_scanned<Chain: ChainHandle>(
    config: Config,
    handle: &Chain,
    chain: Seq<char>,
    client: IdentifiedClientState,
    connections: Seq<ConnectionId>,
    before: Seq<ObjectView>,
    after: Seq<ObjectView>,
) -> bool
    decreases connections.len(),
{
    if connections.len() == 0 {
        after == before
    } else {
        exists|between: Seq<ObjectView>|
            {
                &&& are_connections_scanned(
                    config,
                    handle,
                    chain,
                    client,
                    connections.drop_last(),
                    before,
                    between,
                )
                &&& #[trigger] is_listed_connection_scan(
                    config,
                    handle,
                    chain,
                    client,
                    connections.last(),
                    between,
                    after,
                )
            }
    }
}

/// Whether `after` are the objects that have a worker once the connections
/// of the client `client` were scanned, after `before`, where the chain
/// answered `answer` for the connections of the client: where it did not
/// answer, no worker is started.
pub open spec fn is_client_scan_from<Chain: ChainHandle>(
    config: Config,
    handle: &Chain,
    chain: Seq<char>,
    client: IdentifiedClientState,
    answer: Result<Vec<ConnectionId>, RelayerError>,
    before: Seq<ObjectView>,
    after: Seq<ObjectView>,
) -> bool {
    match answer {
        Ok(connections) => are_connections_scanned(
            config,
            handle,
            chain,
            client,
            connections@,
            before,
            after,
        ),
        Err(_) => after == before,
    }
}

/// Whether the client `client` of `chain` is passed over: the filter is on
/// and denies it, with the decisions `cache` taken before, or it follows a
/// chain that is not configured.
pub open spec fn is_client_passed_over(
    config: Config,
    chain: Seq<char>,
    client: IdentifiedClientState,
    cache: Map<ClientKey, Permission>,
) -> bool {
    ||| config.mode.packets.filter && decided(
        cache,
        (chain, client.client_id@),
        client.client_state,
    ) == Permission::Deny
    ||| !config.chain_ids().contains(client.client_state.chain_id@)
}

/// Whether `after` are the objects that have a worker, and `cache_after`
/// the decisions taken, once the client `client` of the chain behind
/// `handle`, which calls itself `chain`, was scanned, after `before` and
/// `cache_before`. With the filter on, the client is decided of, and the
/// decision is kept. A client that is passed over starts no worker, see
/// `is_client_passed_over`. Else the chain is asked for the connections of
/// the client, and its answer is dealt with as `is_client_scan_from` says.
pub open spec fn is_client_scan<Chain: ChainHandle>(
    config: Config,
    handle: &Chain,
    chain: Seq<char>,
    client: IdentifiedClientState,
    cache_before: Map<ClientKey, Permission>,
    cache_after: Map<ClientKey, Permission>,
    before: Seq<ObjectView>,
    after: Seq<ObjectView>,
) -> bool {
    &&& cache_after == if config.mode.packets.filter {
        cache_before.insert(
            (chain, client.client_id@),
            decided(cache_before, (chain, client.client_id@), client.client_state),
        )
    } else {
        cache_before
    }
    &&& if is_client_passed_over(config, chain, client, cache_before) {
        after == before
    } else {
        exists|request: QueryClientConnectionsRequest, answer: Result<Vec<ConnectionId>, RelayerError>|
            {
                &&& request.client_id == client.client_id
                &&& #[trigger] call_ensures(
                    Chain::query_client_connections,
                    (handle, request),
                    answer,
                )
                &&& is_client_scan_from(config, handle, chain, client, answer, before, after)
            }
    }
}

/// Whether `after` and `cache_after` are what comes of scanning the
/// clients `clients` of the chain behind `handle`, one after the other,
/// after `before` and `cache_before`: see `is_client_scan`.
pub open spec fn are_clients_scanned<Chain: ChainHandle>(
    config: Config,
    handle: &Chain,
    chain: Seq<char>,
    clients: Seq<IdentifiedClientState>,
    cache_before: Map<ClientKey, Permission>,
    cache_after: Map<ClientKey, Permission>,
    before: Seq<ObjectView>,
    after: Seq<ObjectView>,
) -> bool
    decreases clients.len(),
{
    if clients.len() == 0 {
        after == before && cache_after == cache_before
    } else {
        exists|between: Seq<ObjectView>, cache_between: Map<ClientKey, Permission>|
            {
                &&& are_clients_scanned(
                    config,
                    handle,
                    chain,
                    clients.drop_last(),
                    cache_before,
                    cache_between,
                    before,
                    between,
                )
                &&& #[trigger] is_client_scan(
                    config,
                    handle,
                    chain,
                    clients.last(),
                    cache_between,
                    cache_after,
                    between,
                    after,
                )
            }
    }
}

/// Whether `request` asks for every client in one page.
pub open spec fn asks_for_all_clients(request: QueryClientStatesRequest) -> bool {
    &&& request.pagination matches Some(page)
    &&& page.key@.len() == 0
    &&& page.offset == 0
    &&& page.limit == u64::MAX
    &&& !page.count_total
    &&& !page.reverse
}

/// Whether `after` and `cache_after` are what comes of scanning the chain
/// behind `handle`, where it answered `answer` for its clients: where it did
/// not answer, nothing changes; else its clients are scanned, see
/// `are_clients_scanned`.
pub open spec fn is_chain_scan_from<Chain: ChainHandle>(
    config: Config,
    handle: &Chain,
    chain: Seq<char>,
    answer: Result<Vec<IdentifiedClientState>, RelayerError>,
    cache_before: Map<ClientKey, Permission>,
    cache_after: Map<ClientKey, Permission>,
    before: Seq<ObjectView>,
    after: Seq<ObjectView>,
) -> bool {
    match answer {
        Ok(clients) => are_clients_scanned(
            config,
            handle,
            chain,
            clients@,
            cache_before,
            cache_after,
            before,
            after,
        ),
        Err(_) => after == before && cache_after == cache_before,
    }
}

/// Whether `after` and `cache_after` are what comes of scanning the chain
/// `chain`, after `before` and `cache_before`, with the handles `handles`
/// held afterwards, each under its name in `ids`. A chain that is not
/// configured, or for which no handle could be had, changes nothing. Else a
/// clone of the handle held for the chain is asked for all its clients, and
/// its answer is dealt with as `is_chain_scan_from` says.
pub open spec fn is_chain_scan<Chain: ChainHandle>(
    config: Config,
    ids: Seq<Seq<char>>,
    handles: Seq<Chain>,
    chain: Seq<char>,
    cache_before: Map<ClientKey, Permission>,
    cache_after: Map<ClientKey, Permission>,
    before: Seq<ObjectView>,
    after: Seq<ObjectView>,
) -> bool {
    if !config.chain_ids().contains(chain) || !ids.contains(chain) {
        after == before && cache_after == cache_before
    } else {
        exists|
            handle: Chain,
            request: QueryClientStatesRequest,
            answer: Result<Vec<IdentifiedClientState>, RelayerError>,
        |
            {
                &&& is_handle_of(ids, handles, chain, handle)
                &&& asks_for_all_clients(request)
                &&& #[trigger] call_ensures(Chain::query_clients, (&handle, request), answer)
                &&& is_chain_scan_from(
                    config,
                    &handle,
                    chain,
                    answer,
                    cache_before,
                    cache_after,
                    before,
                    after,
                )
            }
    }
}

/// Whether the chain `chain` was scanned, with some handles held
/// afterwards: see `is_chain_scan`.
pub open spec fn was_chain_scanned<Chain: ChainHandle>(
    config: Config,
    chain: Seq<char>,
    cache_before: Map<ClientKey, Permission>,
    cache_after: Map<ClientKey, Permission>,
    before: Seq<ObjectView>,
    after: Seq<ObjectView>,
) -> bool {
    exists|ids: Seq<Seq<char>>, handles: Seq<Chain>| #[trigger]
        is_chain_scan(config, ids, handles, chain, cache_before, cache_after, before, after)
}

/// Whether `after` and `cache_after` are what comes of scanning the chains
/// `chains`, one after the other, after `before` and `cache_before`: see
/// `was_chain_scanned`.
pub open spec fn are_chains_scanned<Chain: ChainHandle>(
    config: Config,
    chains: Seq<Seq<char>>,
    cache_before: Map<ClientKey, Permission>,
    cache_after: Map<ClientKey, Permission>,
    before: Seq<ObjectView>,
    after: Seq<ObjectView>,
) -> bool
    decreases chains.len(),
{
    if chains.len() == 0 {
        after == before && cache_after == cache_before
    } else {
        exists|between: Seq<ObjectView>, cache_between: Map<ClientKey, Permission>|
            {
                &&& are_chains_scanned::<Chain>(
                    config,
                    chains.drop_last(),
                    cache_before,
                    cache_between,
                    before,
                    between,
                )
                &&& #[trigger] was_chain_scanned::<Chain>(
                    config,
                    chains.last(),
                    cache_between,
                    cache_after,
                    between,
                    after,
                )
            }
    }
}

/// What the scan works on.
pub struct SpawnContext {
    pub mode: SpawnMode,
}

impl SpawnContext {
    pub fn new(mode: SpawnMode) -> (r: Self)
        ensures
            r.mode == mode,
    {
        SpawnContext { mode }
    }

    /// Starts the worker of `object`, whose source is `chain_id`, unless the
    /// object has one.
    fn spawn_one<Chain: ChainHandle, W: Worker>(
        &self,
        config: &Config,
        workers: &mut WorkerMap<W>,
        object: Object,
        src: Chain,
        dst: Chain,
        Ghost(chain): Ghost<Seq<char>>,
    )
        requires
            old(workers).wf(),
            object@.src_chain_id() == chain,
        ensures
            final(workers).wf(),
            adds_for_chain(old(workers).object_views(), final(workers).object_views(), chain),
            final(workers).object_views() == with_object(old(workers).object_views(), true, object@),
    {
        proof {
            lemma_adds_nothing(workers.object_views(), chain);
            lemma_adds_one(workers.object_views(), object@);
        }
        let _ = workers.get_or_spawn(object, src, dst, config);
    }

    /// Starts the workers that the channel end `channel` of `chain` asks
    /// for.
    ///
    /// Which they are follows from the states of the two ends: see
    /// `spec_channel_workers`.
    pub fn spawn_workers_for_channel<Chain: ChainHandle, W: Worker>(
        &self,
        config: &Config,
        registry: &mut Registry<Chain>,
        workers: &mut WorkerMap<W>,
        chain: &Chain,
        chain_id: &ChainId,
        client: &IdentifiedClientState,
        connection: &IdentifiedConnectionEnd,
        channel: &IdentifiedChannelEnd,
    )
        requires
            old(registry).wf(),
            old(workers).wf(),
        ensures
            final(registry).wf(),
            final(workers).wf(),
            grows_within(old(registry).ids(), final(registry).ids(), config.chain_ids()),
            adds_for_chain(old(workers).object_views(), final(workers).object_views(), chain_id@),
            handles_kept(old(registry).handles(), final(registry).handles()),
            is_channel_step(
                *config,
                final(registry).ids(),
                final(registry).handles(),
                old(workers).object_views(),
                final(workers).object_views(),
                chain_id@,
                *client,
                *connection,
                *channel,
            ),
    {
        proof {
            lemma_adds_nothing(workers.object_views(), chain_id@);
            assert(registry.handles().take(registry.handles().len() as int) =~= registry.handles());
        }
        let counterparty_chain = match registry.get_or_spawn(config, &client.client_state.chain_id) {
            Ok(chain) => chain,
            Err(_) => {
                return ;
            },
        };
        let chan_state_src = channel.channel_end.state;
        let answered = channel_state_on_destination(channel, connection, &counterparty_chain);
        let ghost found = answered;
        let ghost other = counterparty_chain;
        let chan_state_dst = match answered {
            Ok(state) => state,
            Err(_) => {
                assert(is_channel_scanned(
                    *config,
                    old(workers).object_views(),
                    workers.object_views(),
                    chain_id@,
                    *client,
                    *connection,
                    *channel,
                    found,
                ));
                return ;
            },
        };
        let relay_packets = relay_packets_on_channel(
            config,
            chain_id,
            &channel.port_id,
            &channel.channel_id,
        );
        let wanted = channel_workers(chan_state_src, chan_state_dst, relay_packets, config.mode);
        let ghost objects0 = workers.object_views();
        if wanted.client {
            let client_object = Object::Client(
                Client {
                    dst_client_id: connection.connection_end.counterparty.client_id.clone(),
                    dst_chain_id: client.client_state.chain_id.clone(),
                    src_chain_id: chain_id.clone(),
                },
            );
            self.spawn_one(
                config,
                workers,
                client_object,
                chain.clone(),
                counterparty_chain.clone(),
                Ghost(chain_id@),
            );
        }
        let ghost objects1 = workers.object_views();
        proof {
            lemma_adds_nothing(objects1, chain_id@);
        }
        if wanted.packets {
            let path_object = Object::Packet(
                Packet {
                    dst_chain_id: client.client_state.chain_id.clone(),
                    src_chain_id: chain_id.clone(),
                    src_channel_id: channel.channel_id.clone(),
                    src_port_id: channel.port_id.clone(),
                },
            );
            self.spawn_one(
                config,
                workers,
                path_object,
                chain.clone(),
                counterparty_chain.clone(),
                Ghost(chain_id@),
            );
        }
        let ghost objects2 = workers.object_views();
        proof {
            lemma_adds_twice(objects0, objects1, objects2, chain_id@);
            lemma_adds_nothing(objects2, chain_id@);
        }
        if wanted.channel {
            let channel_object = Object::Channel(
                Channel {
                    dst_chain_id: client.client_state.chain_id.clone(),
                    src_chain_id: chain_id.clone(),
                    src_channel_id: channel.channel_id.clone(),
                    src_port_id: channel.port_id.clone(),
                },
            );
            self.spawn_one(
                config,
                workers,
                channel_object,
                chain.clone(),
                counterparty_chain,
                Ghost(chain_id@),
            );
        }
        proof {
            lemma_adds_twice(objects0, objects2, workers.object_views(), chain_id@);
            assert(is_channel_scanned(
                *config,
                old(workers).object_views(),
                workers.object_views(),
                chain_id@,
                *client,
                *connection,
                *channel,
                found,
            ));
            assert(is_state_on_destination(*channel, *connection, &other, found));
        }
    }

    /// Starts the worker of the connection end `connection` of `chain`,
    /// where connection handshakes are relayed, the other end is not open
    /// and has come no further than this end.
    pub fn spawn_connection_workers<Chain: ChainHandle, W: Worker>(
        &self,
        config: &Config,
        registry: &mut Registry<Chain>,
        workers: &mut WorkerMap<W>,
        chain: &Chain,
        chain_id: &ChainId,
        client: &IdentifiedClientState,
        connection: &IdentifiedConnectionEnd,
    )
        requires
            old(registry).wf(),
            old(workers).wf(),
        ensures
            final(registry).wf(),
            final(workers).wf(),
            grows_within(old(registry).ids(), final(registry).ids(), config.chain_ids()),
            adds_for_chain(old(workers).object_views(), final(workers).object_views(), chain_id@),
            handles_kept(old(registry).handles(), final(registry).handles()),
            is_connection_step(
                *config,
                final(registry).ids(),
                final(registry).handles(),
                old(workers).object_views(),
                final(workers).object_views(),
                chain_id@,
                *client,
                *connection,
            ),
    {
        proof {
            lemma_adds_nothing(workers.object_views(), chain_id@);
            assert(registry.handles().take(registry.handles().len() as int) =~= registry.handles());
        }
        let counterparty_chain = match registry.get_or_spawn(config, &client.client_state.chain_id) {
            Ok(chain) => chain,
            Err(_) => {
                return ;
            },
        };
        let conn_state_src = connection.connection_end.state;
        let answered = connection_state_on_destination(connection, &counterparty_chain);
        let ghost found = answered;
        let ghost other = counterparty_chain;
        let conn_state_dst = match answered {
            Ok(state) => state,
            Err(_) => {
                assert(is_connection_scanned(
                    *config,
                    old(workers).object_views(),
                    workers.object_views(),
                    chain_id@,
                    *client,
                    *connection,
                    found,
                ));
                return ;
            },
        };
        if connection_worker(conn_state_src, conn_state_dst, config.mode) {
            let connection_object = Object::Connection(
                Connection {
                    dst_chain_id: client.client_state.chain_id.clone(),
                    src_chain_id: chain_id.clone(),
                    src_connection_id: connection.connection_id.clone(),
                },
            );
            self.spawn_one(
                config,
                workers,
                connection_object,
                chain.clone(),
                counterparty_chain,
                Ghost(chain_id@),
            );
        }
        proof {
            assert(is_connection_scanned(
                *config,
                old(workers).object_views(),
                workers.object_views(),
                chain_id@,
                *client,
                *connection,
                found,
            ));
            assert(is_connection_state_on_destination(*connection, &other, found));
        }
    }

    /// Starts the workers that the connection end `connection` of `chain`
    /// and the channels on it ask for. The channels are gone through only
    /// where the connection end is open.
    pub fn spawn_workers_for_connection<Chain: ChainHandle, W: Worker>(
        &self,
        config: &Config,
        registry: &mut Registry<Chain>,
        workers: &mut WorkerMap<W>,
        chain: &Chain,
        chain_id: &ChainId,
        client: &IdentifiedClientState,
        connection: &IdentifiedConnectionEnd,
    )
        requires
            old(registry).wf(),
            old(workers).wf(),
        ensures
            final(registry).wf(),
            final(workers).wf(),
            grows_within(old(registry).ids(), final(registry).ids(), config.chain_ids()),
            adds_for_chain(old(workers).object_views(), final(workers).object_views(), chain_id@),
            handles_kept(old(registry).handles(), final(registry).handles()),
            is_connection_scan(
                *config,
                chain,
                chain_id@,
                *client,
                *connection,
                old(workers).object_views(),
                final(workers).object_views(),
            ),
    {
        let ghost ids0 = registry.ids();
        let ghost handles0 = registry.handles();
        let ghost objects0 = workers.object_views();
        proof {
            lemma_adds_nothing(objects0, chain_id@);
            assert(ids0.take(ids0.len() as int) =~= ids0);
            assert(handles0.take(handles0.len() as int) =~= handles0);
        }
        let request = QueryConnectionChannelsRequest {
            connection_id: connection.connection_id.clone(),
            pagination: Some(PageRequest::all()),
        };
        let ghost asked = request;
        let answer = chain.query_connection_channels(request);
        let ghost answered = answer;
        proof {
            assert(asks_for_channels_of(asked, connection.connection_id));
            assert(call_ensures(Chain::query_connection_channels, (chain, asked), answered));
        }
        let connection_channels = match answer {
            Ok(channels) => channels,
            Err(_) => {
                assert(is_connection_scan_from::<Chain>(
                    *config,
                    chain_id@,
                    *client,
                    *connection,
                    answered,
                    objects0,
                    workers.object_views(),
                ));
                return ;
            },
        };
        self.spawn_connection_workers(config, registry, workers, chain, chain_id, client, connection);
        let ghost ids_c = registry.ids();
        let ghost handles_c = registry.handles();
        let ghost objects_c = workers.object_views();
        proof {
            assert(is_connection_step(
                *config,
                ids_c,
                handles_c,
                objects0,
                objects_c,
                chain_id@,
                *client,
                *connection,
            ));
            assert(was_connection_scanned::<Chain>(
                *config,
                objects0,
                objects_c,
                chain_id@,
                *client,
                *connection,
            ));
        }
        if !connection.connection_end.is_open() {
            assert(is_connection_scan_from::<Chain>(
                *config,
                chain_id@,
                *client,
                *connection,
                answered,
                objects0,
                workers.object_views(),
            ));
            return ;
        }
        let mut i: usize = 0;
        while i < connection_channels.len()
            invariant
                i <= connection_channels.len(),
                registry.wf(),
                workers.wf(),
                grows_within(ids0, registry.ids(), config.chain_ids()),
                adds_for_chain(objects0, workers.object_views(), chain_id@),
                handles_kept(handles0, registry.handles()),
                are_channels_scanned::<Chain>(
                    *config,
                    chain_id@,
                    *client,
                    *connection,
                    connection_channels@.take(i as int),
                    objects_c,
                    workers.object_views(),
                ),
            decreases connection_channels.len() - i,
        {
            let ghost ids1 = registry.ids();
            let ghost handles1 = registry.handles();
            let ghost objects1 = workers.object_views();
            self.spawn_workers_for_channel(
                config,
                registry,
                workers,
                chain,
                chain_id,
                client,
                connection,
                &connection_channels[i],
            );
            proof {
                lemma_grows_twice(ids0, ids1, registry.ids(), config.chain_ids());
                lemma_adds_twice(objects0, objects1, workers.object_views(), chain_id@);
                lemma_handles_kept_twice(handles0, handles1, registry.handles());
                let seen = connection_channels@.take(i + 1);
                assert(seen.drop_last() == connection_channels@.take(i as int));
                assert(seen.last() == connection_channels@[i as int]);
                assert(is_channel_step(
                    *config,
                    registry.ids(),
                    registry.handles(),
                    objects1,
                    workers.object_views(),
                    chain_id@,
                    *client,
                    *connection,
                    seen.last(),
                ));
                assert(was_channel_scanned::<Chain>(
                    *config,
                    objects1,
                    workers.object_views(),
                    chain_id@,
                    *client,
                    *connection,
                    seen.last(),
                ));
                assert(are_channels_scanned::<Chain>(
                    *config,
                    chain_id@,
                    *client,
                    *connection,
                    seen,
                    objects_c,
                    workers.object_views(),
                ));
            }
            i = i + 1;
        }
        proof {
            assert(connection_channels@.take(connection_channels@.len() as int)
                == connection_channels@);
            assert(is_connection_scan_from::<Chain>(
                *config,
                chain_id@,
                *client,
                *connection,
                answered,
                objects0,
                workers.object_views(),
            ));
        }
    }

    /// Starts the workers that the client `client` of `chain` asks for:
    /// those of its connections and of their channels.
    ///
    /// A client that the filter denies is passed over, and so is one that
    /// follows a chain that is not configured.
    pub fn spawn_workers_for_client<Chain: ChainHandle, W: Worker>(
        &self,
        config: &Config,
        registry: &mut Registry<Chain>,
        client_state_filter: &mut FilterPolicy,
        workers: &mut WorkerMap<W>,
        chain: &Chain,
        chain_id: &ChainId,
        client: &IdentifiedClientState,
    )
        requires
            old(registry).wf(),
            old(client_state_filter).wf(),
            old(workers).wf(),
        ensures
            final(registry).wf(),
            final(client_state_filter).wf(),
            final(workers).wf(),
            grows_within(old(registry).ids(), final(registry).ids(), config.chain_ids()),
            cache_extends(old(client_state_filter).cache(), final(client_state_filter).cache()),
            adds_for_chain(old(workers).object_views(), final(workers).object_views(), chain_id@),
            !config.chain_ids().contains(client.client_state.chain_id@) ==> final(workers).object_views() == old(workers).object_views(),
            handles_kept(old(registry).handles(), final(registry).handles()),
            is_client_scan(
                *config,
                chain,
                chain_id@,
                *client,
                old(client_state_filter).cache(),
                final(client_state_filter).cache(),
                old(workers).object_views(),
                final(workers).object_views(),
            ),
    {
        let ghost ids0 = registry.ids();
        let ghost handles0 = registry.handles();
        let ghost objects0 = workers.object_views();
        proof {
            lemma_adds_nothing(objects0, chain_id@);
            assert(ids0.take(ids0.len() as int) =~= ids0);
            assert(handles0.take(handles0.len() as int) =~= handles0);
        }
        if config.mode.packets.filter {
            let permission = client_state_filter.control_client(
                chain_id,
                &client.client_id,
                &client.client_state,
            );
            if permission == Permission::Deny {
                return ;
            }
        }
        if !config.has_chain(&client.client_state.chain_id) {
            return ;
        }
        let request = QueryClientConnectionsRequest { client_id: client.client_id.clone() };
        let ghost asked = request;
        let answer = chain.query_client_connections(request);
        let ghost answered = answer;
        proof {
            assert(call_ensures(Chain::query_client_connections, (chain, asked), answered));
        }
        let client_connections = match answer {
            Ok(connections) => connections,
            Err(_) => {
                assert(is_client_scan_from(
                    *config,
                    chain,
                    chain_id@,
                    *client,
                    answered,
                    objects0,
                    workers.object_views(),
                ));
                return ;
            },
        };
        let mut i: usize = 0;
        while i < client_connections.len()
            invariant
                i <= client_connections.len(),
                registry.wf(),
                workers.wf(),
                grows_within(ids0, registry.ids(), config.chain_ids()),
                adds_for_chain(objects0, workers.object_views(), chain_id@),
                handles_kept(handles0, registry.handles()),
                are_connections_scanned(
                    *config,
                    chain,
                    chain_id@,
                    *client,
                    client_connections@.take(i as int),
                    objects0,
                    workers.object_views(),
                ),
            decreases client_connections.len() - i,
        {
            let connection_id = client_connections[i].clone();
            let ghost objects1 = workers.object_views();
            let ghost handles1 = registry.handles();
            let found = chain.query_connection(&connection_id, Height::zero());
            let ghost given = found;
            match found {
                Ok(connection_end) => {
                    let connection = IdentifiedConnectionEnd { connection_id, connection_end };
                    let ghost ids1 = registry.ids();
                    self.spawn_workers_for_connection(
                        config,
                        registry,
                        workers,
                        chain,
                        chain_id,
                        client,
                        &connection,
                    );
                    proof {
                        lemma_grows_twice(ids0, ids1, registry.ids(), config.chain_ids());
                        lemma_adds_twice(objects0, objects1, workers.object_views(), chain_id@);
                        lemma_handles_kept_twice(handles0, handles1, registry.handles());
                    }
                },
                Err(_) => {},
            }
            proof {
                let seen = client_connections@.take(i + 1);
                assert(seen.drop_last() == client_connections@.take(i as int));
                assert(seen.last() == client_connections@[i as int]);
                assert(call_ensures(
                    Chain::query_connection,
                    (chain, &seen.last(), Height::zero()),
                    given,
                ));
                assert(is_listed_connection_scan(
                    *config,
                    chain,
                    chain_id@,
                    *client,
                    seen.last(),
                    objects1,
                    workers.object_views(),
                ));
                assert(are_connections_scanned(
                    *config,
                    chain,
                    chain_id@,
                    *client,
                    seen,
                    objects0,
                    workers.object_views(),
                ));
            }
            i = i + 1;
        }
        proof {
            assert(client_connections@.take(client_connections@.len() as int)
                == client_connections@);
            assert(is_client_scan_from(
                *config,
                chain,
                chain_id@,
                *client,
                answered,
                objects0,
                workers.object_views(),
            ));
        }
    }

    /// Starts the workers that the chain `chain_id` asks for: those of its
    /// clients, of their connections and of their channels.
    ///
    /// Nothing is started for a chain that is not configured or cannot be
    /// reached. Every worker started has the chain as the source of its
    /// object; the workers that were there stay.
    pub fn spawn_workers_for_chain<Chain: ChainHandle, W: Worker>(
        &self,
        config: &Config,
        registry: &mut Registry<Chain>,
        client_state_filter: &mut FilterPolicy,
        workers: &mut WorkerMap<W>,
        chain_id: &ChainId,
    )
        requires
            old(registry).wf(),
            old(client_state_filter).wf(),
            old(workers).wf(),
        ensures
            final(registry).wf(),
            final(client_state_filter).wf(),
            final(workers).wf(),
            grows_within(old(registry).ids(), final(registry).ids(), config.chain_ids()),
            cache_extends(old(client_state_filter).cache(), final(client_state_filter).cache()),
            adds_for_chain(old(workers).object_views(), final(workers).object_views(), chain_id@),
            !config.chain_ids().contains(chain_id@) ==> final(workers).object_views() == old(workers).object_views(),
            handles_kept(old(registry).handles(), final(registry).handles()),
            is_chain_scan(
                *config,
                final(registry).ids(),
                final(registry).handles(),
                chain_id@,
                old(client_state_filter).cache(),
                final(client_state_filter).cache(),
                old(workers).object_views(),
                final(workers).object_views(),
            ),
    {
        let ghost ids0 = registry.ids();
        let ghost handles0 = registry.handles();
        let ghost cache0 = client_state_filter.cache();
        let ghost objects0 = workers.object_views();
        proof {
            lemma_adds_nothing(objects0, chain_id@);
            assert(ids0.take(ids0.len() as int) =~= ids0);
            assert(handles0.take(handles0.len() as int) =~= handles0);
        }
        if !config.has_chain(chain_id) {
            return ;
        }
        let chain = match registry.get_or_spawn(config, chain_id) {
            Ok(chain) => chain,
            Err(_) => {
                return ;
            },
        };
        let ghost ids_h = registry.ids();
        let ghost handles_h = registry.handles();
        proof {
            assert(ids_h.take(ids_h.len() as int) =~= ids_h);
            assert(handles_h.take(handles_h.len() as int) =~= handles_h);
        }
        let request = QueryClientStatesRequest { pagination: Some(PageRequest::all()) };
        let ghost asked = request;
        let answer = chain.query_clients(request);
        let ghost answered = answer;
        proof {
            assert(asks_for_all_clients(asked));
            assert(call_ensures(Chain::query_clients, (&chain, asked), answered));
        }
        let clients = match answer {
            Ok(clients) => clients,
            Err(_) => {
                assert(is_chain_scan_from(
                    *config,
                    &chain,
                    chain_id@,
                    answered,
                    cache0,
                    client_state_filter.cache(),
                    objects0,
                    workers.object_views(),
                ));
                return ;
            },
        };
        let mut i: usize = 0;
        while i < clients.len()
            invariant
                i <= clients.len(),
                registry.wf(),
                client_state_filter.wf(),
                workers.wf(),
                grows_within(ids0, registry.ids(), config.chain_ids()),
                grows_within(ids_h, registry.ids(), config.chain_ids()),
                cache_extends(cache0, client_state_filter.cache()),
                adds_for_chain(objects0, workers.object_views(), chain_id@),
                handles_kept(handles0, registry.handles()),
                handles_kept(handles_h, registry.handles()),
                are_clients_scanned(
                    *config,
                    &chain,
                    chain_id@,
                    clients@.take(i as int),
                    cache0,
                    client_state_filter.cache(),
                    objects0,
                    workers.object_views(),
                ),
            decreases clients.len() - i,
        {
            let ghost ids1 = registry.ids();
            let ghost handles1 = registry.handles();
            let ghost cache1 = client_state_filter.cache();
            let ghost objects1 = workers.object_views();
            self.spawn_workers_for_client(
                config,
                registry,
                client_state_filter,
                workers,
                &chain,
                chain_id,
                &clients[i],
            );
            proof {
                lemma_grows_twice(ids0, ids1, registry.ids(), config.chain_ids());
                lemma_grows_twice(ids_h, ids1, registry.ids(), config.chain_ids());
                lemma_adds_twice(objects0, objects1, workers.object_views(), chain_id@);
                lemma_handles_kept_twice(handles0, handles1, registry.handles());
                lemma_handles_kept_twice(handles_h, handles1, registry.handles());
                crate::supervisor::client_state_filter::lemma_cache_extends_twice(
                    cache0,
                    cache1,
                    client_state_filter.cache(),
                );
                let seen = clients@.take(i + 1);
                assert(seen.drop_last() == clients@.take(i as int));
                assert(seen.last() == clients@[i as int]);
                assert(is_client_scan(
                    *config,
                    &chain,
                    chain_id@,
                    seen.last(),
                    cache1,
                    client_state_filter.cache(),
                    objects1,
                    workers.object_views(),
                ));
                assert(are_clients_scanned(
                    *config,
                    &chain,
                    chain_id@,
                    seen,
                    cache0,
                    client_state_filter.cache(),
                    objects0,
                    workers.object_views(),
                ));
            }
            i = i + 1;
        }
        proof {
            assert(clients@.take(clients@.len() as int) == clients@);
            assert(is_chain_scan_from(
                *config,
                &chain,
                chain_id@,
                answered,
                cache0,
                client_state_filter.cache(),
                objects0,
                workers.object_views(),
            ));
            lemma_handle_stays(
                ids_h,
                handles_h,
                registry.ids(),
                registry.handles(),
                chain_id@,
                chain,
            );
        }
    }

    /// Starts the workers that the configured chains ask for, chain by
    /// chain. Every worker started has a configured chain as the source of
    /// its object; the workers that were there stay.
    pub fn spawn_workers<Chain: ChainHandle, W: Worker>(
        &self,
        config: &Config,
        registry: &mut Registry<Chain>,
        client_state_filter: &mut FilterPolicy,
        workers: &mut WorkerMap<W>,
    )
        requires
            old(registry).wf(),
            old(client_state_filter).wf(),
            old(workers).wf(),
        ensures
            final(registry).wf(),
            final(client_state_filter).wf(),
            final(workers).wf(),
            grows_within(old(registry).ids(), final(registry).ids(), config.chain_ids()),
            cache_extends(old(client_state_filter).cache(), final(client_state_filter).cache()),
            adds_within(
                old(workers).object_views(),
                final(workers).object_views(),
                config.chain_ids(),
            ),
            handles_kept(old(registry).handles(), final(registry).handles()),
            are_chains_scanned::<Chain>(
                *config,
                config.chain_ids(),
                old(client_state_filter).cache(),
                final(client_state_filter).cache(),
                old(workers).object_views(),
                final(workers).object_views(),
            ),
    {
        let ghost ids0 = registry.ids();
        let ghost handles0 = registry.handles();
        let ghost cache0 = client_state_filter.cache();
        let ghost objects0 = workers.object_views();
        proof {
            assert(objects0.take(objects0.len() as int) =~= objects0);
            assert(ids0.take(ids0.len() as int) =~= ids0);
            assert(handles0.take(handles0.len() as int) =~= handles0);
        }
        let mut i: usize = 0;
        while i < config.chains.len()
            invariant
                i <= config.chains.len(),
                registry.wf(),
                client_state_filter.wf(),
                workers.wf(),
                grows_within(ids0, registry.ids(), config.chain_ids()),
                cache_extends(cache0, client_state_filter.cache()),
                adds_within(objects0, workers.object_views(), config.chain_ids()),
                handles_kept(handles0, registry.handles()),
                are_chains_scanned::<Chain>(
                    *config,
                    config.chain_ids().take(i as int),
                    cache0,
                    client_state_filter.cache(),
                    objects0,
                    workers.object_views(),
                ),
            decreases config.chains.len() - i,
        {
            let ghost ids1 = registry.ids();
            let ghost handles1 = registry.handles();
            let ghost cache1 = client_state_filter.cache();
            let ghost objects1 = workers.object_views();
            self.spawn_workers_for_chain(
                config,
                registry,
                client_state_filter,
                workers,
                &config.chains[i].id,
            );
            proof {
                lemma_handles_kept_twice(handles0, handles1, registry.handles());
                crate::supervisor::client_state_filter::lemma_cache_extends_twice(
                    cache0,
                    cache1,
                    client_state_filter.cache(),
                );
                let seen = config.chain_ids().take(i + 1);
                assert(seen.drop_last() == config.chain_ids().take(i as int));
                assert(seen.last() == config.chains@[i as int].id@);
                assert(is_chain_scan(
                    *config,
                    registry.ids(),
                    registry.handles(),
                    seen.last(),
                    cache1,
                    client_state_filter.cache(),
                    objects1,
                    workers.object_views(),
                ));
                assert(was_chain_scanned::<Chain>(
                    *config,
                    seen.last(),
                    cache1,
                    client_state_filter.cache(),
                    objects1,
                    workers.object_views(),
                ));
                assert(are_chains_scanned::<Chain>(
                    *config,
                    seen,
                    cache0,
                    client_state_filter.cache(),
                    objects0,
                    workers.object_views(),
                ));
                lemma_grows_twice(ids0, ids1, registry.ids(), config.chain_ids());
                let objects2 = workers.object_views();
                let chain = config.chains@[i as int].id@;
                assert(config.chain_ids()[i as int] == chain);
                assert(objects2.take(objects0.len() as int) =~= objects2.take(
                    objects1.len() as int,
                ).take(objects0.len() as int));
                assert forall|k: int| objects0.len() <= k < objects2.len() implies config.chain_ids().contains(
                    (#[trigger] objects2[k]).src_chain_id(),
                ) by {
                    if k < objects1.len() {
                        assert(objects2.take(objects1.len() as int)[k] == objects1[k]);
                    }
                }
            }
            i = i + 1;
        }
        proof {
            assert(config.chain_ids().take(config.chains@.len() as int) == config.chain_ids());
        }
    }

    /// Stops the workers whose object has the chain as its source.
    pub fn shutdown_workers_for_chain<W: Worker>(&self, workers: &mut WorkerMap<W>, chain_id: &ChainId)
        requires
            old(workers).wf(),
        ensures
            final(workers).wf(),
            final(workers).object_views() == crate::worker::without_chain(
                old(workers).object_views(),
                chain_id@,
            ),
            final(workers).worker_seq() == crate::worker::workers_without_chain(
                old(workers).object_views(),
                old(workers).worker_seq(),
                chain_id@,
            ),
            forall|k: int|
                0 <= k < old(workers).object_views().len() && (
                #[trigger] old(workers).object_views()[k]).src_chain_id() == chain_id@
                    ==> crate::worker::is_stopped(old(workers).worker_seq()[k]),
    {
        workers.shutdown_workers_for_chain(chain_id);
    }
}

/// Whether `after` is `before` with objects added at the end, each with one
/// of `chains` as its source.
pub open spec fn adds_within(
    before: Seq<ObjectView>,
    after: Seq<ObjectView>,
    chains: Seq<Seq<char>>,
) -> bool {
    &&& before.len() <= after.len()
    &&& after.take(before.len() as int) == before
    &&& forall|i: int|
        before.len() <= i < after.len() ==> chains.contains((#[trigger] after[i]).src_chain_id())
}

} // verus!
