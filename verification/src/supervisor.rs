//! The supervisor: it sorts the events of the chains by the objects they
//! concern and hands them to the workers.

pub mod client_state_filter;
pub mod cmd;
pub mod dump_state;
pub mod error;
pub mod spawn;

use crate::chain::handle::ArcBatch;
use crate::chain::handle::ChainHandle;
use crate::chain::handle::HealthCheck;
use crate::chain::handle::Subscription;
use crate::config::ChainConfig;
use crate::config::chains_without;
use crate::config::Config;
use crate::config::ids_of;
use crate::config::lemma_push_then_chains_without;
use crate::config::ModeConfig;
use crate::error::Error as RelayerError;
use crate::event::EventBatch;
use crate::event::ChannelAttributes;
use crate::event::ConnectionAttributes;
use crate::event::IbcEvent;
use crate::event::NewBlock;
use crate::event::MonitorError;
use crate::identifier::ChainId;
use crate::identifier::ChannelId;
use crate::identifier::Height;
use crate::identifier::PortId;
use crate::object::Object;
use crate::object::ObjectError;
use crate::object::ObjectView;
use crate::registry::distinct_names;
use crate::registry::grows_within;
use crate::registry::handles_kept;
use crate::registry::lemma_handle_stays;
use crate::registry::lemma_handles_kept_twice;
use crate::registry::is_handle_of;
use crate::registry::lemma_grows_keeps;
use crate::registry::lemma_grows_twice;
use crate::registry::lemma_push_then_without;
use crate::registry::lemma_without_name_contains;
use crate::registry::names_within;
use crate::registry::Registry;
use crate::registry::SpawnError;
use crate::registry::without_name;
use crate::rest::Command as RestCommand;
use crate::rest::RequestReceiver;
use crate::supervisor::client_state_filter::cache_extends;
use crate::supervisor::client_state_filter::is_connection_controlled;
use crate::supervisor::client_state_filter::is_channel_controlled;
use crate::supervisor::client_state_filter::ClientKey;
use crate::supervisor::client_state_filter::FilterError;
use crate::supervisor::client_state_filter::FilterPolicy;
use crate::supervisor::client_state_filter::lemma_cache_extends_twice;
use crate::supervisor::client_state_filter::Permission;
use crate::supervisor::cmd::CmdEffect;
use crate::supervisor::cmd::ConfigUpdate;
use crate::supervisor::cmd::SupervisorCmd;
use crate::supervisor::dump_state::SupervisorState;
use crate::supervisor::error::Error;
use crate::supervisor::spawn::adds_for_chain;
use crate::supervisor::spawn::adds_within;
use crate::supervisor::spawn::lemma_adds_nothing;
use crate::supervisor::spawn::lemma_adds_one;
use crate::supervisor::spawn::lemma_adds_twice;
use crate::supervisor::spawn::SpawnContext;
use crate::supervisor::spawn::SpawnMode;
use crate::util::channel::is_offered;
use crate::util::channel::is_received;
use crate::util::channel::is_received_among;
use crate::util::channel::is_sent;
use crate::util::channel::offer_through;
use crate::util::channel::queues;
use crate::util::channel::receive_among;
use crate::util::channel::receive_from;
use crate::util::channel::send_through;
use crate::util::channel::unbounded;
use crate::worker::lemma_without_absent_chain;
use crate::worker::lemma_without_chain_added;
use crate::worker::sources_within;
use crate::worker::without_chain;
use crate::worker::Worker;
use crate::worker::WorkerMap;
use crossbeam_channel::Receiver;
use crossbeam_channel::Sender;
use vstd::prelude::*;

verus! {

/// Whether the relayer acts only for objects whose clients trust as the
/// rules say.
pub fn client_filter_enabled(config: &Config) -> (r: bool)
    ensures
        r == config.mode.packets.filter,
{
    config.mode.packets.filter
}

/// Whether the relayer relays packets only on the channels that the
/// configuration allows.
pub fn channel_filter_enabled(config: &Config) -> (r: bool)
    ensures
        r == config.mode.packets.filter,
{
    config.mode.packets.filter
}

/// Whether packets on the channel are relayed: on every channel where the
/// channel filter is off, else where the configuration allows the channel.
pub fn relay_packets_on_channel(
    config: &Config,
    chain_id: &ChainId,
    port_id: &PortId,
    channel_id: &ChannelId,
) -> (r: bool)
    ensures
        r == (!config.mode.packets.filter || config.spec_packets_on_channel_allowed(
            chain_id@,
            port_id@,
            channel_id@,
        )),
{
    if !channel_filter_enabled(config) {
        return true;
    }
    config.packets_on_channel_allowed(chain_id, port_id, channel_id)
}

/// What follows from the filter on clients: the relayer acts where the
/// filter allows, and does not where it denies or could not decide.
pub fn permitted(outcome: &Result<Permission, FilterError>) -> (r: bool)
    ensures
        r == (*outcome == Ok::<Permission, FilterError>(Permission::Allow)),
{
    match outcome {
        Ok(Permission::Allow) => true,
        Ok(Permission::Deny) => false,
        Err(_) => false,
    }
}

/// Whether `p` is the verdict of the filter on clients on `object`, with
/// the decisions `before` taken before and `after` afterwards: for a client,
/// the decision kept for it; for a connection, see
/// `is_connection_controlled`; for a channel or the packets of a channel,
/// see `is_channel_controlled`.
pub open spec fn is_verdict_on<Chain: ChainHandle>(
    ids: Seq<Seq<char>>,
    handles: Seq<Chain>,
    before: Map<ClientKey, Permission>,
    after: Map<ClientKey, Permission>,
    object: Object,
    p: Permission,
) -> bool {
    match object {
        Object::Client(c) => after.contains_key((c.dst_chain_id@, c.dst_client_id@)) && after[(
            c.dst_chain_id@,
            c.dst_client_id@,
        )] == p,
        Object::Connection(c) => is_connection_controlled(
            ids,
            handles,
            before,
            after,
            c.src_chain_id@,
            c.src_connection_id,
            p,
        ),
        Object::Channel(c) => is_channel_controlled(
            ids,
            handles,
            before,
            after,
            c.src_chain_id@,
            c.src_port_id,
            c.src_channel_id,
            p,
        ),
        Object::Packet(c) => is_channel_controlled(
            ids,
            handles,
            before,
            after,
            c.src_chain_id@,
            c.src_port_id,
            c.src_channel_id,
            p,
        ),
    }
}

/// Whether the relayer acts for `object`.
///
/// With the filter off it does. With the filter on, packets are relayed
/// only on the channels that the configuration allows for `chain_id`; a
/// packet object that fails there is denied before any chain is asked. Then
/// the clients under the object decide: the relayer acts where the filter on
/// clients allows, and does not where it denies or cannot decide.
pub fn relay_on_object<Chain: ChainHandle>(
    config: &Config,
    registry: &mut Registry<Chain>,
    client_state_filter: &mut FilterPolicy,
    chain_id: &ChainId,
    object: &Object,
) -> (r: bool)
    requires
        old(registry).wf(),
        old(client_state_filter).wf(),
    ensures
        final(registry).wf(),
        final(client_state_filter).wf(),
        grows_within(old(registry).ids(), final(registry).ids(), config.chain_ids()),
        cache_extends(old(client_state_filter).cache(), final(client_state_filter).cache()),
        !config.mode.packets.filter ==> r,
        config.mode.packets.filter && (object matches Object::Packet(p)
            && !config.spec_packets_on_channel_allowed(
            chain_id@,
            p.src_port_id@,
            p.src_channel_id@,
        )) ==> !r,
        !config.mode.packets.filter || (object matches Object::Packet(p)
            && !config.spec_packets_on_channel_allowed(
            chain_id@,
            p.src_port_id@,
            p.src_channel_id@,
        )) ==> final(registry).ids() == old(registry).ids() && final(registry).handles()
            == old(registry).handles() && final(client_state_filter).cache() == old(client_state_filter).cache(),
        handles_kept(old(registry).handles(), final(registry).handles()),
        config.mode.packets.filter && r ==> is_verdict_on(
            final(registry).ids(),
            final(registry).handles(),
            old(client_state_filter).cache(),
            final(client_state_filter).cache(),
            *object,
            Permission::Allow,
        ),
        config.mode.packets.filter && !r ==> {
            ||| is_denied_by_allowlist(*config, chain_id@, object@)
            ||| final(client_state_filter).cache() == old(client_state_filter).cache()
            ||| is_verdict_on(
                final(registry).ids(),
                final(registry).handles(),
                old(client_state_filter).cache(),
                final(client_state_filter).cache(),
                *object,
                Permission::Deny,
            )
        },
{
    assert(registry.ids().take(registry.ids().len() as int) =~= registry.ids());
    assert(registry.handles().take(registry.handles().len() as int) =~= registry.handles());
    if !channel_filter_enabled(config) && !client_filter_enabled(config) {
        return true;
    }
    match object {
        Object::Packet(u) => {
            if !relay_packets_on_channel(config, chain_id, &u.src_port_id, &u.src_channel_id) {
                return false;
            }
        },
        _ => {},
    }
    let client_filter_outcome = match object {
        Object::Client(client) => client_state_filter.control_client_object(
            registry,
            config,
            client,
        ),
        Object::Connection(conn) => client_state_filter.control_conn_object(registry, config, conn),
        Object::Channel(chan) => client_state_filter.control_chan_object(registry, config, chan),
        Object::Packet(u) => client_state_filter.control_packet_object(registry, config, u),
    };
    permitted(&client_filter_outcome)
}

/// Whether `object` is the packets of the channel end `(port, channel)` of
/// `chain`.
pub open spec fn is_packet_of(
    object: ObjectView,
    chain: Seq<char>,
    port: Seq<char>,
    channel: Seq<char>,
) -> bool {
    object matches ObjectView::Packet { src_chain_id, src_channel_id, src_port_id, .. }
        && src_chain_id == chain && src_channel_id == channel && src_port_id == port
}

/// Whether `object` is the channel end `(port, channel)` of `chain`.
pub open spec fn is_channel_of(
    object: ObjectView,
    chain: Seq<char>,
    port: Seq<char>,
    channel: Seq<char>,
) -> bool {
    object matches ObjectView::Channel { src_chain_id, src_channel_id, src_port_id, .. }
        && src_chain_id == chain && src_channel_id == channel && src_port_id == port
}

/// Whether `object` is the connection end `connection` of `chain`.
pub open spec fn is_connection_of(object: ObjectView, chain: Seq<char>, connection: Seq<char>) -> bool {
    object matches ObjectView::Connection { src_chain_id, src_connection_id, .. } && src_chain_id
        == chain && src_connection_id == connection
}

/// Whether `object` is a client that follows `chain`.
pub open spec fn is_client_following(object: ObjectView, chain: Seq<char>) -> bool {
    object matches ObjectView::Client { src_chain_id, .. } && src_chain_id == chain
}

/// Whether `object` is the client `client` on `chain`.
pub open spec fn is_client_on(object: ObjectView, chain: Seq<char>, client: Seq<char>) -> bool {
    object matches ObjectView::Client { dst_chain_id, dst_client_id, .. } && dst_chain_id == chain
        && dst_client_id == client
}

/// Whether `event`, emitted by `chain`, is handed to the worker of `object`,
/// with what is relayed as `mode` says and workers for `workers`.
///
/// The update of a client goes to that client's worker, and only where there
/// is one. An event of the connection handshake, but for the last, goes to
/// the connection. `OpenInit` and `OpenTry` of a channel go to the channel;
/// `OpenAck` goes to a client that follows the chain, to the packets of the
/// channel and to the channel; `OpenConfirm` to such a client and to the
/// packets. A packet sent or timed out goes to the packets of the channel
/// that sent it, an acknowledgement written to those of the channel that
/// received the packet, the closing of a channel to its packets. No other
/// event goes to any worker. Each kind of object takes events only where
/// `mode` enables it.
pub open spec fn routes(
    event: IbcEvent,
    object: ObjectView,
    chain: Seq<char>,
    mode: ModeConfig,
    workers: Seq<ObjectView>,
) -> bool {
    match event {
        IbcEvent::UpdateClient(a) => {
            &&& mode.clients.enabled
            &&& is_client_on(object, chain, a.client_id@)
            &&& workers.contains(object)
        },
        IbcEvent::OpenInitConnection(a) => {
            &&& mode.connections.enabled
            &&& a.connection_id matches Some(id)
            &&& is_connection_of(object, chain, id@)
        },
        IbcEvent::OpenTryConnection(a) => {
            &&& mode.connections.enabled
            &&& a.connection_id matches Some(id)
            &&& is_connection_of(object, chain, id@)
        },
        IbcEvent::OpenAckConnection(a) => {
            &&& mode.connections.enabled
            &&& a.connection_id matches Some(id)
            &&& is_connection_of(object, chain, id@)
        },
        IbcEvent::OpenInitChannel(a) => {
            &&& mode.channels.enabled
            &&& a.channel_id matches Some(id)
            &&& is_channel_of(object, chain, a.port_id@, id@)
        },
        IbcEvent::OpenTryChannel(a) => {
            &&& mode.channels.enabled
            &&& a.channel_id matches Some(id)
            &&& is_channel_of(object, chain, a.port_id@, id@)
        },
        IbcEvent::OpenAckChannel(a) => {
            &&& a.channel_id matches Some(id)
            &&& {
                ||| mode.clients.enabled && is_client_following(object, chain)
                ||| mode.packets.enabled && is_packet_of(object, chain, a.port_id@, id@)
                ||| mode.channels.enabled && is_channel_of(object, chain, a.port_id@, id@)
            }
        },
        IbcEvent::OpenConfirmChannel(a) => {
            &&& a.channel_id matches Some(id)
            &&& {
                ||| mode.clients.enabled && is_client_following(object, chain)
                ||| mode.packets.enabled && is_packet_of(object, chain, a.port_id@, id@)
            }
        },
        IbcEvent::SendPacket(e) => {
            &&& mode.packets.enabled
            &&& is_packet_of(object, chain, e.packet.source_port@, e.packet.source_channel@)
        },
        IbcEvent::TimeoutPacket(e) => {
            &&& mode.packets.enabled
            &&& is_packet_of(object, chain, e.packet.source_port@, e.packet.source_channel@)
        },
        IbcEvent::WriteAcknowledgement(e) => {
            &&& mode.packets.enabled
            &&& is_packet_of(
                object,
                chain,
                e.packet.destination_port@,
                e.packet.destination_channel@,
            )
        },
        IbcEvent::CloseInitChannel(a) => {
            &&& mode.packets.enabled
            &&& a.channel_id matches Some(id)
            &&& is_packet_of(object, chain, a.port_id@, id@)
        },
        _ => false,
    }
}

/// An event goes to the worker of an object whose source is the chain that
/// emitted it, or, where it is the update of a client, to a worker that is
/// there already.
pub proof fn lemma_routes_from_source(
    event: IbcEvent,
    object: ObjectView,
    chain: Seq<char>,
    mode: ModeConfig,
    workers: Seq<ObjectView>,
)
    requires
        routes(event, object, chain, mode, workers),
    ensures
        object.src_chain_id() == chain || (event is UpdateClient && workers.contains(object)),
        event is UpdateClient ==> workers.contains(object),
{
}

/// Whether the events `picked` are events of `all`, in the order of `all`,
/// each place of `all` picked once at most: `picked` is what is left of
/// `all` when some of its events are struck out.
pub open spec fn in_order(picked: Seq<IbcEvent>, all: Seq<IbcEvent>) -> bool
    decreases picked.len() + all.len(),
{
    if picked.len() == 0 {
        true
    } else if all.len() == 0 {
        false
    } else {
        (picked.last() == all.last() && in_order(picked.drop_last(), all.drop_last()))
            || in_order(picked, all.drop_last())
    }
}

proof fn lemma_in_order_more(picked: Seq<IbcEvent>, all: Seq<IbcEvent>, event: IbcEvent)
    requires
        in_order(picked, all),
    ensures
        in_order(picked, all.push(event)),
{
    assert(all.push(event).drop_last() == all);
}

proof fn lemma_in_order_pick(picked: Seq<IbcEvent>, all: Seq<IbcEvent>, event: IbcEvent)
    requires
        in_order(picked, all),
    ensures
        in_order(picked.push(event), all.push(event)),
{
    assert(picked.push(event).drop_last() == picked);
    assert(all.push(event).drop_last() == all);
}

/// Events that are picked in order are no more than what they are picked
/// from.
pub proof fn lemma_in_order_is_shorter(picked: Seq<IbcEvent>, all: Seq<IbcEvent>)
    requires
        in_order(picked, all),
    ensures
        picked.len() <= all.len(),
    decreases picked.len() + all.len(),
{
    if picked.len() > 0 && all.len() > 0 {
        if picked.last() == all.last() && in_order(picked.drop_last(), all.drop_last()) {
            lemma_in_order_is_shorter(picked.drop_last(), all.drop_last());
        } else {
            lemma_in_order_is_shorter(picked, all.drop_last());
        }
    }
}

/// Events that are picked in order are events of what they are picked from.
pub proof fn lemma_in_order_contains(picked: Seq<IbcEvent>, all: Seq<IbcEvent>, m: int)
    requires
        in_order(picked, all),
        0 <= m < picked.len(),
    ensures
        all.contains(picked[m]),
    decreases picked.len() + all.len(),
{
    if all.len() > 0 {
        if picked.last() == all.last() && in_order(picked.drop_last(), all.drop_last()) {
            if m == picked.len() - 1 {
                assert(all[all.len() - 1] == picked[m]);
            } else {
                lemma_in_order_contains(picked.drop_last(), all.drop_last(), m);
                let k = choose|k: int|
                    0 <= k < all.drop_last().len() && all.drop_last()[k] == picked.drop_last()[m];
                assert(all[k] == picked[m]);
            }
        } else {
            lemma_in_order_contains(picked, all.drop_last(), m);
            let k = choose|k: int| 0 <= k < all.drop_last().len() && all.drop_last()[k] == picked[m];
            assert(all[k] == picked[m]);
        }
    }
}

/// Whether the batch `events` of `chain` gives reason to start the worker
/// of `object`: one of its events, which is not the update of a client,
/// goes to the object.
pub open spec fn started_by(
    object: ObjectView,
    events: Seq<IbcEvent>,
    chain: Seq<char>,
    mode: ModeConfig,
    known: Seq<ObjectView>,
) -> bool {
    exists|i: int|
        0 <= i < events.len() && !((#[trigger] events[i]) is UpdateClient) && routes(
            events[i],
            object,
            chain,
            mode,
            known,
        )
}

/// Whether `after` is `before` with objects added at the end for each of
/// which the batch `events` of `chain` gives reason to start its worker.
pub open spec fn starts_by_batch(
    before: Seq<ObjectView>,
    after: Seq<ObjectView>,
    events: Seq<IbcEvent>,
    chain: Seq<char>,
    mode: ModeConfig,
) -> bool {
    &&& before.len() <= after.len()
    &&& after.take(before.len() as int) == before
    &&& forall|i: int|
        before.len() <= i < after.len() ==> started_by(#[trigger] after[i], events, chain, mode, before)
}

/// The workers that a batch starts have the chain of the batch as the
/// source of their objects.
pub proof fn lemma_batch_starts_for_its_chain(
    before: Seq<ObjectView>,
    after: Seq<ObjectView>,
    events: Seq<IbcEvent>,
    chain: Seq<char>,
    mode: ModeConfig,
)
    requires
        starts_by_batch(before, after, events, chain, mode),
    ensures
        adds_for_chain(before, after, chain),
{
    assert forall|i: int| before.len() <= i < after.len() implies (
    #[trigger] after[i]).src_chain_id() == chain by {
        assert(started_by(after[i], events, chain, mode, before));
        let k = choose|k: int|
            0 <= k < events.len() && !((#[trigger] events[k]) is UpdateClient) && routes(
                events[k],
                after[i],
                chain,
                mode,
                before,
            );
        lemma_routes_from_source(events[k], after[i], chain, mode, before);
    }
}

/// The last `NewBlock` event of `events`, if there is one.
pub open spec fn last_new_block(events: Seq<IbcEvent>) -> Option<IbcEvent>
    decreases events.len(),
{
    if events.len() == 0 {
        None
    } else if events.last() is NewBlock {
        Some(events.last())
    } else {
        last_new_block(events.drop_last())
    }
}

/// Whether `per_object` sorts events of `seen`, emitted by `chain`, by
/// object: no object comes twice; each object has at least one event; its
/// events are events of `seen`, in the order of `seen`; and each of them is
/// one that is handed to the object's worker.
pub open spec fn sorted_by_object(
    per_object: Seq<(Object, Vec<IbcEvent>)>,
    seen: Seq<IbcEvent>,
    chain: Seq<char>,
    mode: ModeConfig,
    workers: Seq<ObjectView>,
) -> bool {
    &&& forall|i: int, j: int|
        0 <= i < j < per_object.len() ==> per_object[i].0@ != per_object[j].0@
    &&& forall|k: int|
        0 <= k < per_object.len() ==> {
            &&& (#[trigger] per_object[k]).1@.len() > 0
            &&& in_order(per_object[k].1@, seen)
            &&& forall|m: int|
                0 <= m < per_object[k].1@.len() ==> routes(
                    #[trigger] per_object[k].1@[m],
                    per_object[k].0@,
                    chain,
                    mode,
                    workers,
                )
        }
}

proof fn lemma_sorted_more(
    per_object: Seq<(Object, Vec<IbcEvent>)>,
    seen: Seq<IbcEvent>,
    event: IbcEvent,
    chain: Seq<char>,
    mode: ModeConfig,
    workers: Seq<ObjectView>,
)
    requires
        sorted_by_object(per_object, seen, chain, mode, workers),
    ensures
        sorted_by_object(per_object, seen.push(event), chain, mode, workers),
{
    assert forall|k: int| 0 <= k < per_object.len() implies in_order(
        (#[trigger] per_object[k]).1@,
        seen.push(event),
    ) by {
        lemma_in_order_more(per_object[k].1@, seen, event);
    }
}

/// The events of one batch, sorted by the objects that they concern.
#[derive(Debug, PartialEq, Eq)]
pub struct CollectedEvents {
    /// The height at which the events were emitted.
    pub height: Height,
    /// The chain that emitted the events.
    pub chain_id: ChainId,
    /// The event of the new block, where the batch holds one.
    pub new_block: Option<IbcEvent>,
    /// The objects, each with the events that go to its worker.
    pub per_object: Vec<(Object, Vec<IbcEvent>)>,
}

impl CollectedEvents {
    pub fn new(height: Height, chain_id: ChainId) -> (r: Self)
        ensures
            r.height == height,
            r.chain_id == chain_id,
            r.new_block is None,
            r.per_object@.len() == 0,
    {
        CollectedEvents { height, chain_id, new_block: None, per_object: Vec::new() }
    }

    /// Whether the batch held the event of a new block.
    pub fn has_new_block(&self) -> (r: bool)
        ensures
            r == self.new_block is Some,
    {
        self.new_block.is_some()
    }
}

/// Whether `after` is `before` with `event` put with the events of `object`
/// at place `k`, after those that were there; the rest is as it was.
pub open spec fn is_put_at(
    before: Seq<(Object, Vec<IbcEvent>)>,
    after: Seq<(Object, Vec<IbcEvent>)>,
    event: IbcEvent,
    object: Object,
    k: int,
) -> bool {
    &&& 0 <= k < before.len()
    &&& before[k].0@ == object@
    &&& after.len() == before.len()
    &&& after[k].0 == before[k].0
    &&& after[k].1@ == before[k].1@.push(event)
    &&& forall|j: int| 0 <= j < before.len() && j != k ==> #[trigger] after[j] == before[j]
}

/// Whether `after` is `before` with `event` put with the events of
/// `object`: after those that were there, where the object has events
/// already; else the object comes last, with the event as its only one.
pub open spec fn is_collected_into(
    before: Seq<(Object, Vec<IbcEvent>)>,
    after: Seq<(Object, Vec<IbcEvent>)>,
    event: IbcEvent,
    object: Object,
) -> bool {
    if exists|k: int| 0 <= k < before.len() && (#[trigger] before[k]).0@ == object@ {
        exists|k: int| #[trigger] is_put_at(before, after, event, object, k)
    } else {
        &&& after.len() == before.len() + 1
        &&& after.take(before.len() as int) == before
        &&& after.last().0 == object
        &&& after.last().1@ == seq![event]
    }
}

/// Puts `event` with the events of `object`, after those that are there.
fn collect_event(collected: &mut CollectedEvents, event: &IbcEvent, object: Object)
    ensures
        is_collected_into(old(collected).per_object@, final(collected).per_object@, *event, object),
        final(collected).height == old(collected).height,
        final(collected).chain_id == old(collected).chain_id,
        final(collected).new_block == old(collected).new_block,
{
    let ghost before = collected.per_object@;
    let mut k: usize = 0;
    let mut found = false;
    let n = collected.per_object.len();
    while k < n && !found
        invariant
            k <= n,
            n == collected.per_object@.len(),
            collected.per_object@ == before,
            forall|j: int| 0 <= j < k ==> (#[trigger] before[j]).0@ != object@,
            found ==> k < n && before[k as int].0@ == object@,
        decreases n - k + if found { 0int } else { 1int },
    {
        if collected.per_object[k].0 == object {
            found = true;
        } else {
            k = k + 1;
        }
    }
    if found {
        let (key, mut events) = collected.per_object.remove(k);
        let ghost old_events = events@;
        events.push(event.clone());
        proof {
            assert(key@ == before[k as int].0@);
        }
        collected.per_object.insert(k, (key, events));
        proof {
            let after = collected.per_object@;
            assert(after.len() == before.len());
            assert forall|j: int| 0 <= j < after.len() && j != k implies after[j] == before[j] by {}
            assert(after[k as int].0 == before[k as int].0);
            assert(after[k as int].1@ == old_events.push(*event));
            assert(is_put_at(before, after, *event, object, k as int));
        }
    } else {
        let mut events: Vec<IbcEvent> = Vec::new();
        events.push(event.clone());
        proof {
            assert(events@ =~= seq![*event]);
        }
        collected.per_object.push((object, events));
        proof {
            let after = collected.per_object@;
            assert(after.take(before.len() as int) =~= before);
            assert(!exists|j: int| 0 <= j < before.len() && (#[trigger] before[j]).0@ == object@);
        }
    }
}

/// Puts `event` with the events of the object that was made for it, where
/// one was made.
fn collect_made(collected: &mut CollectedEvents, event: &IbcEvent, made: Result<Object, ObjectError>)
    ensures
        match made {
            Ok(object) => is_collected_into(
                old(collected).per_object@,
                final(collected).per_object@,
                *event,
                object,
            ),
            Err(_) => final(collected).per_object@ == old(collected).per_object@,
        },
        final(collected).height == old(collected).height,
        final(collected).chain_id == old(collected).chain_id,
        final(collected).new_block == old(collected).new_block,
{
    match made {
        Ok(object) => collect_event(collected, event, object),
        Err(_) => {},
    }
}

/// The kind of an object, as a number.
spec fn kind_of(object: ObjectView) -> int {
    match object {
        ObjectView::Client { .. } => 0,
        ObjectView::Connection { .. } => 1,
        ObjectView::Channel { .. } => 2,
        ObjectView::Packet { .. } => 3,
    }
}

/// Whether `per_object` sorts the events `earlier` and `event`, which came
/// after them, and only the objects of the kinds `done` may have `event`
/// among their events.
spec fn sorted_during(
    per_object: Seq<(Object, Vec<IbcEvent>)>,
    earlier: Seq<IbcEvent>,
    event: IbcEvent,
    done: Set<int>,
    chain: Seq<char>,
    mode: ModeConfig,
    workers: Seq<ObjectView>,
) -> bool {
    &&& sorted_by_object(per_object, earlier.push(event), chain, mode, workers)
    &&& forall|k: int|
        0 <= k < per_object.len() && !done.contains(kind_of((#[trigger] per_object[k]).0@))
            ==> in_order(per_object[k].1@, earlier)
}

/// An event that is put with the events of an object of a kind that has
/// not had it yet leaves the events sorted.
proof fn lemma_collected_in_order(
    before: Seq<(Object, Vec<IbcEvent>)>,
    after: Seq<(Object, Vec<IbcEvent>)>,
    earlier: Seq<IbcEvent>,
    event: IbcEvent,
    object: Object,
    done: Set<int>,
    chain: Seq<char>,
    mode: ModeConfig,
    workers: Seq<ObjectView>,
)
    requires
        sorted_during(before, earlier, event, done, chain, mode, workers),
        !done.contains(kind_of(object@)),
        routes(event, object@, chain, mode, workers),
        is_collected_into(before, after, event, object),
    ensures
        sorted_during(after, earlier, event, done.insert(kind_of(object@)), chain, mode, workers),
{
    let seen = earlier.push(event);
    let done_after = done.insert(kind_of(object@));
    if exists|k: int| 0 <= k < before.len() && (#[trigger] before[k]).0@ == object@ {
        let k = choose|k: int| #[trigger] is_put_at(before, after, event, object, k);
        assert(in_order(before[k].1@, earlier));
        lemma_in_order_pick(before[k].1@, earlier, event);
        assert forall|i: int, j: int| 0 <= i < j < after.len() implies after[i].0@
            != after[j].0@ by {
            assert(before[i].0@ != before[j].0@);
            if i != k {
                assert(after[i] == before[i]);
            }
            if j != k {
                assert(after[j] == before[j]);
            }
        }
        assert forall|j: int| 0 <= j < after.len() implies {
            &&& (#[trigger] after[j]).1@.len() > 0
            &&& in_order(after[j].1@, seen)
            &&& forall|m: int|
                0 <= m < after[j].1@.len() ==> routes(
                    #[trigger] after[j].1@[m],
                    after[j].0@,
                    chain,
                    mode,
                    workers,
                )
        } by {
            if j == k {
                assert forall|m: int| 0 <= m < after[j].1@.len() implies routes(
                    #[trigger] after[j].1@[m],
                    after[j].0@,
                    chain,
                    mode,
                    workers,
                ) by {
                    if m < before[k].1@.len() {
                        assert(after[j].1@[m] == before[k].1@[m]);
                    }
                }
            } else {
                assert(after[j] == before[j]);
            }
        }
        assert forall|j: int|
            0 <= j < after.len() && !done_after.contains(
                kind_of((#[trigger] after[j]).0@),
            ) implies in_order(after[j].1@, earlier) by {
            if j != k {
                assert(after[j] == before[j]);
            }
        }
    } else {
        lemma_in_order_pick(Seq::<IbcEvent>::empty(), earlier, event);
        assert(Seq::<IbcEvent>::empty().push(event) =~= seq![event]);
        assert forall|j: int| 0 <= j < before.len() implies after[j] == before[j] by {
            assert(after.take(before.len() as int)[j] == before[j]);
        }
        assert forall|i: int, j: int| 0 <= i < j < after.len() implies after[i].0@
            != after[j].0@ by {
            if j < before.len() {
                assert(before[i].0@ != before[j].0@);
            }
        }
        assert forall|j: int| 0 <= j < after.len() implies {
            &&& (#[trigger] after[j]).1@.len() > 0
            &&& in_order(after[j].1@, seen)
            &&& forall|m: int|
                0 <= m < after[j].1@.len() ==> routes(
                    #[trigger] after[j].1@[m],
                    after[j].0@,
                    chain,
                    mode,
                    workers,
                )
        } by {
            if j < before.len() {
                assert(after[j] == before[j]);
            }
        }
    }
}

/// Whether objects of the kind `kind` take `event`, with what is relayed
/// as `mode` says: a client takes the update of a client and the last two
/// events of the channel handshake; a connection the first three events of
/// the connection handshake; a channel the first three events of the channel
/// handshake; the packets of a channel the last two events of the channel
/// handshake, the events of packets, and the closing of the channel.
pub open spec fn takes_kind(mode: ModeConfig, kind: int, event: IbcEvent) -> bool {
    if kind == 0 {
        mode.clients.enabled && (event is UpdateClient || event is OpenAckChannel
            || event is OpenConfirmChannel)
    } else if kind == 1 {
        mode.connections.enabled && (event is OpenInitConnection || event is OpenTryConnection
            || event is OpenAckConnection)
    } else if kind == 2 {
        mode.channels.enabled && (event is OpenInitChannel || event is OpenTryChannel
            || event is OpenAckChannel)
    } else if kind == 3 {
        mode.packets.enabled && (event is OpenAckChannel || event is OpenConfirmChannel
            || event is SendPacket || event is TimeoutPacket || event is WriteAcknowledgement
            || event is CloseInitChannel)
    } else {
        false
    }
}

/// Whether `made` is the object of the kind `kind` that `event`, emitted
/// by `chain`, which calls itself `chain_id`, names, as `chain` answers; or
/// says why it names none.
pub open spec fn is_object_for<C: ChainHandle>(
    chain: &C,
    chain_id: ChainId,
    kind: int,
    event: IbcEvent,
    made: Result<Object, ObjectError>,
) -> bool {
    match event {
        IbcEvent::UpdateClient(a) => kind == 0 && crate::object::is_updated_client_made(
            chain,
            chain_id,
            a.client_id,
            made,
        ),
        IbcEvent::OpenInitConnection(a) => kind == 1 && is_connection_for(chain, chain_id, a, made),
        IbcEvent::OpenTryConnection(a) => kind == 1 && is_connection_for(chain, chain_id, a, made),
        IbcEvent::OpenAckConnection(a) => kind == 1 && is_connection_for(chain, chain_id, a, made),
        IbcEvent::OpenInitChannel(a) => kind == 2 && is_of_channel(chain, chain_id, kind, a, made),
        IbcEvent::OpenTryChannel(a) => kind == 2 && is_of_channel(chain, chain_id, kind, a, made),
        IbcEvent::OpenAckChannel(a) => (kind == 0 || kind == 2 || kind == 3) && is_of_channel(
            chain,
            chain_id,
            kind,
            a,
            made,
        ),
        IbcEvent::OpenConfirmChannel(a) => (kind == 0 || kind == 3) && is_of_channel(
            chain,
            chain_id,
            kind,
            a,
            made,
        ),
        IbcEvent::CloseInitChannel(a) => kind == 3 && is_of_channel(chain, chain_id, kind, a, made),
        IbcEvent::SendPacket(e) => kind == 3 && crate::object::is_packet_made(
            chain,
            chain_id,
            e.packet.source_port,
            e.packet.source_channel,
            made,
        ),
        IbcEvent::TimeoutPacket(e) => kind == 3 && crate::object::is_packet_made(
            chain,
            chain_id,
            e.packet.source_port,
            e.packet.source_channel,
            made,
        ),
        IbcEvent::WriteAcknowledgement(e) => kind == 3 && crate::object::is_packet_made(
            chain,
            chain_id,
            e.packet.destination_port,
            e.packet.destination_channel,
            made,
        ),
        _ => false,
    }
}

/// Whether `made` is the object of the connection that an event with the
/// attributes `a` names; an event that names no connection names no object.
pub open spec fn is_connection_for<C: ChainHandle>(
    chain: &C,
    chain_id: ChainId,
    a: ConnectionAttributes,
    made: Result<Object, ObjectError>,
) -> bool {
    match a.connection_id {
        Some(id) => crate::object::is_connection_made(chain, chain_id, id, made),
        None => made == Err::<Object, ObjectError>(ObjectError::MissingConnectionId),
    }
}

/// Whether `made` is the object of the kind `kind` of the channel end that
/// an event with the attributes `a` names: the client on the other chain,
/// the channel, or its packets; an event that names no channel names no
/// object.
pub open spec fn is_of_channel<C: ChainHandle>(
    chain: &C,
    chain_id: ChainId,
    kind: int,
    a: ChannelAttributes,
    made: Result<Object, ObjectError>,
) -> bool {
    match a.channel_id {
        Some(id) => if kind == 0 {
            crate::object::is_client_made(chain, chain_id, a.port_id, id, made)
        } else if kind == 2 {
            crate::object::is_channel_made(chain, chain_id, a.port_id, id, made)
        } else {
            kind == 3 && crate::object::is_packet_made(chain, chain_id, a.port_id, id, made)
        },
        None => made == Err::<Object, ObjectError>(ObjectError::MissingChannelId),
    }
}

/// Whether `after` is `before` with `event` put with the events of the
/// object that was made for it: see `is_collected_into`. Nothing changes
/// where no object was made, and for the update of a client whose object is
/// not one of `known`.
pub open spec fn is_put_with(
    known: Seq<ObjectView>,
    before: Seq<(Object, Vec<IbcEvent>)>,
    after: Seq<(Object, Vec<IbcEvent>)>,
    event: IbcEvent,
    made: Result<Object, ObjectError>,
) -> bool {
    match made {
        Ok(object) => if event is UpdateClient && !known.contains(object@) {
            after == before
        } else {
            is_collected_into(before, after, event, object)
        },
        Err(_) => after == before,
    }
}

/// Whether `after` is `before` once `event`, emitted by `chain`, was put
/// with the events of the object of the kind `kind` that it names: where
/// objects of the kind take the event, the object is resolved on `chain`,
/// and the event is put with its events; else nothing changes.
pub open spec fn is_kind_sorted<C: ChainHandle>(
    chain: &C,
    chain_id: ChainId,
    mode: ModeConfig,
    known: Seq<ObjectView>,
    kind: int,
    event: IbcEvent,
    before: Seq<(Object, Vec<IbcEvent>)>,
    after: Seq<(Object, Vec<IbcEvent>)>,
) -> bool {
    if takes_kind(mode, kind, event) {
        exists|made: Result<Object, ObjectError>|
            is_object_for(chain, chain_id, kind, event, made) && #[trigger] is_put_with(
                known,
                before,
                after,
                event,
                made,
            )
    } else {
        after == before
    }
}

/// Whether `after` is `before` once `event`, emitted by `chain`, was put
/// with the events of each object that it names: first a client, then the
/// packets of a channel, then a channel, then a connection.
pub open spec fn is_event_sorted<C: ChainHandle>(
    chain: &C,
    chain_id: ChainId,
    mode: ModeConfig,
    known: Seq<ObjectView>,
    event: IbcEvent,
    before: Seq<(Object, Vec<IbcEvent>)>,
    after: Seq<(Object, Vec<IbcEvent>)>,
) -> bool {
    exists|
        with_client: Seq<(Object, Vec<IbcEvent>)>,
        with_packets: Seq<(Object, Vec<IbcEvent>)>,
        with_channel: Seq<(Object, Vec<IbcEvent>)>,
    |
        {
            &&& #[trigger] is_kind_sorted(chain, chain_id, mode, known, 0, event, before, with_client)
            &&& #[trigger] is_kind_sorted(
                chain,
                chain_id,
                mode,
                known,
                3,
                event,
                with_client,
                with_packets,
            )
            &&& #[trigger] is_kind_sorted(
                chain,
                chain_id,
                mode,
                known,
                2,
                event,
                with_packets,
                with_channel,
            )
            &&& is_kind_sorted(chain, chain_id, mode, known, 1, event, with_channel, after)
        }
}

/// Whether `per_object` is what comes of sorting `events`, emitted by
/// `chain`, by object: none for no events; else what comes of sorting all
/// but the last, with the last put with the events of each object that it
/// names, see `is_event_sorted`.
pub open spec fn is_sorted_from<C: ChainHandle>(
    chain: &C,
    chain_id: ChainId,
    mode: ModeConfig,
    known: Seq<ObjectView>,
    events: Seq<IbcEvent>,
    per_object: Seq<(Object, Vec<IbcEvent>)>,
) -> bool
    decreases events.len(),
{
    if events.len() == 0 {
        per_object.len() == 0
    } else {
        exists|before: Seq<(Object, Vec<IbcEvent>)>|
            is_sorted_from(chain, chain_id, mode, known, events.drop_last(), before)
                && #[trigger] is_event_sorted(
                chain,
                chain_id,
                mode,
                known,
                events.last(),
                before,
                per_object,
            )
    }
}

/// Puts `event` with the events of the object of the kind `kind` that was
/// made for it, where one was made, and keeps the events sorted.
fn collect_in_order<C: ChainHandle>(
    collected: &mut CollectedEvents,
    event: &IbcEvent,
    made: Result<Object, ObjectError>,
    src_chain: &C,
    Ghost(earlier): Ghost<Seq<IbcEvent>>,
    Ghost(mode): Ghost<ModeConfig>,
    Ghost(workers): Ghost<Seq<ObjectView>>,
    Ghost(done): Ghost<Set<int>>,
    Ghost(kind): Ghost<int>,
)
    requires
        sorted_during(
            old(collected).per_object@,
            earlier,
            *event,
            done,
            old(collected).chain_id@,
            mode,
            workers,
        ),
        !done.contains(kind),
        made matches Ok(object) ==> kind_of(object@) == kind && routes(
            *event,
            object@,
            old(collected).chain_id@,
            mode,
            workers,
        ),
        takes_kind(mode, kind, *event),
        is_object_for(src_chain, old(collected).chain_id, kind, *event, made),
    ensures
        sorted_during(
            final(collected).per_object@,
            earlier,
            *event,
            done.insert(kind),
            old(collected).chain_id@,
            mode,
            workers,
        ),
        is_kind_sorted(
            src_chain,
            old(collected).chain_id,
            mode,
            workers,
            kind,
            *event,
            old(collected).per_object@,
            final(collected).per_object@,
        ),
        final(collected).height == old(collected).height,
        final(collected).chain_id == old(collected).chain_id,
        final(collected).new_block == old(collected).new_block,
{
    let ghost before = collected.per_object@;
    let ghost given = made;
    collect_made(collected, event, made);
    proof {
        assert(is_put_with(workers, before, collected.per_object@, *event, given));
        match given {
            Ok(object) => {
                lemma_collected_in_order(
                    before,
                    collected.per_object@,
                    earlier,
                    *event,
                    object,
                    done,
                    collected.chain_id@,
                    mode,
                    workers,
                );
            },
            Err(_) => {},
        }
    }
}

/// Sorts the events of `batch`, which `src_chain` emitted, by the objects
/// that they concern.
///
/// The event of a new block is kept apart, the last one where there are
/// several. For every other event `routes` says to which objects it may go;
/// an event goes to each of them that can be resolved on `src_chain`, and to
/// no other. The events of an object keep the order of the batch.
pub fn collect_events<Chain: ChainHandle, W: Worker>(
    config: &Config,
    workers: &WorkerMap<W>,
    src_chain: &Chain,
    batch: &EventBatch,
) -> (r: CollectedEvents)
    ensures
        r.height == batch.height,
        r.chain_id == batch.chain_id,
        r.new_block == last_new_block(batch.events@),
        sorted_by_object(
            r.per_object@,
            batch.events@,
            batch.chain_id@,
            config.mode,
            workers.object_views(),
        ),
        is_sorted_from(
            src_chain,
            batch.chain_id,
            config.mode,
            workers.object_views(),
            batch.events@,
            r.per_object@,
        ),
{
    let mut collected = CollectedEvents::new(batch.height, batch.chain_id.clone());
    let mode = config.mode;
    let ghost chain = batch.chain_id@;
    let ghost known = workers.object_views();
    let mut i: usize = 0;
    while i < batch.events.len()
        invariant
            i <= batch.events.len(),
            mode == config.mode,
            chain == batch.chain_id@,
            known == workers.object_views(),
            collected.height == batch.height,
            collected.chain_id == batch.chain_id,
            collected.new_block == last_new_block(batch.events@.take(i as int)),
            sorted_by_object(collected.per_object@, batch.events@.take(i as int), chain, mode, known),
            is_sorted_from(
                src_chain,
                batch.chain_id,
                mode,
                known,
                batch.events@.take(i as int),
                collected.per_object@,
            ),
        decreases batch.events.len() - i,
    {
        let event = &batch.events[i];
        let ghost seen = batch.events@.take(i + 1);
        let ghost earlier = batch.events@.take(i as int);
        let ghost mut done = Set::<int>::empty();
        let ghost at_start = collected.per_object@;
        let ghost mut with_client = at_start;
        let ghost mut with_packets = at_start;
        let ghost mut with_channel = at_start;
        proof {
            assert(seen.drop_last() == batch.events@.take(i as int));
            assert(seen == batch.events@.take(i as int).push(*event));
            assert(seen.last() == *event);
            lemma_sorted_more(
                collected.per_object@,
                batch.events@.take(i as int),
                *event,
                chain,
                mode,
                known,
            );
            assert(sorted_during(collected.per_object@, earlier, *event, done, chain, mode, known));
        }
        match event {
            IbcEvent::NewBlock(_) => {
                collected.new_block = Some(event.clone());
            },
            IbcEvent::UpdateClient(update) => {
                if mode.clients.enabled {
                    let made = Object::for_update_client(update, src_chain, &batch.chain_id);
                    let ghost given = made;
                    match made {
                        Ok(object) => {
                            if workers.contains(&object) {
                                collect_in_order(
                                    &mut collected,
                                    event,
                                    Ok(object),
                                    src_chain,
                                    Ghost(earlier),
                                    Ghost(mode),
                                    Ghost(known),
                                    Ghost(done),
                                    Ghost(0int),
                                );
                            } else {
                                assert(is_put_with(known, at_start, at_start, *event, given));
                            }
                        },
                        Err(_) => {
                            assert(is_put_with(known, at_start, at_start, *event, given));
                        },
                    }
                    proof {
                        with_client = collected.per_object@;
                        with_packets = collected.per_object@;
                        with_channel = collected.per_object@;
                    }
                }
            },
            IbcEvent::OpenInitConnection(attr) => {
                if mode.connections.enabled {
                    let made = Object::connection_from_conn_open_events(
                        attr,
                        src_chain,
                        &batch.chain_id,
                    );
                    collect_in_order(
                        &mut collected,
                        event,
                        made,
                        src_chain,
                        Ghost(earlier),
                        Ghost(mode),
                        Ghost(known),
                        Ghost(done),
                        Ghost(1int),
                    );
                    proof {
                        done = done.insert(1int);
                    }
                }
            },
            IbcEvent::OpenTryConnection(attr) => {
                if mode.connections.enabled {
                    let made = Object::connection_from_conn_open_events(
                        attr,
                        src_chain,
                        &batch.chain_id,
                    );
                    collect_in_order(
                        &mut collected,
                        event,
                        made,
                        src_chain,
                        Ghost(earlier),
                        Ghost(mode),
                        Ghost(known),
                        Ghost(done),
                        Ghost(1int),
                    );
                    proof {
                        done = done.insert(1int);
                    }
                }
            },
            IbcEvent::OpenAckConnection(attr) => {
                if mode.connections.enabled {
                    let made = Object::connection_from_conn_open_events(
                        attr,
                        src_chain,
                        &batch.chain_id,
                    );
                    collect_in_order(
                        &mut collected,
                        event,
                        made,
                        src_chain,
                        Ghost(earlier),
                        Ghost(mode),
                        Ghost(known),
                        Ghost(done),
                        Ghost(1int),
                    );
                    proof {
                        done = done.insert(1int);
                    }
                }
            },
            IbcEvent::OpenInitChannel(attr) => {
                if mode.channels.enabled {
                    let made = Object::channel_from_chan_open_events(attr, src_chain, &batch.chain_id);
                    collect_in_order(
                        &mut collected,
                        event,
                        made,
                        src_chain,
                        Ghost(earlier),
                        Ghost(mode),
                        Ghost(known),
                        Ghost(done),
                        Ghost(2int),
                    );
                    proof {
                        done = done.insert(2int);
                        with_channel = collected.per_object@;
                    }
                }
            },
            IbcEvent::OpenTryChannel(attr) => {
                if mode.channels.enabled {
                    let made = Object::channel_from_chan_open_events(attr, src_chain, &batch.chain_id);
                    collect_in_order(
                        &mut collected,
                        event,
                        made,
                        src_chain,
                        Ghost(earlier),
                        Ghost(mode),
                        Ghost(known),
                        Ghost(done),
                        Ghost(2int),
                    );
                    proof {
                        done = done.insert(2int);
                        with_channel = collected.per_object@;
                    }
                }
            },
            IbcEvent::OpenAckChannel(attr) => {
                if mode.clients.enabled {
                    let made = Object::client_from_chan_open_events(attr, src_chain, &batch.chain_id);
                    collect_in_order(
                        &mut collected,
                        event,
                        made,
                        src_chain,
                        Ghost(earlier),
                        Ghost(mode),
                        Ghost(known),
                        Ghost(done),
                        Ghost(0int),
                    );
                    proof {
                        done = done.insert(0int);
                        with_client = collected.per_object@;
                        with_packets = collected.per_object@;
                        with_channel = collected.per_object@;
                    }
                }
                if mode.packets.enabled {
                    let made = Object::packet_from_chan_open_events(attr, src_chain, &batch.chain_id);
                    collect_in_order(
                        &mut collected,
                        event,
                        made,
                        src_chain,
                        Ghost(earlier),
                        Ghost(mode),
                        Ghost(known),
                        Ghost(done),
                        Ghost(3int),
                    );
                    proof {
                        done = done.insert(3int);
                        with_packets = collected.per_object@;
                        with_channel = collected.per_object@;
                    }
                }
                if mode.channels.enabled {
                    let made = Object::channel_from_chan_open_events(attr, src_chain, &batch.chain_id);
                    collect_in_order(
                        &mut collected,
                        event,
                        made,
                        src_chain,
                        Ghost(earlier),
                        Ghost(mode),
                        Ghost(known),
                        Ghost(done),
                        Ghost(2int),
                    );
                    proof {
                        done = done.insert(2int);
                        with_channel = collected.per_object@;
                    }
                }
            },
            IbcEvent::OpenConfirmChannel(attr) => {
                if mode.clients.enabled {
                    let made = Object::client_from_chan_open_events(attr, src_chain, &batch.chain_id);
                    collect_in_order(
                        &mut collected,
                        event,
                        made,
                        src_chain,
                        Ghost(earlier),
                        Ghost(mode),
                        Ghost(known),
                        Ghost(done),
                        Ghost(0int),
                    );
                    proof {
                        done = done.insert(0int);
                        with_client = collected.per_object@;
                        with_packets = collected.per_object@;
                        with_channel = collected.per_object@;
                    }
                }
                if mode.packets.enabled {
                    let made = Object::packet_from_chan_open_events(attr, src_chain, &batch.chain_id);
                    collect_in_order(
                        &mut collected,
                        event,
                        made,
                        src_chain,
                        Ghost(earlier),
                        Ghost(mode),
                        Ghost(known),
                        Ghost(done),
                        Ghost(3int),
                    );
                    proof {
                        done = done.insert(3int);
                        with_packets = collected.per_object@;
                        with_channel = collected.per_object@;
                    }
                }
            },
            IbcEvent::SendPacket(packet) => {
                if mode.packets.enabled {
                    let made = Object::for_send_packet(packet, src_chain, &batch.chain_id);
                    collect_in_order(
                        &mut collected,
                        event,
                        made,
                        src_chain,
                        Ghost(earlier),
                        Ghost(mode),
                        Ghost(known),
                        Ghost(done),
                        Ghost(3int),
                    );
                    proof {
                        done = done.insert(3int);
                        with_packets = collected.per_object@;
                        with_channel = collected.per_object@;
                    }
                }
            },
            IbcEvent::TimeoutPacket(packet) => {
                if mode.packets.enabled {
                    let made = Object::for_timeout_packet(packet, src_chain, &batch.chain_id);
                    collect_in_order(
                        &mut collected,
                        event,
                        made,
                        src_chain,
                        Ghost(earlier),
                        Ghost(mode),
                        Ghost(known),
                        Ghost(done),
                        Ghost(3int),
                    );
                    proof {
                        done = done.insert(3int);
                        with_packets = collected.per_object@;
                        with_channel = collected.per_object@;
                    }
                }
            },
            IbcEvent::WriteAcknowledgement(packet) => {
                if mode.packets.enabled {
                    let made = Object::for_write_ack(packet, src_chain, &batch.chain_id);
                    collect_in_order(
                        &mut collected,
                        event,
                        made,
                        src_chain,
                        Ghost(earlier),
                        Ghost(mode),
                        Ghost(known),
                        Ghost(done),
                        Ghost(3int),
                    );
                    proof {
                        done = done.insert(3int);
                        with_packets = collected.per_object@;
                        with_channel = collected.per_object@;
                    }
                }
            },
            IbcEvent::CloseInitChannel(attr) => {
                if mode.packets.enabled {
                    let made = Object::for_close_init_channel(attr, src_chain, &batch.chain_id);
                    collect_in_order(
                        &mut collected,
                        event,
                        made,
                        src_chain,
                        Ghost(earlier),
                        Ghost(mode),
                        Ghost(known),
                        Ghost(done),
                        Ghost(3int),
                    );
                    proof {
                        done = done.insert(3int);
                        with_packets = collected.per_object@;
                        with_channel = collected.per_object@;
                    }
                }
            },
            _ => {},
        }
        assert(sorted_by_object(collected.per_object@, seen, chain, mode, known));
        proof {
            let now = collected.per_object@;
            assert(is_kind_sorted(
                src_chain,
                batch.chain_id,
                mode,
                known,
                0,
                *event,
                at_start,
                with_client,
            ));
            assert(is_kind_sorted(
                src_chain,
                batch.chain_id,
                mode,
                known,
                3,
                *event,
                with_client,
                with_packets,
            ));
            assert(is_kind_sorted(
                src_chain,
                batch.chain_id,
                mode,
                known,
                2,
                *event,
                with_packets,
                with_channel,
            ));
            assert(is_kind_sorted(src_chain, batch.chain_id, mode, known, 1, *event, with_channel, now));
            assert(is_event_sorted(src_chain, batch.chain_id, mode, known, *event, at_start, now));
            assert(seen.drop_last() == earlier);
            assert(is_sorted_from(src_chain, batch.chain_id, mode, known, seen, now));
        }
        i = i + 1;
    }
    proof {
        assert(batch.events@.take(batch.events@.len() as int) == batch.events@);
    }
    collected
}

/// Whether `worker` was told to forget its pending packets.
pub open spec fn is_told_to_clear<W: Worker>(worker: W) -> bool {
    exists|answer: Result<(), crate::worker::WorkerError>| #[trigger]
        call_ensures(W::clear_pending_packets, (&worker,), answer)
}

/// Whether `worker` takes it when it is told to forget its pending packets.
pub open spec fn takes_clearing<W: Worker>(worker: W) -> bool {
    exists|answer: Result<(), crate::worker::WorkerError>|
        #[trigger] call_ensures(W::clear_pending_packets, (&worker,), answer) && answer is Ok
}

/// Whether `worker` answers with `cause` when it is told to forget its
/// pending packets.
pub open spec fn refuses_clearing<W: Worker>(worker: W, cause: crate::worker::WorkerError) -> bool {
    call_ensures(W::clear_pending_packets, (&worker,), Err(cause))
}

/// Whether the workers `concerned` took it up to place `n`, and the worker
/// at `n` is the first that did not, and answered with `cause`.
pub open spec fn clearing_fails_first_at<W: Worker>(
    concerned: Seq<W>,
    cause: crate::worker::WorkerError,
    n: int,
) -> bool {
    &&& 0 <= n < concerned.len()
    &&& forall|k: int| 0 <= k < n ==> takes_clearing(#[trigger] concerned[k])
    &&& refuses_clearing(concerned[n], cause)
}

/// What comes of telling the workers `concerned`, one by one and in order,
/// to forget their pending packets. Each of them is told, whatever the
/// others answered. The answer is success where each of them takes it; else
/// the error of the first that does not, as an error of a worker.
pub open spec fn is_cleared<W: Worker>(concerned: Seq<W>, r: Result<(), Error>) -> bool {
    &&& forall|k: int| 0 <= k < concerned.len() ==> is_told_to_clear(#[trigger] concerned[k])
    &&& match r {
        Ok(_) => forall|k: int| 0 <= k < concerned.len() ==> takes_clearing(#[trigger] concerned[k]),
        Err(Error::Worker(cause)) => exists|n: int| #[trigger]
            clearing_fails_first_at(concerned, cause, n),
        Err(_) => false,
    }
}

/// Tells every worker whose object has the chain as its source to forget the
/// packets that it has not relayed yet. A worker that does not take the
/// message does not keep the others from being told; the error of the first
/// such worker is the answer.
pub fn clear_pending_packets<W: Worker>(workers: &WorkerMap<W>, chain_id: &ChainId) -> (r: Result<
    (),
    Error,
>)
    requires
        workers.wf(),
    ensures
        is_cleared(
            crate::worker::select(workers.object_views(), workers.worker_seq(), chain_id@, false),
            r,
        ),
        r matches Err(e) ==> e is Worker,
        crate::worker::select(workers.object_views(), workers.worker_seq(), chain_id@, false).len()
            == 0 ==> r is Ok,
{
    let concerned = workers.workers_for_chain(chain_id);
    let ghost selected = crate::worker::select(
        workers.object_views(),
        workers.worker_seq(),
        chain_id@,
        false,
    );
    let mut first: Option<crate::worker::WorkerError> = None;
    let mut i: usize = 0;
    while i < concerned.len()
        invariant
            i <= concerned.len(),
            concerned@.len() == selected.len(),
            selected == crate::worker::select(
                workers.object_views(),
                workers.worker_seq(),
                chain_id@,
                false,
            ),
            forall|k: int| 0 <= k < concerned@.len() ==> *(#[trigger] concerned@[k]) == selected[k],
            forall|k: int| 0 <= k < i ==> is_told_to_clear(#[trigger] selected[k]),
            match first {
                None => forall|k: int| 0 <= k < i ==> takes_clearing(#[trigger] selected[k]),
                Some(cause) => exists|n: int| #[trigger] clearing_fails_first_at(selected, cause, n),
            },
        decreases concerned.len() - i,
    {
        let worker = concerned[i];
        assert(*worker == selected[i as int]);
        let answer = worker.clear_pending_packets();
        assert(call_ensures(W::clear_pending_packets, (worker,), answer));
        assert(is_told_to_clear(selected[i as int]));
        match answer {
            Ok(_) => {
                assert(takes_clearing(selected[i as int]));
            },
            Err(e) => {
                if first.is_none() {
                    assert(refuses_clearing(selected[i as int], e));
                    assert(clearing_fails_first_at(selected, e, i as int));
                    first = Some(e);
                }
            },
        }
        i = i + 1;
    }
    match first {
        None => Ok(()),
        Some(e) => Err(Error::Worker(e)),
    }
}

/// Whether `worker` took it when it was told of the block `block` at
/// `height`.
pub open spec fn took_new_block<W: Worker>(worker: W, height: Height, block: NewBlock) -> bool {
    exists|answer: Result<(), crate::worker::WorkerError>|
        #[trigger] call_ensures(W::send_new_block, (&worker, height, block), answer)
            && answer is Ok
}

/// Whether `worker` took the events `events`, emitted by the chain
/// `chain_id` at `height`.
pub open spec fn took_events<W: Worker>(
    worker: W,
    height: Height,
    events: Vec<IbcEvent>,
    chain_id: ChainId,
) -> bool {
    exists|answer: Result<(), crate::worker::WorkerError>|
        #[trigger] call_ensures(W::send_events, (&worker, height, events, chain_id), answer)
            && answer is Ok
}

/// Whether each of the workers `concerned` took the last new block of
/// `events`, at `height`, where the events hold one.
pub open spec fn heard_of_new_block<W: Worker>(
    concerned: Seq<W>,
    height: Height,
    events: Seq<IbcEvent>,
) -> bool {
    match last_new_block(events) {
        Some(IbcEvent::NewBlock(block)) => forall|k: int|
            0 <= k < concerned.len() ==> took_new_block(#[trigger] concerned[k], height, block),
        _ => true,
    }
}

/// Whether `object` is the packets of a channel of `chain` that the
/// configuration does not allow.
pub open spec fn is_denied_by_allowlist(config: Config, chain: Seq<char>, object: ObjectView) -> bool {
    object matches ObjectView::Packet { src_channel_id, src_port_id, .. }
        && !config.spec_packets_on_channel_allowed(chain, src_port_id, src_channel_id)
}

/// Whether none of `events`, emitted by `chain`, goes to any object.
pub open spec fn no_event_routes(
    events: Seq<IbcEvent>,
    chain: Seq<char>,
    mode: ModeConfig,
    workers: Seq<ObjectView>,
) -> bool {
    forall|i: int, object: ObjectView|
        0 <= i < events.len() ==> !#[trigger] routes(events[i], object, chain, mode, workers)
}

/// Whether the worker of the object of `entry`, one of `workers`, each
/// under its object in `objects`, took the events of `entry`.
pub open spec fn is_handed_to<W: Worker>(
    entry: (Object, Vec<IbcEvent>),
    height: Height,
    chain_id: ChainId,
    objects: Seq<ObjectView>,
    workers: Seq<W>,
) -> bool {
    exists|at: int|
        0 <= at < objects.len() && at < workers.len() && objects[at] == entry.0@
            && #[trigger] took_events(workers[at], height, entry.1, chain_id)
}

/// Whether the filter on clients allowed `object`, with some handles and
/// some decisions taken before: see `is_verdict_on`.
pub open spec fn is_allowed_by_filter<Chain: ChainHandle>(object: Object) -> bool {
    exists|
        ids: Seq<Seq<char>>,
        handles: Seq<Chain>,
        before: Map<ClientKey, Permission>,
        after: Map<ClientKey, Permission>,
    | #[trigger]
        is_verdict_on(ids, handles, before, after, object, Permission::Allow)
}

/// Whether the events of `per_object` were handed out, with `acted` saying
/// for each object whether the relayer acts for it: its worker took the
/// events of each object for which it does. With the filter off the relayer
/// acts for every object. With the filter on it acts for no object that is
/// the packets of a channel that the configuration does not allow; for the
/// others the clients under the object decide, and the relayer acts only
/// where the filter on clients allowed the object.
pub open spec fn are_handed_out<Chain: ChainHandle, W: Worker>(
    per_object: Seq<(Object, Vec<IbcEvent>)>,
    acted: Seq<bool>,
    config: Config,
    height: Height,
    chain_id: ChainId,
    objects: Seq<ObjectView>,
    workers: Seq<W>,
) -> bool {
    &&& acted.len() == per_object.len()
    &&& forall|k: int|
        0 <= k < per_object.len() ==> {
            &&& #[trigger] acted[k] ==> is_handed_to(
                per_object[k],
                height,
                chain_id,
                objects,
                workers,
            )
            &&& !config.mode.packets.filter ==> acted[k]
            &&& config.mode.packets.filter && is_denied_by_allowlist(
                config,
                chain_id@,
                per_object[k].0@,
            ) ==> !acted[k]
            &&& config.mode.packets.filter && acted[k] ==> is_allowed_by_filter::<Chain>(
                per_object[k].0,
            )
        }
}

/// Whether the relayer acted for `object`, as `acted` says of the objects
/// of `per_object`, each at its place.
pub open spec fn is_acted_for(
    per_object: Seq<(Object, Vec<IbcEvent>)>,
    acted: Seq<bool>,
    object: ObjectView,
) -> bool {
    exists|j: int|
        0 <= j < per_object.len() && j < acted.len() && #[trigger] acted[j] && per_object[j].0@
            == object
}

/// Whether every worker that was started, for the objects of `after` that
/// come after those of `before`, is the worker of one of the objects of
/// `per_object` for which the relayer acted, as `acted` says of as many of
/// them as were gone through. With the filter on the relayer acts for no
/// object that is the packets of a channel that the configuration does not
/// allow, and only for objects that the filter on clients allowed.
pub open spec fn are_started_by<Chain: ChainHandle>(
    per_object: Seq<(Object, Vec<IbcEvent>)>,
    acted: Seq<bool>,
    config: Config,
    chain: Seq<char>,
    before: Seq<ObjectView>,
    after: Seq<ObjectView>,
) -> bool {
    &&& acted.len() <= per_object.len()
    &&& forall|k: int|
        before.len() <= k < after.len() ==> is_acted_for(per_object, acted, #[trigger] after[k])
    &&& forall|j: int|
        0 <= j < acted.len() && #[trigger] acted[j] && config.mode.packets.filter ==> {
            &&& !is_denied_by_allowlist(config, chain, per_object[j].0@)
            &&& is_allowed_by_filter::<Chain>(per_object[j].0)
        }
}

/// Workers started for objects for which the relayer acted stay so when
/// one more object is gone through, and no worker is started but for that
/// object, for which the relayer then acted.
proof fn lemma_started_more<Chain: ChainHandle>(
    per_object: Seq<(Object, Vec<IbcEvent>)>,
    acted: Seq<bool>,
    next: bool,
    config: Config,
    chain: Seq<char>,
    before: Seq<ObjectView>,
    after: Seq<ObjectView>,
    later: Seq<ObjectView>,
)
    requires
        are_started_by::<Chain>(per_object, acted, config, chain, before, after),
        acted.len() < per_object.len(),
        before.len() <= after.len() <= later.len(),
        later.take(after.len() as int) == after,
        after.len() < later.len() ==> next,
        forall|k: int|
            #![trigger later[k]]
            after.len() <= k < later.len() ==> later[k] == per_object[acted.len() as int].0@,
        next && config.mode.packets.filter ==> !is_denied_by_allowlist(
            config,
            chain,
            per_object[acted.len() as int].0@,
        ) && is_allowed_by_filter::<Chain>(per_object[acted.len() as int].0),
    ensures
        are_started_by::<Chain>(per_object, acted.push(next), config, chain, before, later),
{
    let more = acted.push(next);
    assert forall|k: int| before.len() <= k < later.len() implies is_acted_for(
        per_object,
        more,
        #[trigger] later[k],
    ) by {
        if k < after.len() {
            assert(later.take(after.len() as int)[k] == after[k]);
            assert(is_acted_for(per_object, acted, after[k]));
            let j = choose|j: int|
                0 <= j < per_object.len() && j < acted.len() && #[trigger] acted[j]
                    && per_object[j].0@ == after[k];
            assert(more[j]);
        } else {
            assert(later[k] == per_object[acted.len() as int].0@ && next);
            assert(more[acted.len() as int]);
        }
    }
    assert forall|j: int|
        0 <= j < more.len() && #[trigger] more[j] && config.mode.packets.filter implies {
        &&& !is_denied_by_allowlist(config, chain, per_object[j].0@)
        &&& is_allowed_by_filter::<Chain>(per_object[j].0)
    } by {
        if j < acted.len() {
            assert(acted[j]);
        }
    }
}

/// Whether `r` and the workers afterwards are what comes of handing the
/// events of `batch` to the workers, where the workers were
/// `before_workers`, each under its object in `before_objects`.
///
/// The events are sorted by object as `is_sorted_from` says, with the
/// objects resolved on `src_chain`, and every worker that is started is that
/// of an object for which the relayer acted: see `are_started_by`. On
/// success each worker that is told of the new blocks of the chain took the
/// batch's new block, and the events were handed out: see
/// `are_handed_out`. With the filter on no worker is started for the
/// packets of a channel that the configuration does not allow. Where no
/// event of the batch goes to any object the workers stay as they were, and
/// the batch succeeds where it holds no new block.
pub open spec fn is_handed_on<Chain: ChainHandle, W: Worker>(
    config: Config,
    src_chain: Chain,
    batch: EventBatch,
    before_objects: Seq<ObjectView>,
    before_workers: Seq<W>,
    after_objects: Seq<ObjectView>,
    after_workers: Seq<W>,
    r: Result<(), Error>,
) -> bool {
    &&& r is Ok ==> heard_of_new_block(
        crate::worker::select(before_objects, before_workers, batch.chain_id@, true),
        batch.height,
        batch.events@,
    )
    &&& exists|per_object: Seq<(Object, Vec<IbcEvent>)>, acted: Seq<bool>|
        {
            &&& sorted_by_object(
                per_object,
                batch.events@,
                batch.chain_id@,
                config.mode,
                before_objects,
            )
            &&& is_sorted_from(
                &src_chain,
                batch.chain_id,
                config.mode,
                before_objects,
                batch.events@,
                per_object,
            )
            &&& #[trigger] are_started_by::<Chain>(
                per_object,
                acted,
                config,
                batch.chain_id@,
                before_objects,
                after_objects,
            )
            &&& r is Ok ==> are_handed_out::<Chain, W>(
                per_object,
                acted,
                config,
                batch.height,
                batch.chain_id,
                after_objects,
                after_workers,
            )
        }
    &&& config.mode.packets.filter ==> forall|k: int|
        before_objects.len() <= k < after_objects.len() ==> !is_denied_by_allowlist(
            config,
            batch.chain_id@,
            #[trigger] after_objects[k],
        )
    &&& no_event_routes(batch.events@, batch.chain_id@, config.mode, before_objects) ==> {
        &&& last_new_block(batch.events@) is None ==> r is Ok
        &&& after_objects == before_objects
        &&& after_workers == before_workers
    }
}

/// Whether `outcome` and the workers afterwards are what comes of dealing
/// with what a subscription to `chain` yielded, with `src_chain` as the
/// handle of the chain. A batch of the chain is handed on: see
/// `is_handed_on`. Where the subscription was cancelled, the
/// workers of the chain are told to forget their pending packets: see
/// `is_cleared`. Anything else leaves the workers as they were.
pub open spec fn is_dealt_with<Chain: ChainHandle, W: Worker>(
    config: Config,
    src_chain: Chain,
    chain: Seq<char>,
    batch: ArcBatch,
    before_objects: Seq<ObjectView>,
    before_workers: Seq<W>,
    after_objects: Seq<ObjectView>,
    after_workers: Seq<W>,
    outcome: BatchOutcome,
) -> bool {
    match *batch {
        Ok(events) => if events.chain_id@ == chain {
            &&& outcome matches BatchOutcome::Processed(result)
            &&& is_handed_on::<Chain, W>(
                config,
                src_chain,
                events,
                before_objects,
                before_workers,
                after_objects,
                after_workers,
                result,
            )
        } else {
            after_workers == before_workers
        },
        Err(MonitorError::SubscriptionCancelled(_)) => {
            &&& outcome matches BatchOutcome::PendingCleared(result)
            &&& is_cleared(crate::worker::select(before_objects, before_workers, chain, false), result)
            &&& after_workers == before_workers
        },
        Err(_) => after_workers == before_workers,
    }
}

/// Hands the events of `batch`, which `src_chain` emitted, to the workers.
///
/// The events are sorted by object: see `collect_events`. The workers that
/// are told of the new blocks of the chain hear of the batch's new block
/// first. Then, object by object: where the relayer acts for the object, its
/// worker is handed the object's events, in the order of the batch; a worker
/// is started where the object has none. The first failure ends the
/// processing, with its error.
///
/// Every worker that is started has the chain of the batch as the source of
/// its object; no worker is started for the update of a client, and none,
/// with the filter on, for the packets of a channel that the configuration
/// does not allow. The workers that were there stay. Where no event of the
/// batch goes to any object, nothing changes.
pub fn process_batch<Chain: ChainHandle, W: Worker>(
    config: &Config,
    registry: &mut Registry<Chain>,
    client_state_filter: &mut FilterPolicy,
    workers: &mut WorkerMap<W>,
    src_chain_id: &ChainId,
    src_chain: &Chain,
    batch: &EventBatch,
) -> (r: Result<(), Error>)
    requires
        old(registry).wf(),
        old(client_state_filter).wf(),
        old(workers).wf(),
        src_chain_id@ == batch.chain_id@,
    ensures
        final(registry).wf(),
        final(client_state_filter).wf(),
        final(workers).wf(),
        grows_within(old(registry).ids(), final(registry).ids(), config.chain_ids()),
        cache_extends(old(client_state_filter).cache(), final(client_state_filter).cache()),
        adds_for_chain(old(workers).object_views(), final(workers).object_views(), batch.chain_id@),
        starts_by_batch(
            old(workers).object_views(),
            final(workers).object_views(),
            batch.events@,
            batch.chain_id@,
            config.mode,
        ),
        names_within(old(registry).ids(), config.chain_ids()) ==> adds_within(
            old(workers).object_views(),
            final(workers).object_views(),
            config.chain_ids(),
        ),
        r matches Err(e) ==> e is Worker || e is Spawn,
        is_handed_on::<Chain, W>(
            *config,
            *src_chain,
            *batch,
            old(workers).object_views(),
            old(workers).worker_seq(),
            final(workers).object_views(),
            final(workers).worker_seq(),
            r,
        ),
        no_event_routes(
            batch.events@,
            batch.chain_id@,
            config.mode,
            old(workers).object_views(),
        ) ==> {
            &&& final(registry).ids() == old(registry).ids()
            &&& final(client_state_filter).cache() == old(client_state_filter).cache()
        },
        batch.events@.len() == 0 ==> {
            &&& r is Ok
            &&& final(workers).object_views() == old(workers).object_views()
            &&& final(workers).worker_seq() == old(workers).worker_seq()
        },
{
    let height = batch.height;
    let ghost chain = batch.chain_id@;
    let ghost ids0 = registry.ids();
    let ghost cache0 = client_state_filter.cache();
    let ghost objects0 = workers.object_views();
    let ghost wseq0 = workers.worker_seq();
    let ghost quiet = no_event_routes(batch.events@, chain, config.mode, objects0);
    let ghost notified = crate::worker::select(objects0, wseq0, chain, true);
    proof {
        lemma_adds_nothing(objects0, chain);
        assert(ids0.take(ids0.len() as int) =~= ids0);
        assert(objects0.take(objects0.len() as int) =~= objects0);
    }
    let collected = collect_events(config, workers, src_chain, batch);
    let CollectedEvents { height: _, chain_id, new_block, per_object } = collected;
    let ghost all_per = per_object@;
    proof {
        assert(starts_by_batch(objects0, objects0, batch.events@, chain, config.mode));
        if quiet && per_object@.len() > 0 {
            lemma_in_order_contains(per_object@[0].1@, batch.events@, 0);
            let first = per_object@[0].1@[0];
            let at = choose|at: int| 0 <= at < batch.events@.len() && batch.events@[at] == first;
            assert(routes(batch.events@[at], per_object@[0].0@, chain, config.mode, objects0));
        }
        workers.lemma_distinct();
        assert(are_started_by::<Chain>(
            all_per,
            Seq::<bool>::empty(),
            *config,
            chain,
            objects0,
            objects0,
        ));
    }
    match new_block {
        Some(IbcEvent::NewBlock(new_block)) => {
            let to_notify = workers.to_notify(src_chain_id);
            let mut i: usize = 0;
            while i < to_notify.len()
                invariant
                    i <= to_notify.len(),
                    registry.wf(),
                    client_state_filter.wf(),
                    workers.wf(),
                    registry.ids() == ids0,
                    client_state_filter.cache() == cache0,
                    workers.object_views() == objects0,
                    workers.worker_seq() == wseq0,
                    to_notify@.len() == notified.len(),
                    notified == crate::worker::select(objects0, wseq0, chain, true),
                    src_chain_id@ == chain,
                    forall|k: int|
                        0 <= k < to_notify@.len() ==> *(#[trigger] to_notify@[k]) == notified[k],
                    forall|k: int|
                        0 <= k < i ==> took_new_block(#[trigger] notified[k], height, new_block),
                    ids0 == old(registry).ids(),
                    cache0 == old(client_state_filter).cache(),
                    objects0 == old(workers).object_views(),
                    chain == batch.chain_id@,
                    grows_within(ids0, ids0, config.chain_ids()),
                    adds_for_chain(objects0, objects0, chain),
                    adds_within(objects0, objects0, config.chain_ids()),
                    starts_by_batch(objects0, objects0, batch.events@, chain, config.mode),
                    batch.events@.len() > 0,
                    last_new_block(batch.events@) is Some,
                    quiet ==> per_object@.len() == 0,
                    sorted_by_object(all_per, batch.events@, chain, config.mode, objects0),
                    is_sorted_from(
                        src_chain,
                        batch.chain_id,
                        config.mode,
                        objects0,
                        batch.events@,
                        all_per,
                    ),
                    are_started_by::<Chain>(
                        all_per,
                        Seq::<bool>::empty(),
                        *config,
                        chain,
                        objects0,
                        objects0,
                    ),
                decreases to_notify.len() - i,
            {
                let answer = to_notify[i].send_new_block(height, new_block);
                assert(call_ensures(
                    W::send_new_block,
                    (&notified[i as int], height, new_block),
                    answer,
                ));
                match answer {
                    Ok(_) => {
                        assert(took_new_block(notified[i as int], height, new_block));
                    },
                    Err(e) => {
                        return Err(Error::Worker(e));
                    },
                }
                i = i + 1;
            }
        },
        _ => {},
    }
    assert(heard_of_new_block(notified, height, batch.events@));
    let mut per_object = per_object;
    let ghost mut acted: Seq<bool> = Seq::empty();
    let ghost mut n_done: int = 0;
    proof {
        assert(all_per.skip(0) =~= all_per);
    }
    while per_object.len() > 0
        invariant
            registry.wf(),
            client_state_filter.wf(),
            workers.wf(),
            chain == batch.chain_id@,
            chain_id == batch.chain_id,
            src_chain_id@ == chain,
            ids0 == old(registry).ids(),
            cache0 == old(client_state_filter).cache(),
            objects0 == old(workers).object_views(),
            grows_within(ids0, registry.ids(), config.chain_ids()),
            cache_extends(cache0, client_state_filter.cache()),
            adds_for_chain(objects0, workers.object_views(), chain),
            starts_by_batch(objects0, workers.object_views(), batch.events@, chain, config.mode),
            quiet ==> per_object@.len() == 0 && workers.object_views() == objects0
                && workers.worker_seq() == wseq0 && registry.ids() == ids0
                && client_state_filter.cache() == cache0,
            height == batch.height,
            0 <= n_done <= all_per.len(),
            per_object@ == all_per.skip(n_done),
            sorted_by_object(all_per, batch.events@, chain, config.mode, objects0),
            is_sorted_from(src_chain, batch.chain_id, config.mode, objects0, batch.events@, all_per),
            are_started_by::<Chain>(
                all_per,
                acted,
                *config,
                chain,
                objects0,
                workers.object_views(),
            ),
            objects0.len() <= workers.object_views().len(),
            are_handed_out::<Chain, W>(
                all_per.take(n_done),
                acted,
                *config,
                height,
                chain_id,
                workers.object_views(),
                workers.worker_seq(),
            ),
            workers.worker_seq().len() == workers.object_views().len(),
            config.mode.packets.filter ==> forall|k: int|
                objects0.len() <= k < workers.object_views().len() ==> !is_denied_by_allowlist(
                    *config,
                    chain,
                    #[trigger] workers.object_views()[k],
                ),
            names_within(ids0, config.chain_ids()) ==> adds_within(
                objects0,
                workers.object_views(),
                config.chain_ids(),
            ),
            forall|k: int|
                0 <= k < per_object@.len() ==> {
                    &&& (#[trigger] per_object@[k]).1@.len() > 0
                    &&& in_order(per_object@[k].1@, batch.events@)
                    &&& forall|m: int|
                        0 <= m < per_object@[k].1@.len() ==> routes(
                            #[trigger] per_object@[k].1@[m],
                            per_object@[k].0@,
                            chain,
                            config.mode,
                            objects0,
                        )
                },
        decreases per_object.len(),
    {
        let ghost rest = per_object@;
        let (object, events) = per_object.remove(0);
        let ghost entry = (object, events);
        let ghost done_before = all_per.take(n_done);
        proof {
            assert(rest[0] == (object, events));
            assert(all_per[n_done] == entry);
            assert(per_object@ =~= all_per.skip(n_done + 1));
            assert(all_per.take(n_done + 1) =~= done_before.push(entry));
            assert forall|k: int| 0 <= k < per_object@.len() implies {
                &&& (#[trigger] per_object@[k]).1@.len() > 0
                &&& in_order(per_object@[k].1@, batch.events@)
                &&& forall|m: int|
                    0 <= m < per_object@[k].1@.len() ==> routes(
                        #[trigger] per_object@[k].1@[m],
                        per_object@[k].0@,
                        chain,
                        config.mode,
                        objects0,
                    )
            } by {
                assert(per_object@[k] == rest[k + 1]);
            }
            assert(routes(events@[0], object@, chain, config.mode, objects0));
            lemma_routes_from_source(events@[0], object@, chain, config.mode, objects0);
            lemma_in_order_contains(events@, batch.events@, 0);
        }
        let ghost ids1 = registry.ids();
        let ghost cache1 = client_state_filter.cache();
        let relay = relay_on_object(config, registry, client_state_filter, src_chain_id, &object);
        proof {
            lemma_grows_twice(ids0, ids1, registry.ids(), config.chain_ids());
            lemma_cache_extends_twice(cache0, cache1, client_state_filter.cache());
            if relay && config.mode.packets.filter {
                assert(is_verdict_on(
                    registry.ids(),
                    registry.handles(),
                    cache1,
                    client_state_filter.cache(),
                    object,
                    Permission::Allow,
                ));
                assert(is_allowed_by_filter::<Chain>(entry.0));
            }
        }
        if relay && events.len() > 0 {
            let ghost ids2 = registry.ids();
            let src = match registry.get_or_spawn(config, object.src_chain_id()) {
                Ok(chain) => chain,
                Err(e) => {
                    proof {
                        lemma_grows_twice(ids0, ids2, registry.ids(), config.chain_ids());
                    }
                    return Err(Error::Spawn(e));
                },
            };
            proof {
                lemma_grows_twice(ids0, ids2, registry.ids(), config.chain_ids());
            }
            let ghost ids3 = registry.ids();
            let dst = match registry.get_or_spawn(config, object.dst_chain_id()) {
                Ok(chain) => chain,
                Err(e) => {
                    proof {
                        lemma_grows_twice(ids0, ids3, registry.ids(), config.chain_ids());
                    }
                    return Err(Error::Spawn(e));
                },
            };
            proof {
                lemma_grows_twice(ids0, ids3, registry.ids(), config.chain_ids());
            }
            let ghost objects1 = workers.object_views();
            let ghost wseq1 = workers.worker_seq();
            let ghost view = object@;
            let at = workers.get_or_spawn(object, src, dst, config);
            proof {
                let objects2 = workers.object_views();
                let wseq2 = workers.worker_seq();
                assert(acted.len() == n_done);
                assert(objects2.take(objects1.len() as int) =~= objects1);
                lemma_started_more::<Chain>(
                    all_per,
                    acted,
                    true,
                    *config,
                    chain,
                    objects0,
                    objects1,
                    objects2,
                );
                assert forall|k: int| 0 <= k < done_before.len() && #[trigger] acted[k] implies is_handed_to(
                    done_before[k],
                    height,
                    chain_id,
                    objects2,
                    wseq2,
                ) by {
                    assert(is_handed_to(done_before[k], height, chain_id, objects1, wseq1));
                    let place = choose|place: int|
                        0 <= place < objects1.len() && place < wseq1.len() && objects1[place]
                            == done_before[k].0@ && #[trigger] took_events(
                            wseq1[place],
                            height,
                            done_before[k].1,
                            chain_id,
                        );
                    assert(objects2[place] == objects1[place]);
                    assert(wseq2[place] == wseq1[place]);
                    assert(took_events(wseq2[place], height, done_before[k].1, chain_id));
                }
                assert(!(config.mode.packets.filter && is_denied_by_allowlist(*config, chain, view)));
                assert forall|k: int| objects0.len() <= k < objects2.len() implies !(
                config.mode.packets.filter && is_denied_by_allowlist(
                    *config,
                    chain,
                    #[trigger] objects2[k],
                )) by {
                    if k < objects1.len() {
                        assert(objects2[k] == objects1[k]);
                    } else {
                        assert(objects2[k] == view);
                    }
                }
                lemma_grows_keeps(ids0, registry.ids(), config.chain_ids());
                lemma_grows_keeps(ids3, registry.ids(), config.chain_ids());
                if names_within(ids0, config.chain_ids()) {
                    let objects2 = workers.object_views();
                    assert(objects2.take(objects0.len() as int) =~= objects2.take(
                        objects1.len() as int,
                    ).take(objects0.len() as int));
                    assert forall|k: int| objects0.len() <= k < objects2.len() implies config.chain_ids().contains(
                        (#[trigger] objects2[k]).src_chain_id(),
                    ) by {
                        if k < objects1.len() {
                            assert(objects2.take(objects1.len() as int)[k] == objects1[k]);
                        } else {
                            assert(objects2[k] == view);
                            assert(registry.ids().contains(view.src_chain_id()));
                            let h = choose|h: int|
                                0 <= h < registry.ids().len() && registry.ids()[h]
                                    == view.src_chain_id();
                            assert(config.chain_ids().contains(registry.ids()[h]));
                        }
                    }
                }
                if !objects1.contains(view) {
                    let objects2 = workers.object_views();
                    let at = choose|at: int|
                        0 <= at < batch.events@.len() && batch.events@[at] == events@[0];
                    assert(objects2.take(objects0.len() as int) =~= objects2.take(
                        objects1.len() as int,
                    ).take(objects0.len() as int));
                    assert forall|k: int| objects0.len() <= k < objects2.len() implies started_by(
                        #[trigger] objects2[k],
                        batch.events@,
                        chain,
                        config.mode,
                        objects0,
                    ) by {
                        if k < objects1.len() {
                            assert(objects2.take(objects1.len() as int)[k] == objects1[k]);
                            assert(started_by(objects1[k], batch.events@, chain, config.mode, objects0));
                        } else {
                            assert(objects2[k] == view);
                            if batch.events@[at] is UpdateClient {
                                assert(objects0.contains(view));
                                let h = choose|h: int| 0 <= h < objects0.len() && objects0[h] == view;
                                assert(objects1.take(objects0.len() as int)[h] == view);
                                assert(objects1[h] == view);
                            }
                            assert(routes(batch.events@[at], view, chain, config.mode, objects0));
                        }
                    }
                }
                if objects1.contains(view) {
                    lemma_adds_nothing(objects1, chain);
                } else {
                    assert(!objects0.contains(view)) by {
                        if objects0.contains(view) {
                            let k = choose|k: int| 0 <= k < objects0.len() && objects0[k] == view;
                            assert(objects1.take(objects0.len() as int)[k] == view);
                            assert(objects1[k] == view);
                        }
                    }
                    lemma_adds_one(objects1, view);
                }
                lemma_adds_twice(objects0, objects1, workers.object_views(), chain);
            }
            let answer = workers.worker(at).send_events(height, events, chain_id.clone());
            assert(call_ensures(
                W::send_events,
                (&workers.worker_seq()[at as int], height, entry.1, chain_id),
                answer,
            ));
            match answer {
                Ok(_) => {
                    assert(took_events(workers.worker_seq()[at as int], height, entry.1, chain_id));
                    assert(is_handed_to(
                        entry,
                        height,
                        chain_id,
                        workers.object_views(),
                        workers.worker_seq(),
                    ));
                },
                Err(e) => {
                    return Err(Error::Worker(e));
                },
            }
            proof {
                acted = acted.push(true);
            }
        } else {
            proof {
                let objects1 = workers.object_views();
                assert(objects1.take(objects1.len() as int) =~= objects1);
                lemma_started_more::<Chain>(
                    all_per,
                    acted,
                    false,
                    *config,
                    chain,
                    objects0,
                    objects1,
                    objects1,
                );
                acted = acted.push(false);
            }
        }
        proof {
            n_done = n_done + 1;
            assert forall|k: int| 0 <= k < all_per.take(n_done).len() implies {
                &&& #[trigger] acted[k] ==> is_handed_to(
                    all_per.take(n_done)[k],
                    height,
                    chain_id,
                    workers.object_views(),
                    workers.worker_seq(),
                )
                &&& !config.mode.packets.filter ==> acted[k]
                &&& config.mode.packets.filter && is_denied_by_allowlist(
                    *config,
                    chain_id@,
                    all_per.take(n_done)[k].0@,
                ) ==> !acted[k]
                &&& config.mode.packets.filter && acted[k] ==> is_allowed_by_filter::<Chain>(
                    all_per.take(n_done)[k].0,
                )
            } by {
                if k < n_done - 1 {
                    assert(all_per.take(n_done)[k] == done_before[k]);
                } else {
                    assert(all_per.take(n_done)[k] == entry);
                }
            }
        }
    }
    proof {
        assert(all_per.take(n_done) =~= all_per);
    }
    Ok(())
}

/// How a batch was dealt with.
#[derive(Debug, PartialEq, Eq)]
pub enum BatchOutcome {
    /// The batch held events, which were processed, with success or not.
    Processed(Result<(), Error>),
    /// The subscription was cancelled: the workers of the chain were told to
    /// forget their pending packets, with success or not.
    PendingCleared(Result<(), Error>),
    /// The batch held another error of the event source, of which nothing
    /// follows.
    Ignored,
}

/// Deals with what came from the subscription of the chain `chain_id`.
///
/// A batch of events is processed: see `process_batch`. It must name the
/// chain that it came from; one that does not is not processed, and the
/// outcome holds `HandleMismatch`. Where the subscription was cancelled, the
/// workers of the chain are told to forget their pending packets. Any other
/// error of the event source is passed over. In the last two cases the
/// registry, the filter and the workers stay as they are.
pub fn handle_batch<Chain: ChainHandle, W: Worker>(
    config: &Config,
    registry: &mut Registry<Chain>,
    client_state_filter: &mut FilterPolicy,
    workers: &mut WorkerMap<W>,
    chain_id: &ChainId,
    chain: &Chain,
    batch: ArcBatch,
) -> (r: BatchOutcome)
    requires
        old(registry).wf(),
        old(client_state_filter).wf(),
        old(workers).wf(),
    ensures
        final(registry).wf(),
        final(client_state_filter).wf(),
        final(workers).wf(),
        grows_within(old(registry).ids(), final(registry).ids(), config.chain_ids()),
        cache_extends(old(client_state_filter).cache(), final(client_state_filter).cache()),
        adds_for_chain(old(workers).object_views(), final(workers).object_views(), chain_id@),
        names_within(old(registry).ids(), config.chain_ids()) ==> adds_within(
            old(workers).object_views(),
            final(workers).object_views(),
            config.chain_ids(),
        ),
        is_dealt_with::<Chain, W>(
            *config,
            *chain,
            chain_id@,
            batch,
            old(workers).object_views(),
            old(workers).worker_seq(),
            final(workers).object_views(),
            final(workers).worker_seq(),
            r,
        ),
        match *batch {
            Ok(events) => {
                &&& r is Processed
                &&& events.chain_id@ == chain_id@ && events.events@.len() == 0 ==> {
                    &&& r matches BatchOutcome::Processed(Ok(_))
                    &&& final(workers).object_views() == old(workers).object_views()
                    &&& final(registry).ids() == old(registry).ids()
                }
                &&& events.chain_id@ == chain_id@ ==> starts_by_batch(
                    old(workers).object_views(),
                    final(workers).object_views(),
                    events.events@,
                    chain_id@,
                    config.mode,
                )
                &&& events.chain_id@ != chain_id@ ==> {
                    &&& r matches BatchOutcome::Processed(Err(e))
                    &&& e is HandleMismatch
                    &&& final(workers).object_views() == old(workers).object_views()
                    &&& final(registry).ids() == old(registry).ids()
                }
            },
            Err(MonitorError::SubscriptionCancelled(_)) => {
                &&& r is PendingCleared
                &&& final(workers).object_views() == old(workers).object_views()
                &&& final(registry).ids() == old(registry).ids()
            },
            Err(_) => {
                &&& r is Ignored
                &&& final(workers).object_views() == old(workers).object_views()
                &&& final(registry).ids() == old(registry).ids()
            },
        },
{
    proof {
        lemma_adds_nothing(workers.object_views(), chain_id@);
        assert(registry.ids().take(registry.ids().len() as int) =~= registry.ids());
        assert(workers.object_views().take(workers.object_views().len() as int)
            =~= workers.object_views());
    }
    match &*batch {
        Ok(events) => {
            if events.chain_id != *chain_id {
                return BatchOutcome::Processed(
                    Err(Error::HandleMismatch(chain_id.clone(), events.chain_id.clone())),
                );
            }
            BatchOutcome::Processed(
                process_batch(
                    config,
                    registry,
                    client_state_filter,
                    workers,
                    chain_id,
                    chain,
                    events,
                ),
            )
        },
        Err(MonitorError::SubscriptionCancelled(_)) => BatchOutcome::PendingCleared(
            clear_pending_packets(workers, chain_id),
        ),
        Err(_) => BatchOutcome::Ignored,
    }
}

/// Starts the scan that seeds the workers.
pub fn spawn_context(mode: SpawnMode) -> (r: SpawnContext)
    ensures
        r.mode == mode,
{
    SpawnContext::new(mode)
}

/// What the supervisor holds, by name: the chains that are configured, the
/// chains that have a handle, and the objects that have a worker.
pub struct SupervisorView {
    pub chains: Seq<ChainConfig>,
    pub handles: Seq<Seq<char>>,
    pub workers: Seq<ObjectView>,
}

/// What a configuration, a registry and a map of workers hold, by name.
pub open spec fn view_of<Chain: ChainHandle, W: Worker>(
    config: Config,
    registry: Registry<Chain>,
    workers: WorkerMap<W>,
) -> SupervisorView {
    SupervisorView {
        chains: config.chains@,
        handles: registry.ids(),
        workers: workers.object_views(),
    }
}

/// Whether every chain that has a handle is configured, and the source of
/// every object that has a worker is.
pub open spec fn consistent(view: SupervisorView) -> bool {
    &&& forall|i: int|
        0 <= i < view.handles.len() ==> ids_of(view.chains).contains(#[trigger] view.handles[i])
    &&& sources_within(view.workers, ids_of(view.chains))
}

/// What the removal of the chain `id` does: nothing where the chain is not
/// configured; else the chain leaves the configuration, its handle the
/// registry, and the workers with the chain as their source the map.
pub open spec fn removed_chain(
    before: SupervisorView,
    after: SupervisorView,
    id: Seq<char>,
    effect: CmdEffect,
) -> bool {
    if ids_of(before.chains).contains(id) {
        &&& effect == CmdEffect::ConfigChanged
        &&& after.chains == chains_without(before.chains, id)
        &&& after.handles == without_name(before.handles, id)
        &&& after.workers == without_chain(before.workers, id)
    } else {
        &&& effect == CmdEffect::Nothing
        &&& after.chains == before.chains
        &&& after.handles == before.handles
        &&& after.workers == before.workers
    }
}

/// What the addition of the chain `chain` does: nothing where a chain of
/// that name is configured, and nothing where the session with the chain
/// does not start; else the chain is the last of the configuration, it has
/// a handle, and workers were started for it.
pub open spec fn added_chain(
    before: SupervisorView,
    after: SupervisorView,
    chain: ChainConfig,
    effect: CmdEffect,
) -> bool {
    if ids_of(before.chains).contains(chain.id@) || effect == CmdEffect::Nothing {
        &&& effect == CmdEffect::Nothing
        &&& after.chains == before.chains
        &&& after.handles == before.handles
        &&& after.workers == before.workers
    } else {
        &&& after.chains == before.chains.push(chain)
        &&& grows_within(before.handles, after.handles, ids_of(after.chains))
        &&& after.handles.contains(chain.id@)
        &&& distinct_names(after.handles)
        &&& adds_for_chain(before.workers, after.workers, chain.id@)
    }
}

/// Takes the chain `id` out of the configuration, stops the workers with
/// the chain as their source, and ends the session with the chain. A chain
/// that is not configured is left alone.
pub fn remove_chain<Chain: ChainHandle, W: Worker>(
    config: &mut Config,
    registry: &mut Registry<Chain>,
    workers: &mut WorkerMap<W>,
    client_state_filter: &mut FilterPolicy,
    id: &ChainId,
) -> (r: CmdEffect)
    requires
        old(registry).wf(),
        old(workers).wf(),
        old(client_state_filter).wf(),
    ensures
        final(registry).wf(),
        final(workers).wf(),
        final(client_state_filter).wf(),
        final(config).mode == old(config).mode,
        final(client_state_filter).cache() == old(client_state_filter).cache(),
        removed_chain(
            view_of(*old(config), *old(registry), *old(workers)),
            view_of(*final(config), *final(registry), *final(workers)),
            id@,
            r,
        ),
        r == CmdEffect::ConfigChanged ==> !final(config).chain_ids().contains(id@) && !final(registry).ids().contains(id@),
        if r == CmdEffect::ConfigChanged {
            &&& final(registry).handles() == crate::registry::held_beside(
                old(registry).ids(),
                old(registry).handles(),
                id@,
            )
            &&& final(workers).worker_seq() == crate::worker::workers_without_chain(
                old(workers).object_views(),
                old(workers).worker_seq(),
                id@,
            )
            &&& forall|k: int|
                0 <= k < old(workers).object_views().len() && (
                #[trigger] old(workers).object_views()[k]).src_chain_id() == id@
                    ==> crate::worker::is_stopped(old(workers).worker_seq()[k])
            &&& forall|i: int|
                0 <= i < old(registry).ids().len() && #[trigger] old(registry).ids()[i] == id@
                    ==> crate::registry::is_shut_down(old(registry).handles()[i])
        } else {
            &&& final(registry).handles() == old(registry).handles()
            &&& final(workers).worker_seq() == old(workers).worker_seq()
        },
{
    if !config.has_chain(id) {
        return CmdEffect::Nothing;
    }
    config.remove_chain(id);
    let ctx = spawn_context(SpawnMode::Reload);
    ctx.shutdown_workers_for_chain(workers, id);
    registry.shutdown(id);
    proof {
        lemma_without_name_contains(old(config).chain_ids(), id@, id@);
    }
    CmdEffect::ConfigChanged
}

/// Whether `with_chain` is `config` with `chain` put at the end, and no
/// session could be started for `chain` as `with_chain` describes it.
pub open spec fn is_not_started_with<Chain: ChainHandle>(
    config: Config,
    chain: ChainConfig,
    with_chain: Config,
) -> bool {
    &&& with_chain.chains@ == config.chains@.push(chain)
    &&& with_chain.mode == config.mode
    &&& exists|cause: RelayerError| #[trigger]
        crate::registry::is_refused_for::<Chain>(with_chain, chain.id@, cause)
}

/// Whether no session could be started for `chain`, put at the end of
/// `config`: see `is_not_started_with`.
pub open spec fn is_not_started<Chain: ChainHandle>(config: Config, chain: ChainConfig) -> bool {
    exists|with_chain: Config| #[trigger] is_not_started_with::<Chain>(config, chain, with_chain)
}

/// Whether `effect` is what the addition of `chain` to `config` comes to,
/// with handles for the chains `ids_after` held afterwards. The
/// configuration changes exactly where no chain of that name was configured
/// and the chain has a handle afterwards; where none was configured and
/// nothing changes, no session could be started for the chain.
pub open spec fn is_add_outcome<Chain: ChainHandle>(
    config: Config,
    ids_after: Seq<Seq<char>>,
    chain: ChainConfig,
    effect: CmdEffect,
) -> bool {
    &&& effect == CmdEffect::ConfigChanged <==> !config.chain_ids().contains(chain.id@)
        && ids_after.contains(chain.id@)
    &&& effect == CmdEffect::Nothing && !config.chain_ids().contains(chain.id@)
        ==> is_not_started::<Chain>(config, chain)
}

/// Whether `removed` and `added` are what the removal of the chain named
/// as `chain` from `config`, and then the addition of `chain` to what is
/// left, `between`, come to: the removal changes the configuration exactly
/// where a chain of that name was configured; for the addition see
/// `is_add_outcome`.
pub open spec fn is_replace_outcome<Chain: ChainHandle>(
    config: Config,
    between: Config,
    ids_after: Seq<Seq<char>>,
    chain: ChainConfig,
    removed: CmdEffect,
    added: CmdEffect,
) -> bool {
    &&& between.chains@ == chains_without(config.chains@, chain.id@)
    &&& between.mode == config.mode
    &&& removed == CmdEffect::ConfigChanged <==> config.chain_ids().contains(chain.id@)
    &&& is_add_outcome::<Chain>(between, ids_after, chain, added)
}

/// Whether `effect` is what the change `update` of `config` comes to, with
/// handles for the chains `ids_after` held afterwards: for an addition see
/// `is_add_outcome`; a removal changes the configuration exactly where a
/// chain of that name was configured; an update is a removal and then an
/// addition, see `is_replace_outcome`, and changes the configuration where
/// either does.
pub open spec fn is_update_outcome<Chain: ChainHandle>(
    config: Config,
    ids_after: Seq<Seq<char>>,
    update: ConfigUpdate,
    effect: CmdEffect,
) -> bool {
    match update {
        ConfigUpdate::Add(chain) => is_add_outcome::<Chain>(config, ids_after, chain, effect),
        ConfigUpdate::Remove(id) => effect == CmdEffect::ConfigChanged
            <==> config.chain_ids().contains(id@),
        ConfigUpdate::Update(chain) => exists|between: Config, removed: CmdEffect, added: CmdEffect|
            {
                &&& #[trigger] is_replace_outcome::<Chain>(
                    config,
                    between,
                    ids_after,
                    chain,
                    removed,
                    added,
                )
                &&& effect == removed.spec_or(added)
            },
    }
}

/// Puts the chain at the end of the configuration, starts the session with
/// it, and starts the workers that it asks for. A chain whose name is
/// configured is left alone; where the session does not start, the
/// configuration is as before.
pub fn add_chain<Chain: ChainHandle, W: Worker>(
    config: &mut Config,
    registry: &mut Registry<Chain>,
    workers: &mut WorkerMap<W>,
    client_state_filter: &mut FilterPolicy,
    chain_config: ChainConfig,
) -> (r: CmdEffect)
    requires
        old(registry).wf(),
        old(workers).wf(),
        old(client_state_filter).wf(),
    ensures
        final(registry).wf(),
        final(workers).wf(),
        final(client_state_filter).wf(),
        final(config).mode == old(config).mode,
        cache_extends(old(client_state_filter).cache(), final(client_state_filter).cache()),
        old(config).chain_ids().contains(chain_config.id@) ==> r == CmdEffect::Nothing,
        !old(config).chain_ids().contains(chain_config.id@) && old(registry).ids().contains(
            chain_config.id@,
        ) ==> r == CmdEffect::ConfigChanged,
        r == CmdEffect::ConfigChanged <==> !old(config).chain_ids().contains(chain_config.id@)
            && final(registry).ids().contains(chain_config.id@),
        r == CmdEffect::Nothing ==> final(client_state_filter).cache() == old(client_state_filter).cache(),
        added_chain(
            view_of(*old(config), *old(registry), *old(workers)),
            view_of(*final(config), *final(registry), *final(workers)),
            chain_config,
            r,
        ),
        r == CmdEffect::Nothing && !old(config).chain_ids().contains(chain_config.id@)
            ==> is_not_started::<Chain>(*old(config), chain_config),
        r == CmdEffect::ConfigChanged ==> crate::supervisor::spawn::is_chain_scan(
            *final(config),
            final(registry).ids(),
            final(registry).handles(),
            chain_config.id@,
            old(client_state_filter).cache(),
            final(client_state_filter).cache(),
            old(workers).object_views(),
            final(workers).object_views(),
        ),
{
    let id = chain_config.id.clone();
    if config.has_chain(&id) {
        return CmdEffect::Nothing;
    }
    let ghost chains0 = config.chains@;
    let ghost ids0 = registry.ids();
    config.chains.push(chain_config);
    proof {
        assert(config.chains@.drop_last() == chains0);
    }
    let ghost with_chain = *config;
    match registry.spawn(config, &id) {
        Ok(_) => {},
        Err(e) => {
            proof {
                assert(with_chain.chain_ids()[chains0.len() as int] == id@);
                assert(e is RuntimeFailed);
                assert(is_not_started_with::<Chain>(*old(config), chain_config, with_chain));
            }
            let _ = config.chains.pop();
            return CmdEffect::Nothing;
        },
    }
    let ghost ids1 = registry.ids();
    let ctx = spawn_context(SpawnMode::Reload);
    ctx.spawn_workers_for_chain(config, registry, client_state_filter, workers, &id);
    proof {
        lemma_grows_twice(ids0, ids1, registry.ids(), config.chain_ids());
        registry.lemma_distinct();
        if ids0.contains(id@) {
            let k = choose|k: int| 0 <= k < ids0.len() && ids0[k] == id@;
            assert(ids1.take(ids0.len() as int)[k] == id@);
        } else {
            assert(ids1[ids1.len() - 1] == id@);
        }
        let k1 = choose|k: int| 0 <= k < ids1.len() && ids1[k] == id@;
        assert(registry.ids().take(ids1.len() as int)[k1] == id@);
        assert(registry.ids()[k1] == id@);
    }
    CmdEffect::ConfigChanged
}

/// Takes the chain out and puts it in again, with its new configuration.
///
/// The configuration has changed where the chain was configured before or
/// is configured now.
pub fn update_chain<Chain: ChainHandle, W: Worker>(
    config: &mut Config,
    registry: &mut Registry<Chain>,
    workers: &mut WorkerMap<W>,
    client_state_filter: &mut FilterPolicy,
    chain_config: ChainConfig,
) -> (r: CmdEffect)
    requires
        old(registry).wf(),
        old(workers).wf(),
        old(client_state_filter).wf(),
    ensures
        final(registry).wf(),
        final(workers).wf(),
        final(client_state_filter).wf(),
        final(config).mode == old(config).mode,
        cache_extends(old(client_state_filter).cache(), final(client_state_filter).cache()),
        r == CmdEffect::ConfigChanged <==> old(config).chain_ids().contains(chain_config.id@)
            || final(config).chain_ids().contains(chain_config.id@),
        exists|between: SupervisorView, removed: CmdEffect, added: CmdEffect|
            {
                &&& #[trigger] removed_chain(
                    view_of(*old(config), *old(registry), *old(workers)),
                    between,
                    chain_config.id@,
                    removed,
                )
                &&& #[trigger] added_chain(
                    between,
                    view_of(*final(config), *final(registry), *final(workers)),
                    chain_config,
                    added,
                )
                &&& r == removed.spec_or(added)
            },
        is_update_outcome::<Chain>(
            *old(config),
            final(registry).ids(),
            ConfigUpdate::Update(chain_config),
            r,
        ),
{
    let removed = remove_chain(config, registry, workers, client_state_filter, &chain_config.id);
    let ghost between = view_of(*config, *registry, *workers);
    let ghost between_ids = config.chain_ids();
    let ghost between_config = *config;
    let added = add_chain(config, registry, workers, client_state_filter, chain_config);
    proof {
        if !old(config).chain_ids().contains(chain_config.id@) {
            crate::config::lemma_chains_without_absent(old(config).chains@, chain_config.id@);
        }
        assert(is_replace_outcome::<Chain>(
            *old(config),
            between_config,
            registry.ids(),
            chain_config,
            removed,
            added,
        ));
        let after = view_of(*config, *registry, *workers);
        assert(removed_chain(
            view_of(*old(config), *old(registry), *old(workers)),
            between,
            chain_config.id@,
            removed,
        ));
        assert(added_chain(between, after, chain_config, added));
        lemma_without_name_contains(old(config).chain_ids(), chain_config.id@, chain_config.id@);
        if added == CmdEffect::ConfigChanged {
            assert(config.chain_ids()[config.chains@.len() - 1] == chain_config.id@);
        } else {
            if removed == CmdEffect::ConfigChanged {
            } else {
            }
        }
    }
    removed.or(added)
}

/// What a change of the configuration does to what the supervisor holds.
pub open spec fn updated_config(
    before: SupervisorView,
    after: SupervisorView,
    update: ConfigUpdate,
    effect: CmdEffect,
) -> bool {
    match update {
        ConfigUpdate::Add(chain) => added_chain(before, after, chain, effect),
        ConfigUpdate::Remove(id) => removed_chain(before, after, id@, effect),
        ConfigUpdate::Update(chain) => exists|
            between: SupervisorView,
            removed: CmdEffect,
            added: CmdEffect,
        |
            {
                &&& #[trigger] removed_chain(before, between, chain.id@, removed)
                &&& #[trigger] added_chain(between, after, chain, added)
                &&& effect == removed.spec_or(added)
            },
    }
}

/// Applies a change of the configuration; the effect says whether the
/// subscriptions have to be made anew.
pub fn update_config<Chain: ChainHandle, W: Worker>(
    config: &mut Config,
    registry: &mut Registry<Chain>,
    workers: &mut WorkerMap<W>,
    client_state_filter: &mut FilterPolicy,
    update: ConfigUpdate,
) -> (r: CmdEffect)
    requires
        old(registry).wf(),
        old(workers).wf(),
        old(client_state_filter).wf(),
    ensures
        final(registry).wf(),
        final(workers).wf(),
        final(client_state_filter).wf(),
        final(config).mode == old(config).mode,
        cache_extends(old(client_state_filter).cache(), final(client_state_filter).cache()),
        updated_config(
            view_of(*old(config), *old(registry), *old(workers)),
            view_of(*final(config), *final(registry), *final(workers)),
            update,
            r,
        ),
        update matches ConfigUpdate::Remove(id) ==> {
            &&& !final(config).chain_ids().contains(id@)
            &&& consistent(view_of(*old(config), *old(registry), *old(workers))) ==> !final(registry).ids().contains(id@)
        },
        is_update_outcome::<Chain>(*old(config), final(registry).ids(), update, r),
{
    match update {
        ConfigUpdate::Add(chain_config) => add_chain(
            config,
            registry,
            workers,
            client_state_filter,
            chain_config,
        ),
        ConfigUpdate::Remove(id) => {
            proof {
                lemma_without_name_contains(config.chain_ids(), id@, id@);
                lemma_without_name_contains(registry.ids(), id@, id@);
                if !config.chain_ids().contains(id@) && registry.ids().contains(id@) {
                    let k = choose|k: int| 0 <= k < registry.ids().len() && registry.ids()[k] == id@;
                    assert(view_of(*config, *registry, *workers).handles[k] == id@);
                }
            }
            let r = remove_chain(config, registry, workers, client_state_filter, &id);
            r
        },
        ConfigUpdate::Update(chain_config) => update_chain(
            config,
            registry,
            workers,
            client_state_filter,
            chain_config,
        ),
    }
}

/// No chain that is not configured has a worker: where what the supervisor
/// holds is consistent, the workers of such a chain are none.
pub proof fn lemma_no_workers_for_unconfigured_chain<W>(
    view: SupervisorView,
    workers: Seq<W>,
    chain: Seq<char>,
)
    requires
        consistent(view),
        !ids_of(view.chains).contains(chain),
    ensures
        crate::worker::select(view.workers, workers, chain, false).len() == 0,
        crate::worker::select(view.workers, workers, chain, true).len() == 0,
{
    assert forall|i: int| 0 <= i < view.workers.len() implies (
    #[trigger] view.workers[i]).src_chain_id() != chain by {
        assert(ids_of(view.chains).contains(view.workers[i].src_chain_id()));
    }
    crate::worker::lemma_select_none(view.workers, workers, chain, false);
    crate::worker::lemma_select_none(view.workers, workers, chain, true);
}

/// Handles that grow within the configured chains, and workers that are
/// added with configured chains as their sources, leave what the supervisor
/// holds consistent. So do the processing of a batch and the scan that
/// seeds the workers.
pub proof fn lemma_growth_is_consistent(before: SupervisorView, after: SupervisorView)
    requires
        consistent(before),
        after.chains == before.chains,
        grows_within(before.handles, after.handles, ids_of(before.chains)),
        adds_within(before.workers, after.workers, ids_of(before.chains)),
    ensures
        consistent(after),
{
    lemma_grows_keeps(before.handles, after.handles, ids_of(before.chains));
    assert forall|i: int| 0 <= i < after.workers.len() implies ids_of(after.chains).contains(
        (#[trigger] after.workers[i]).src_chain_id(),
    ) by {
        if i < before.workers.len() {
            assert(after.workers.take(before.workers.len() as int)[i] == before.workers[i]);
        }
    }
}

/// The addition of a chain leaves what the supervisor holds consistent.
pub proof fn lemma_added_chain_is_consistent(
    before: SupervisorView,
    after: SupervisorView,
    chain: ChainConfig,
    effect: CmdEffect,
)
    requires
        consistent(before),
        added_chain(before, after, chain, effect),
    ensures
        consistent(after),
{
    if effect == CmdEffect::ConfigChanged && !ids_of(before.chains).contains(chain.id@) {
        let ids0 = ids_of(before.chains);
        let ids1 = ids_of(after.chains);
        assert(ids1 =~= ids0.push(chain.id@));
        assert forall|name: Seq<char>| ids0.contains(name) implies ids1.contains(name) by {
            let k = choose|k: int| 0 <= k < ids0.len() && ids0[k] == name;
            assert(ids1[k] == name);
        }
        assert(ids1[ids0.len() as int] == chain.id@);
        assert forall|i: int| 0 <= i < after.handles.len() implies ids1.contains(
            #[trigger] after.handles[i],
        ) by {
            if i < before.handles.len() {
                assert(after.handles.take(before.handles.len() as int)[i] == before.handles[i]);
                assert(ids0.contains(before.handles[i]));
            }
        }
        assert forall|i: int| 0 <= i < after.workers.len() implies ids1.contains(
            (#[trigger] after.workers[i]).src_chain_id(),
        ) by {
            if i < before.workers.len() {
                assert(after.workers.take(before.workers.len() as int)[i] == before.workers[i]);
                assert(ids0.contains(before.workers[i].src_chain_id()));
            }
        }
    }
}

/// The removal of a chain leaves what the supervisor holds consistent, with
/// no handle and no worker for the chain.
pub proof fn lemma_removed_chain_is_consistent(
    before: SupervisorView,
    after: SupervisorView,
    id: Seq<char>,
    effect: CmdEffect,
)
    requires
        consistent(before),
        removed_chain(before, after, id, effect),
    ensures
        consistent(after),
        !ids_of(after.chains).contains(id),
        !after.handles.contains(id),
        forall|i: int| 0 <= i < after.workers.len() ==> (#[trigger] after.workers[i]).src_chain_id() != id,
{
    let ids0 = ids_of(before.chains);
    if ids0.contains(id) {
        crate::config::lemma_ids_of_chains_without(before.chains, id);
        let ids1 = ids_of(after.chains);
        lemma_without_name_contains(ids0, id, id);
        lemma_without_name_contains(before.handles, id, id);
        assert forall|i: int| 0 <= i < after.handles.len() implies ids1.contains(
            #[trigger] after.handles[i],
        ) by {
            let name = after.handles[i];
            assert(after.handles.contains(name));
            lemma_without_name_contains(before.handles, id, name);
            let k = choose|k: int| 0 <= k < before.handles.len() && before.handles[k] == name;
            assert(ids0.contains(before.handles[k]));
            lemma_without_name_contains(ids0, id, name);
        }
        assert forall|i: int| 0 <= i < after.workers.len() implies ids1.contains(
            (#[trigger] after.workers[i]).src_chain_id(),
        ) && after.workers[i].src_chain_id() != id by {
            let object = after.workers[i];
            assert(after.workers.contains(object));
            crate::worker::lemma_without_chain_contains(before.workers, id, object);
            let k = choose|k: int| 0 <= k < before.workers.len() && before.workers[k] == object;
            assert(ids0.contains(before.workers[k].src_chain_id()));
            lemma_without_name_contains(ids0, id, object.src_chain_id());
        }
    } else {
        if after.handles.contains(id) {
            let k = choose|k: int| 0 <= k < after.handles.len() && after.handles[k] == id;
            assert(ids0.contains(before.handles[k]));
        }
        assert forall|i: int| 0 <= i < after.workers.len() implies (
        #[trigger] after.workers[i]).src_chain_id() != id by {
            assert(ids0.contains(before.workers[i].src_chain_id()));
        }
    }
}

/// A chain that is added and then removed leaves the configuration, the
/// registry and the workers as they were before it was added.
///
/// This holds of a chain whose name was not configured, where what the
/// supervisor held was consistent, no chain had two handles and every
/// configured chain had its handle.
pub proof fn lemma_add_then_remove(
    before: SupervisorView,
    between: SupervisorView,
    after: SupervisorView,
    chain: ChainConfig,
    added: CmdEffect,
    removed: CmdEffect,
)
    requires
        added_chain(before, between, chain, added),
        removed_chain(between, after, chain.id@, removed),
        !ids_of(before.chains).contains(chain.id@),
        consistent(before),
        distinct_names(before.handles),
        names_within(ids_of(before.chains), before.handles),
    ensures
        after.chains == before.chains,
        after.handles == before.handles,
        after.workers == before.workers,
{
    let id = chain.id@;
    let ids0 = ids_of(before.chains);
    if added == CmdEffect::ConfigChanged {
        let ids1 = ids_of(between.chains);
        assert(ids1 =~= ids0.push(id));
        assert(ids1[ids0.len() as int] == id);
        lemma_push_then_chains_without(before.chains, chain);
        // The handles: only the new chain's can have come.
        let n0 = before.handles.len() as int;
        assert(!before.handles.contains(id)) by {
            if before.handles.contains(id) {
                let k = choose|k: int| 0 <= k < before.handles.len() && before.handles[k] == id;
                assert(ids0.contains(before.handles[k]));
            }
        }
        assert forall|i: int| n0 <= i < between.handles.len() implies between.handles[i] == id by {
            let name = between.handles[i];
            assert(ids1.contains(name));
            if name != id {
                let k = choose|k: int| 0 <= k < ids1.len() && ids1[k] == name;
                assert(k < ids0.len());
                assert(ids0[k] == name);
                assert(before.handles.contains(ids0[k]));
                let h = choose|h: int| 0 <= h < before.handles.len() && before.handles[h] == name;
                assert(between.handles.take(n0)[h] == name);
                assert(between.handles[h] != between.handles[i]);
            }
        }
        let at = choose|k: int| 0 <= k < between.handles.len() && between.handles[k] == id;
        assert(at >= n0) by {
            if at < n0 {
                assert(between.handles.take(n0)[at] == id);
                assert(before.handles[at] == id);
            }
        }
        assert(between.handles.len() == n0 + 1) by {
            if between.handles.len() > n0 + 1 {
                assert(between.handles[n0] == id);
                assert(between.handles[n0 + 1] == id);
            }
        }
        assert(between.handles =~= before.handles.push(id)) by {
            assert forall|i: int| 0 <= i < between.handles.len() implies between.handles[i]
                == before.handles.push(id)[i] by {
                if i < n0 {
                    assert(between.handles.take(n0)[i] == before.handles[i]);
                }
            }
        }
        lemma_push_then_without(before.handles, id);
        // The workers: those that came have the chain as their source.
        lemma_without_chain_added(before.workers, between.workers, id);
        assert forall|i: int| 0 <= i < before.workers.len() implies (
        #[trigger] before.workers[i]).src_chain_id() != id by {
            assert(ids0.contains(before.workers[i].src_chain_id()));
        }
        lemma_without_absent_chain(before.workers, id);
    }
}

/// How the health check of one chain went.
#[derive(Debug, PartialEq, Eq)]
pub enum HealthReport {
    Healthy,
    /// The chain says that it is not healthy, and why.
    Unhealthy(String),
    /// The chain did not answer the check.
    CheckFailed(RelayerError),
    /// No handle for the chain could be had.
    SpawnFailed(SpawnError),
}

/// Whether `report` is what the chain behind `handle` answered when it was
/// asked for its health.
pub open spec fn is_report_of<Chain: ChainHandle>(handle: Chain, report: HealthReport) -> bool {
    match report {
        HealthReport::Healthy => call_ensures(
            Chain::health_check,
            (&handle,),
            Ok(HealthCheck::Healthy),
        ),
        HealthReport::Unhealthy(reason) => call_ensures(
            Chain::health_check,
            (&handle,),
            Ok(HealthCheck::Unhealthy(reason)),
        ),
        HealthReport::CheckFailed(cause) => call_ensures(
            Chain::health_check,
            (&handle,),
            Err(cause),
        ),
        HealthReport::SpawnFailed(_) => false,
    }
}

/// Whether `report` is what a clone of the handle `held` answered when it
/// was asked for its health.
pub open spec fn is_checked<Chain: ChainHandle>(held: Chain, report: HealthReport) -> bool {
    exists|handle: Chain| cloned(held, handle) && #[trigger] is_report_of(handle, report)
}

/// Whether `report` is the health of the chain `chain`: what the handle
/// held for it, one of `handles`, each under its name in `ids`, answered;
/// or, where no handle could be had, that no session could be started for
/// the chain as `config` describes it.
pub open spec fn is_health_of<Chain: ChainHandle>(
    config: Config,
    ids: Seq<Seq<char>>,
    handles: Seq<Chain>,
    chain: Seq<char>,
    report: HealthReport,
) -> bool {
    match report {
        HealthReport::SpawnFailed(e) => e matches SpawnError::RuntimeFailed(_, cause)
            && crate::registry::is_refused_for::<Chain>(config, chain, cause),
        _ => exists|at: int|
            0 <= at < ids.len() && at < handles.len() && ids[at] == chain && #[trigger] is_checked(
                handles[at],
                report,
            ),
    }
}

/// Asks every configured chain for its health, in the order of the
/// configuration; a handle is started for a chain that has none.
pub fn health_check<Chain: ChainHandle>(config: &Config, registry: &mut Registry<Chain>) -> (r: Vec<
    (ChainId, HealthReport),
>)
    requires
        old(registry).wf(),
    ensures
        final(registry).wf(),
        grows_within(old(registry).ids(), final(registry).ids(), config.chain_ids()),
        r@.len() == config.chains@.len(),
        forall|i: int| 0 <= i < r@.len() ==> (#[trigger] r@[i]).0 == config.chains@[i].id,
        forall|i: int|
            0 <= i < r@.len() ==> is_health_of(
                *config,
                final(registry).ids(),
                final(registry).handles(),
                config.chains@[i].id@,
                (#[trigger] r@[i]).1,
            ),
{
    let ghost ids0 = registry.ids();
    proof {
        assert(ids0.take(ids0.len() as int) =~= ids0);
    }
    let mut reports: Vec<(ChainId, HealthReport)> = Vec::new();
    let mut i: usize = 0;
    while i < config.chains.len()
        invariant
            i <= config.chains.len(),
            registry.wf(),
            grows_within(ids0, registry.ids(), config.chain_ids()),
            reports@.len() == i,
            forall|k: int| 0 <= k < i ==> (#[trigger] reports@[k]).0 == config.chains@[k].id,
            forall|k: int|
                0 <= k < i ==> is_health_of(
                    *config,
                    registry.ids(),
                    registry.handles(),
                    config.chains@[k].id@,
                    (#[trigger] reports@[k]).1,
                ),
        decreases config.chains.len() - i,
    {
        let id = &config.chains[i].id;
        let ghost ids1 = registry.ids();
        let ghost handles1 = registry.handles();
        let ghost reported = reports@;
        assert(config.chain_ids()[i as int] == id@);
        let report = match registry.get_or_spawn(config, id) {
            Ok(chain) => {
                let answer = chain.health_check();
                let report = match answer {
                    Ok(HealthCheck::Healthy) => HealthReport::Healthy,
                    Ok(HealthCheck::Unhealthy(reason)) => HealthReport::Unhealthy(reason),
                    Err(e) => HealthReport::CheckFailed(e),
                };
                proof {
                    assert(is_report_of(chain, report));
                    let at = choose|at: int|
                        0 <= at < registry.ids().len() && registry.ids()[at] == id@ && cloned(
                            #[trigger] registry.handles()[at],
                            chain,
                        );
                    assert(is_checked(registry.handles()[at], report));
                }
                report
            },
            Err(e) => HealthReport::SpawnFailed(e),
        };
        proof {
            lemma_grows_twice(ids0, ids1, registry.ids(), config.chain_ids());
            let ids2 = registry.ids();
            let handles2 = registry.handles();
            assert forall|k: int| 0 <= k < i implies is_health_of(
                *config,
                ids2,
                handles2,
                config.chains@[k].id@,
                (#[trigger] reported[k]).1,
            ) by {
                let earlier = reported[k].1;
                assert(is_health_of(*config, ids1, handles1, config.chains@[k].id@, earlier));
                if !(earlier is SpawnFailed) {
                    let at = choose|at: int|
                        0 <= at < ids1.len() && at < handles1.len() && ids1[at]
                            == config.chains@[k].id@ && #[trigger] is_checked(
                            handles1[at],
                            earlier,
                        );
                    assert(ids2.take(ids1.len() as int)[at] == ids1[at]);
                    assert(handles2[at] == handles1[at]);
                    assert(is_checked(handles2[at], earlier));
                }
            }
        }
        reports.push((id.clone(), report));
        i = i + 1;
    }
    reports
}

/// A chain whose events the supervisor receives: its name, its handle, and
/// the receiving end of its batches.
pub struct Subscribed<Chain: ChainHandle> {
    pub chain_id: ChainId,
    pub chain: Chain,
    pub subscription: Subscription,
}

/// The names of the chains subscribed to, in order.
pub open spec fn subscribed_ids<Chain: ChainHandle>(subscriptions: Seq<Subscribed<Chain>>) -> Seq<
    Seq<char>,
> {
    Seq::new(subscriptions.len(), |i: int| subscriptions[i].chain_id@)
}

/// Whether the names `picked` are picked from `all`, each place of `all`
/// at most once, in the order of `all`.
pub open spec fn picked_in_order(picked: Seq<Seq<char>>, all: Seq<Seq<char>>) -> bool
    decreases picked.len() + all.len(),
{
    if picked.len() == 0 {
        true
    } else if all.len() == 0 {
        false
    } else {
        (picked.last() == all.last() && picked_in_order(picked.drop_last(), all.drop_last()))
            || picked_in_order(picked, all.drop_last())
    }
}

/// Whether the subscription is what its chain answered when it was asked
/// for its events, and its chain a clone of the handle held for the chain
/// that it names, one of `handles`, each under its name in `ids`.
pub open spec fn is_subscribed<Chain: ChainHandle>(
    ids: Seq<Seq<char>>,
    handles: Seq<Chain>,
    subscribed: Subscribed<Chain>,
) -> bool {
    &&& is_handle_of(ids, handles, subscribed.chain_id@, subscribed.chain)
    &&& call_ensures(Chain::subscribe, (&subscribed.chain,), Ok(subscribed.subscription))
}

/// Whether no session could be started for the chain `chain` as `config`
/// describes it.
pub open spec fn is_spawn_refused<Chain: ChainHandle>(config: Config, chain: Seq<char>) -> bool {
    exists|cause: RelayerError| #[trigger] crate::registry::is_refused_for::<Chain>(config, chain, cause)
}

/// Whether the chain `chain` did not take the subscription: a clone of the
/// handle held for it, one of `handles`, each under its name in `ids`, was
/// asked for its events and answered with a failure.
pub open spec fn is_subscription_refused<Chain: ChainHandle>(
    ids: Seq<Seq<char>>,
    handles: Seq<Chain>,
    chain: Seq<char>,
) -> bool {
    exists|handle: Chain, cause: RelayerError|
        is_handle_of(ids, handles, chain, handle) && #[trigger] call_ensures(
            Chain::subscribe,
            (&handle,),
            Err::<Subscription, RelayerError>(cause),
        )
}

/// Whether the chain `chain` was passed over when the chains were
/// subscribed to: no session could be started for it, or it did not take
/// the subscription.
pub open spec fn is_passed_over<Chain: ChainHandle>(
    config: Config,
    ids: Seq<Seq<char>>,
    handles: Seq<Chain>,
    chain: Seq<char>,
) -> bool {
    ||| is_spawn_refused::<Chain>(config, chain)
    ||| is_subscription_refused(ids, handles, chain)
}

/// Whether each chain of `config` that is not among the chains `subscribed`
/// was passed over: see `is_passed_over`.
pub open spec fn others_passed_over<Chain: ChainHandle>(
    config: Config,
    ids: Seq<Seq<char>>,
    handles: Seq<Chain>,
    subscribed: Seq<Seq<char>>,
) -> bool {
    forall|i: int|
        0 <= i < config.chains@.len() && !subscribed.contains(#[trigger] config.chain_ids()[i])
            ==> is_passed_over::<Chain>(config, ids, handles, config.chain_ids()[i])
}

/// Whether the subscriptions `after` are what a change of the
/// configuration with the effect `effect` leaves of the subscriptions
/// `before`, with `config` as the configuration afterwards and the handles
/// `handles` held then, each under its name in `ids`. Where nothing
/// changed, the subscriptions stay. Else the chains are subscribed to anew:
/// the new subscriptions are to configured chains, in the order of the
/// configuration, each as its chain answered, and every other configured
/// chain was passed over; the old ones stay only where every configured
/// chain was passed over.
pub open spec fn is_resubscribed<Chain: ChainHandle>(
    config: Config,
    ids: Seq<Seq<char>>,
    handles: Seq<Chain>,
    effect: CmdEffect,
    before: Vec<Subscribed<Chain>>,
    after: Vec<Subscribed<Chain>>,
) -> bool {
    if effect == CmdEffect::Nothing {
        after == before
    } else {
        ||| {
            &&& after == before
            &&& forall|i: int|
                0 <= i < config.chains@.len() ==> is_passed_over::<Chain>(
                    config,
                    ids,
                    handles,
                    #[trigger] config.chain_ids()[i],
                )
        }
        ||| {
            &&& after@.len() > 0
            &&& picked_in_order(subscribed_ids(after@), config.chain_ids())
            &&& subscribed_within(after@, config.chain_ids())
            &&& forall|k: int|
                0 <= k < after@.len() ==> is_subscribed(ids, handles, #[trigger] after@[k])
            &&& others_passed_over::<Chain>(config, ids, handles, subscribed_ids(after@))
        }
    }
}

/// Whether each of the subscriptions is to a chain of `chains`.
pub open spec fn subscribed_within<Chain: ChainHandle>(
    subscriptions: Seq<Subscribed<Chain>>,
    chains: Seq<Seq<char>>,
) -> bool {
    forall|i: int|
        0 <= i < subscriptions.len() ==> chains.contains((#[trigger] subscriptions[i]).chain_id@)
}

/// Subscribes to the events of every configured chain.
///
/// A chain that cannot be reached, or does not take the subscription, is
/// passed over. Where no chain is left, and so where none is configured, the
/// answer is `NoChainsAvailable`. Else the subscriptions come in the order
/// of the configuration, each to a configured chain that has a handle.
pub fn init_subscriptions<Chain: ChainHandle>(
    config: &Config,
    registry: &mut Registry<Chain>,
) -> (r: Result<Vec<Subscribed<Chain>>, Error>)
    requires
        old(registry).wf(),
    ensures
        final(registry).wf(),
        grows_within(old(registry).ids(), final(registry).ids(), config.chain_ids()),
        config.chains@.len() == 0 ==> r is Err,
        match r {
            Ok(subscriptions) => {
                &&& 0 < subscriptions@.len() <= config.chains@.len()
                &&& picked_in_order(subscribed_ids(subscriptions@), config.chain_ids())
                &&& subscribed_within(subscriptions@, config.chain_ids())
                &&& subscribed_within(subscriptions@, final(registry).ids())
                &&& forall|k: int|
                    0 <= k < subscriptions@.len() ==> is_subscribed(
                        final(registry).ids(),
                        final(registry).handles(),
                        #[trigger] subscriptions@[k],
                    )
                &&& others_passed_over::<Chain>(
                    *config,
                    final(registry).ids(),
                    final(registry).handles(),
                    subscribed_ids(subscriptions@),
                )
            },
            Err(e) => {
                &&& e is NoChainsAvailable
                &&& forall|i: int|
                    0 <= i < config.chains@.len() ==> is_passed_over::<Chain>(
                        *config,
                        final(registry).ids(),
                        final(registry).handles(),
                        #[trigger] config.chain_ids()[i],
                    )
            },
        },
        handles_kept(old(registry).handles(), final(registry).handles()),
{
    let ghost ids0 = registry.ids();
    let ghost handles0 = registry.handles();
    proof {
        assert(ids0.take(ids0.len() as int) =~= ids0);
        assert(handles0.take(handles0.len() as int) =~= handles0);
    }
    let mut subscriptions: Vec<Subscribed<Chain>> = Vec::new();
    let mut i: usize = 0;
    while i < config.chains.len()
        invariant
            i <= config.chains.len(),
            registry.wf(),
            grows_within(ids0, registry.ids(), config.chain_ids()),
            subscriptions@.len() <= i,
            picked_in_order(subscribed_ids(subscriptions@), config.chain_ids().take(i as int)),
            subscribed_within(subscriptions@, config.chain_ids()),
            subscribed_within(subscriptions@, registry.ids()),
            forall|k: int|
                0 <= k < subscriptions@.len() ==> is_subscribed(
                    registry.ids(),
                    registry.handles(),
                    #[trigger] subscriptions@[k],
                ),
            handles_kept(handles0, registry.handles()),
            forall|j: int|
                0 <= j < i && !subscribed_ids(subscriptions@).contains(
                    #[trigger] config.chain_ids()[j],
                ) ==> is_passed_over::<Chain>(
                    *config,
                    registry.ids(),
                    registry.handles(),
                    config.chain_ids()[j],
                ),
        decreases config.chains.len() - i,
    {
        let id = &config.chains[i].id;
        let ghost ids1 = registry.ids();
        let ghost handles1 = registry.handles();
        let ghost subs1 = subscriptions@;
        let found = registry.get_or_spawn(config, id);
        let ghost ids2 = registry.ids();
        let ghost handles2 = registry.handles();
        proof {
            lemma_handles_kept_twice(handles0, handles1, handles2);
            assert forall|j: int|
                0 <= j < i && !subscribed_ids(subs1).contains(
                    #[trigger] config.chain_ids()[j],
                ) implies is_passed_over::<Chain>(*config, ids2, handles2, config.chain_ids()[j]) by {
                let name = config.chain_ids()[j];
                assert(is_passed_over::<Chain>(*config, ids1, handles1, name));
                if !is_spawn_refused::<Chain>(*config, name) {
                    let (handle, cause) = choose|handle: Chain, cause: RelayerError|
                        is_handle_of(ids1, handles1, name, handle) && #[trigger] call_ensures(
                            Chain::subscribe,
                            (&handle,),
                            Err::<Subscription, RelayerError>(cause),
                        );
                    lemma_handle_stays(ids1, handles1, ids2, handles2, name, handle);
                    assert(is_subscription_refused(ids2, handles2, name));
                }
            }
            assert forall|k: int| 0 <= k < subs1.len() implies is_subscribed(
                registry.ids(),
                registry.handles(),
                #[trigger] subs1[k],
            ) by {
                lemma_handle_stays(
                    ids1,
                    handles1,
                    registry.ids(),
                    registry.handles(),
                    subs1[k].chain_id@,
                    subs1[k].chain,
                );
            }
            let seen = config.chain_ids().take(i + 1);
            assert(seen.drop_last() == config.chain_ids().take(i as int));
            assert(seen.last() == id@);
            assert(picked_in_order(subscribed_ids(subs1), seen));
            lemma_grows_twice(ids0, ids1, registry.ids(), config.chain_ids());
            lemma_grows_keeps(ids1, registry.ids(), config.chain_ids());
            assert(config.chain_ids()[i as int] == id@);
        }
        match found {
            Ok(chain) => {
                let answer = chain.subscribe();
                match answer {
                    Ok(subscription) => {
                        subscriptions.push(Subscribed { chain_id: id.clone(), chain, subscription });
                        proof {
                            assert forall|j: int|
                                0 <= j <= i && !subscribed_ids(subscriptions@).contains(
                                    #[trigger] config.chain_ids()[j],
                                ) implies is_passed_over::<Chain>(
                                *config,
                                ids2,
                                handles2,
                                config.chain_ids()[j],
                            ) by {
                                let name = config.chain_ids()[j];
                                assert(subscribed_ids(subscriptions@)[subs1.len() as int] == id@);
                                assert(name != id@);
                                if subscribed_ids(subs1).contains(name) {
                                    let k = choose|k: int|
                                        0 <= k < subs1.len() && subscribed_ids(subs1)[k] == name;
                                    assert(subscribed_ids(subscriptions@)[k] == name);
                                }
                            }
                            let seen = config.chain_ids().take(i + 1);
                            let picked = subscribed_ids(subscriptions@);
                            assert(picked.drop_last() =~= subscribed_ids(subs1));
                            assert(picked.last() == id@);
                            assert(picked_in_order(picked, seen));
                            assert forall|k: int| 0 <= k < subscriptions@.len() implies config.chain_ids().contains(
                                (#[trigger] subscriptions@[k]).chain_id@,
                            ) && registry.ids().contains(subscriptions@[k].chain_id@) by {
                                if k < subs1.len() {
                                    assert(subscriptions@[k] == subs1[k]);
                                }
                            }
                            assert forall|k: int| 0 <= k < subscriptions@.len() implies is_subscribed(
                                registry.ids(),
                                registry.handles(),
                                #[trigger] subscriptions@[k],
                            ) by {
                                if k < subs1.len() {
                                    assert(subscriptions@[k] == subs1[k]);
                                }
                            }
                        }
                    },
                    Err(cause) => {
                        proof {
                            assert(call_ensures(
                                Chain::subscribe,
                                (&chain,),
                                Err::<Subscription, RelayerError>(cause),
                            ));
                            assert(is_subscription_refused(ids2, handles2, id@));
                        }
                    },
                }
            },
            Err(e) => {
                proof {
                    assert(config.chain_ids().contains(id@));
                    assert(e is RuntimeFailed);
                    assert(is_spawn_refused::<Chain>(*config, id@));
                }
            },
        }
        i = i + 1;
    }
    if subscriptions.len() == 0 {
        proof {
            assert forall|j: int| 0 <= j < config.chains@.len() implies is_passed_over::<Chain>(
                *config,
                registry.ids(),
                registry.handles(),
                #[trigger] config.chain_ids()[j],
            ) by {
                if subscribed_ids(subscriptions@).contains(config.chain_ids()[j]) {
                    let k = choose|k: int|
                        0 <= k < subscribed_ids(subscriptions@).len() && subscribed_ids(
                            subscriptions@,
                        )[k] == config.chain_ids()[j];
                }
            }
        }
        return Err(Error::NoChainsAvailable);
    }
    proof {
        assert(config.chain_ids().take(config.chains@.len() as int) == config.chain_ids());
    }
    Ok(subscriptions)
}

/// What the supervisor holds: the chains that have a handle and the objects
/// that have a worker, each in the order in which they were started.
pub fn state<Chain: ChainHandle, W: Worker>(registry: &Registry<Chain>, workers: &WorkerMap<W>) -> (r:
    SupervisorState)
    ensures
        r.chains.deep_view() == registry.ids(),
        r.workers.deep_view() == workers.object_views(),
{
    let chains = registry.chains();
    SupervisorState::new(chains, workers.objects())
}

/// Whether what is held, the chains `handles` and the objects `workers`,
/// was offered to the queue of `reply_to`, whether or not it was taken.
pub open spec fn is_dumped(
    handles: Seq<Seq<char>>,
    workers: Seq<ObjectView>,
    reply_to: Sender<SupervisorState>,
) -> bool {
    exists|sent: SupervisorState, taken: bool|
        {
            &&& sent.chains.deep_view() == handles
            &&& sent.workers.deep_view() == workers
            &&& #[trigger] is_offered(reply_to, sent, taken)
        }
}

/// Whether the queue of `reply_to` was sent the word that the loop ends,
/// whether or not it was taken.
pub open spec fn is_told_of_the_end(reply_to: Sender<()>) -> bool {
    exists|taken: bool| #[trigger] is_sent(reply_to, (), taken)
}

/// Whether `taken` says that the request `m` of the REST server was
/// answered: what is held, the chains `handles` and the objects `workers`,
/// was sent through the sender of the request, and the queue took it.
pub open spec fn is_answered(
    handles: Seq<Seq<char>>,
    workers: Seq<ObjectView>,
    m: RestCommand,
    taken: bool,
) -> bool {
    match m {
        RestCommand::DumpState(reply) => exists|sent: SupervisorState|
            {
                &&& sent.chains.deep_view() == handles
                &&& sent.workers.deep_view() == workers
                &&& #[trigger] is_sent(reply, sent, taken)
            },
    }
}

/// Whether one request of the REST server was answered where one was
/// waiting in the queue of `rest_rx`: see `is_answered`.
pub open spec fn is_next_answered(
    handles: Seq<Seq<char>>,
    workers: Seq<ObjectView>,
    rest_rx: RequestReceiver,
) -> bool {
    exists|received: Option<RestCommand>|
        {
            &&& #[trigger] is_received(rest_rx, received)
            &&& received matches Some(m) ==> exists|taken: bool| #[trigger]
                is_answered(handles, workers, m, taken)
        }
}

/// Offers what the supervisor holds to the queue of `reply_to`, without
/// waiting for room; whether it was taken is not looked at.
pub fn dump_state<Chain: ChainHandle, W: Worker>(
    registry: &Registry<Chain>,
    workers: &WorkerMap<W>,
    reply_to: Sender<SupervisorState>,
)
    ensures
        is_dumped(registry.ids(), workers.object_views(), reply_to),
{
    let state = state(registry, workers);
    let ghost sent = state;
    let taken = offer_through(&reply_to, state);
    assert(is_offered(reply_to, sent, taken));
}

/// Answers a request of the REST server: what the supervisor holds is sent
/// through the sender of the request. The answer is whether the sender's
/// queue took it.
pub fn handle_rest_cmd<Chain: ChainHandle, W: Worker>(
    registry: &Registry<Chain>,
    workers: &WorkerMap<W>,
    m: RestCommand,
) -> (r: bool)
    ensures
        is_answered(registry.ids(), workers.object_views(), m, r),
{
    match m {
        RestCommand::DumpState(reply) => {
            let state = state(registry, workers);
            send_through(&reply, state)
        },
    }
}

/// Answers one request of the REST server, where one is waiting.
pub fn handle_rest_requests<Chain: ChainHandle, W: Worker>(
    registry: &Registry<Chain>,
    workers: &WorkerMap<W>,
    rest_rx: &RequestReceiver,
)
    ensures
        is_next_answered(registry.ids(), workers.object_views(), *rest_rx),
{
    let received = receive_from(rest_rx);
    let ghost found = received;
    match received {
        Some(cmd) => {
            let taken = handle_rest_cmd(registry, workers, cmd);
            assert(is_answered(registry.ids(), workers.object_views(), found->0, taken));
        },
        None => {},
    }
    assert(is_received(*rest_rx, found));
}

/// Whether the loop of the supervisor goes on after a step.
#[derive(Clone, Copy, Debug, PartialEq, Eq, Structural)]
pub enum StepResult {
    Break,
    Continue,
}

/// What a command does to what the supervisor holds and to its
/// subscriptions, and whether the loop goes on after it.
///
/// `Stop` ends the loop and changes nothing; the sender of the command is
/// sent word of it. `DumpState` changes nothing; what is held is offered to
/// the sender of the command. A
/// change of the configuration is applied as `updated_config` says; then,
/// where it changed the chains, the chains are subscribed to anew, which may
/// start handles of configured chains, and the subscriptions are replaced,
/// or stay as they were where no chain could be subscribed to.
pub open spec fn cmd_effect<Chain: ChainHandle>(
    before: SupervisorView,
    cmd: SupervisorCmd,
    old_subscriptions: Vec<Subscribed<Chain>>,
    after: SupervisorView,
    new_subscriptions: Vec<Subscribed<Chain>>,
    r: StepResult,
) -> bool {
    match cmd {
        SupervisorCmd::Stop(reply_to) => {
            &&& r == StepResult::Break
            &&& after == before
            &&& new_subscriptions == old_subscriptions
            &&& is_told_of_the_end(reply_to)
        },
        SupervisorCmd::DumpState(reply_to) => {
            &&& r == StepResult::Continue
            &&& after == before
            &&& new_subscriptions == old_subscriptions
            &&& is_dumped(before.handles, before.workers, reply_to)
        },
        SupervisorCmd::UpdateConfig(update) => {
            &&& r == StepResult::Continue
            &&& exists|between: SupervisorView, effect: CmdEffect|
                {
                    &&& #[trigger] updated_config(before, between, update, effect)
                    &&& after.chains == between.chains
                    &&& after.workers == between.workers
                    &&& grows_within(between.handles, after.handles, ids_of(between.chains))
                    &&& effect == CmdEffect::Nothing ==> new_subscriptions == old_subscriptions
                }
            &&& update matches ConfigUpdate::Remove(id) ==> {
                &&& !ids_of(after.chains).contains(id@)
                &&& !after.handles.contains(id@)
            }
            &&& {
                ||| new_subscriptions == old_subscriptions
                ||| new_subscriptions@.len() > 0 && subscribed_within(
                    new_subscriptions@,
                    ids_of(after.chains),
                )
            }
        },
    }
}

/// What comes of a look into the queue of commands: where none was waiting,
/// the loop goes on and nothing changes; a command that was waiting is
/// carried out, as `cmd_effect` says.
pub open spec fn next_cmd_effect<Chain: ChainHandle>(
    received: Option<SupervisorCmd>,
    before: SupervisorView,
    old_subscriptions: Vec<Subscribed<Chain>>,
    after: SupervisorView,
    new_subscriptions: Vec<Subscribed<Chain>>,
    r: StepResult,
) -> bool {
    match received {
        Some(cmd) => cmd_effect(before, cmd, old_subscriptions, after, new_subscriptions, r),
        None => {
            &&& r == StepResult::Continue
            &&& after == before
            &&& new_subscriptions == old_subscriptions
        },
    }
}

/// The receiving ends of the subscriptions, in order.
pub open spec fn subscription_queues<Chain: ChainHandle>(
    subscriptions: Seq<Subscribed<Chain>>,
) -> Seq<Subscription> {
    Seq::new(subscriptions.len(), |i: int| subscriptions[i].subscription)
}

/// What dealing with `batch`, which came from the subscription to `chain`,
/// does to what the supervisor holds, and how it ends.
///
/// The configuration stays. Handles may be started, of configured chains;
/// workers may be started, with `chain` as the source of their objects. A
/// batch of events is processed; one that names another chain is not, with
/// `HandleMismatch`, and an empty one succeeds, and both change nothing. A
/// cancelled subscription has the pending packets cleared, and any other
/// error is passed over; neither starts a handle or a worker.
pub open spec fn batch_effect(
    before: SupervisorView,
    chain: Seq<char>,
    batch: ArcBatch,
    after: SupervisorView,
    outcome: BatchOutcome,
) -> bool {
    &&& after.chains == before.chains
    &&& grows_within(before.handles, after.handles, ids_of(before.chains))
    &&& adds_for_chain(before.workers, after.workers, chain)
    &&& match *batch {
        Ok(events) => {
            &&& outcome is Processed
            &&& events.chain_id@ == chain && events.events@.len() == 0 ==> {
                &&& outcome matches BatchOutcome::Processed(Ok(_))
                &&& after.workers == before.workers
                &&& after.handles == before.handles
            }
            &&& events.chain_id@ != chain ==> {
                &&& outcome matches BatchOutcome::Processed(Err(e))
                &&& e is HandleMismatch
                &&& after.workers == before.workers
                &&& after.handles == before.handles
            }
        },
        Err(MonitorError::SubscriptionCancelled(_)) => {
            &&& outcome is PendingCleared
            &&& after.workers == before.workers
            &&& after.handles == before.handles
        },
        Err(_) => {
            &&& outcome is Ignored
            &&& after.workers == before.workers
            &&& after.handles == before.handles
        },
    }
}

/// What comes of a look into the subscriptions: where no batch was waiting,
/// nothing changes; a batch that was waiting in the subscription at some
/// place is dealt with for the chain of that subscription, as `batch_effect`
/// says.
pub open spec fn next_batch_effect<Chain: ChainHandle>(
    received: Option<(usize, ArcBatch)>,
    before: SupervisorView,
    subscriptions: Seq<Subscribed<Chain>>,
    after: SupervisorView,
    r: Option<BatchOutcome>,
) -> bool {
    match received {
        Some((at, batch)) => {
            &&& at < subscriptions.len()
            &&& r matches Some(outcome)
            &&& batch_effect(before, subscriptions[at as int].chain_id@, batch, after, outcome)
        },
        None => r is None && after == before,
    }
}

/// The supervisor: it receives the events of the configured chains and hands
/// them to the workers, and it takes commands.
pub struct Supervisor<Chain: ChainHandle, W: Worker> {
    config: Config,
    registry: Registry<Chain>,
    workers: WorkerMap<W>,
    cmd_rx: Receiver<SupervisorCmd>,
    rest_rx: Option<RequestReceiver>,
    client_state_filter: FilterPolicy,
}

impl<Chain: ChainHandle, W: Worker> Supervisor<Chain, W> {
    /// What the supervisor holds, by name.
    pub closed spec fn view(&self) -> SupervisorView {
        view_of(self.config, self.registry, self.workers)
    }

    /// No chain has two handles and no object two workers; every chain that
    /// has a handle is configured, and the source of every object that has a
    /// worker is. This holds of every supervisor that `new` made, after any
    /// calls.
    pub closed spec fn wf(&self) -> bool {
        &&& self.registry.wf()
        &&& self.workers.wf()
        &&& self.client_state_filter.wf()
        &&& consistent(self.view())
    }

    /// The receiving end of the commands.
    pub closed spec fn cmd_queue(&self) -> Receiver<SupervisorCmd> {
        self.cmd_rx
    }

    /// What is relayed, and whether the filter is on.
    pub closed spec fn mode(&self) -> ModeConfig {
        self.config.mode
    }

    /// The configuration as it is now.
    pub closed spec fn settings(&self) -> Config {
        self.config
    }

    /// The workers, each at the place of its object in the view.
    pub closed spec fn worker_seq(&self) -> Seq<W> {
        self.workers.worker_seq()
    }

    /// The handles, each at the place of its chain's name in the view.
    pub closed spec fn handle_seq(&self) -> Seq<Chain> {
        self.registry.handles()
    }

    /// What the filter on clients has decided so far, by client.
    pub closed spec fn decisions(&self) -> Map<ClientKey, Permission> {
        self.client_state_filter.cache()
    }

    /// Whether `after` and `r` are what comes of dealing with what was
    /// received from the subscriptions, as far as the workers go: see
    /// `is_dealt_with`. Where nothing was received the workers stay.
    pub open spec fn dealt_with(
        &self,
        received: Option<(usize, ArcBatch)>,
        subscriptions: Seq<Subscribed<Chain>>,
        after: &Self,
        r: Option<BatchOutcome>,
    ) -> bool {
        match received {
            Some((at, batch)) => {
                &&& at < subscriptions.len()
                &&& r is Some
                &&& is_dealt_with::<Chain, W>(
                    self.settings(),
                    subscriptions[at as int].chain,
                    subscriptions[at as int].chain_id@,
                    batch,
                    self.view().workers,
                    self.worker_seq(),
                    after.view().workers,
                    after.worker_seq(),
                    r->0,
                )
            },
            None => after.worker_seq() == self.worker_seq(),
        }
    }

    /// The receiving end of the requests for the state, where the
    /// supervisor was given one.
    pub closed spec fn rest_queue(&self) -> Option<RequestReceiver> {
        self.rest_rx
    }

    /// Whether `after` has the settings of this supervisor: what is
    /// relayed and whether the filter is on, and the two receiving ends.
    pub open spec fn keeps_settings(&self, after: &Self) -> bool {
        &&& after.mode() == self.mode()
        &&& after.cmd_queue() == self.cmd_queue()
        &&& after.rest_queue() == self.rest_queue()
    }

    /// Whether `after` and `r` are what comes of one look into the
    /// subscriptions: what was waiting in them was received, and dealt with
    /// as `next_batch_effect` says. The queue of commands stays.
    pub open spec fn took_batch(
        &self,
        subscriptions: Seq<Subscribed<Chain>>,
        after: &Self,
        r: Option<BatchOutcome>,
    ) -> bool {
        &&& self.keeps_settings(after)
        &&& cache_extends(self.decisions(), after.decisions())
        &&& exists|received: Option<(usize, ArcBatch)>|
            {
                &&& is_received_among(subscription_queues(subscriptions), received)
                &&& #[trigger] next_batch_effect(
                    received,
                    self.view(),
                    subscriptions,
                    after.view(),
                    r,
                )
                &&& self.dealt_with(received, subscriptions, after, r)
            }
    }

    /// What a command that was received does beyond what `cmd_effect`
    /// says over the views. The decisions of the filter on clients stand. A
    /// change of the configuration has the effect that `is_update_outcome`
    /// says, with the handles held once it was applied; and the
    /// subscriptions are then as `is_resubscribed` says.
    pub open spec fn carried_out(
        &self,
        received: Option<SupervisorCmd>,
        old_subscriptions: Vec<Subscribed<Chain>>,
        after: &Self,
        new_subscriptions: Vec<Subscribed<Chain>>,
    ) -> bool {
        &&& cache_extends(self.decisions(), after.decisions())
        &&& received matches Some(SupervisorCmd::UpdateConfig(update)) ==> exists|
            effect: CmdEffect,
            held: Seq<Seq<char>>,
        |
            {
                &&& #[trigger] is_update_outcome::<Chain>(self.settings(), held, update, effect)
                &&& grows_within(held, after.view().handles, ids_of(after.view().chains))
                &&& is_resubscribed(
                    after.settings(),
                    after.view().handles,
                    after.handle_seq(),
                    effect,
                    old_subscriptions,
                    new_subscriptions,
                )
            }
    }

    /// Whether `after`, `new_subscriptions` and `r` are what comes of one
    /// look into the queue of commands: what was waiting in it was received,
    /// and carried out as `next_cmd_effect` and `carried_out` say. The
    /// settings stay.
    pub open spec fn took_cmd(
        &self,
        old_subscriptions: Vec<Subscribed<Chain>>,
        after: &Self,
        new_subscriptions: Vec<Subscribed<Chain>>,
        r: StepResult,
    ) -> bool {
        &&& self.keeps_settings(after)
        &&& exists|received: Option<SupervisorCmd>|
            {
                &&& is_received(self.cmd_queue(), received)
                &&& #[trigger] next_cmd_effect(
                    received,
                    self.view(),
                    old_subscriptions,
                    after.view(),
                    new_subscriptions,
                    r,
                )
                &&& self.carried_out(received, old_subscriptions, after, new_subscriptions)
            }
    }

    /// Whether `after`, `new_subscriptions` and `r` are what comes of one
    /// step of the loop: a look into the subscriptions, which leaves the
    /// supervisor as `between`, then a look into the queue of commands; the
    /// answer holds whether the loop goes on and the outcome of the batch.
    pub open spec fn took_step(
        &self,
        old_subscriptions: Vec<Subscribed<Chain>>,
        after: &Self,
        new_subscriptions: Vec<Subscribed<Chain>>,
        r: Result<(StepResult, Option<BatchOutcome>), Error>,
    ) -> bool {
        &&& r is Ok
        &&& self.keeps_settings(after)
        &&& exists|between: Self|
            {
                &&& self.took_batch(old_subscriptions@, &between, r->Ok_0.1)
                &&& #[trigger] between.took_cmd(
                    old_subscriptions,
                    after,
                    new_subscriptions,
                    r->Ok_0.0,
                )
            }
    }

    /// In a well-formed supervisor what is held is consistent, no chain has
    /// two handles and no object two workers.
    pub proof fn lemma_wf(&self)
        requires
            self.wf(),
        ensures
            consistent(self.view()),
            distinct_names(self.view().handles),
            crate::worker::distinct_objects(self.view().workers),
    {
        self.registry.lemma_distinct();
        self.workers.lemma_distinct();
    }

    /// A supervisor for the chains of `config`, with the sending end of its
    /// commands. It holds no handle and no worker yet.
    pub fn new(config: Config, rest_rx: Option<RequestReceiver>) -> (r: (Self, Sender<SupervisorCmd>))
        ensures
            r.0.wf(),
            r.0.view().chains == config.chains@,
            r.0.view().handles.len() == 0,
            r.0.view().workers.len() == 0,
            r.0.mode() == config.mode,
            r.0.rest_queue() == rest_rx,
    {
        let registry = Registry::new();
        Self::new_with_registry(config, registry, rest_rx)
    }

    /// A supervisor for the chains of `config` that starts with the handles
    /// of `registry`, which must all be of configured chains; else as `new`.
    pub fn new_with_registry(
        config: Config,
        registry: Registry<Chain>,
        rest_rx: Option<RequestReceiver>,
    ) -> (r: (Self, Sender<SupervisorCmd>))
        requires
            registry.wf(),
            names_within(registry.ids(), config.chain_ids()),
        ensures
            r.0.wf(),
            r.0.view().chains == config.chains@,
            r.0.view().handles == registry.ids(),
            r.0.view().workers.len() == 0,
            r.0.mode() == config.mode,
            r.0.rest_queue() == rest_rx,
    {
        let workers = WorkerMap::new();
        let client_state_filter = FilterPolicy::default();
        let (cmd_tx, cmd_rx) = unbounded();
        let supervisor = Supervisor {
            config,
            registry,
            workers,
            cmd_rx,
            rest_rx,
            client_state_filter,
        };
        (supervisor, cmd_tx)
    }

    /// What the supervisor holds.
    pub fn state(&self) -> (r: SupervisorState)
        ensures
            r.chains.deep_view() == self.view().handles,
            r.workers.deep_view() == self.view().workers,
    {
        state(&self.registry, &self.workers)
    }

    /// The workers as they are now.
    pub fn workers(&self) -> (r: &WorkerMap<W>)
        ensures
            r.object_views() == self.view().workers,
            r.worker_seq() == self.worker_seq(),
    {
        &self.workers
    }

    /// The configuration as it is now.
    pub fn config(&self) -> (r: &Config)
        ensures
            *r == self.settings(),
            r.chains@ == self.view().chains,
            r.mode == self.mode(),
    {
        &self.config
    }

    /// Whether the supervisor was given a receiving end for the requests
    /// for its state.
    pub fn has_rest_receiver(&self) -> (r: bool)
        ensures
            r == self.rest_queue() is Some,
    {
        self.rest_rx.is_some()
    }

    /// Asks every configured chain for its health.
    pub fn health_check(&mut self) -> (r: Vec<(ChainId, HealthReport)>)
        requires
            old(self).wf(),
        ensures
            final(self).wf(),
            final(self).view().chains == old(self).view().chains,
            final(self).view().workers == old(self).view().workers,
            final(self).worker_seq() == old(self).worker_seq(),
            final(self).settings() == old(self).settings(),
            old(self).keeps_settings(final(self)),
            r@.len() == old(self).view().chains.len(),
            forall|i: int|
                0 <= i < r@.len() ==> {
                    &&& (#[trigger] r@[i]).0 == old(self).view().chains[i].id
                    &&& is_health_of(
                        old(self).settings(),
                        final(self).view().handles,
                        final(self).handle_seq(),
                        old(self).view().chains[i].id@,
                        r@[i].1,
                    )
                },
    {
        let ghost before = self.view();
        let r = health_check(&self.config, &mut self.registry);
        proof {
            assert(before.workers.take(before.workers.len() as int) =~= before.workers);
            lemma_growth_is_consistent(before, self.view());
        }
        r
    }

    /// What the loop of the supervisor does before its first step: the
    /// workers are seeded from the state of the chains, and the chains are
    /// subscribed to. Fails with `NoChainsAvailable` where no chain could be
    /// subscribed to.
    pub fn startup(&mut self) -> (r: Result<Vec<Subscribed<Chain>>, Error>)
        requires
            old(self).wf(),
        ensures
            final(self).wf(),
            final(self).view().chains == old(self).view().chains,
            final(self).settings() == old(self).settings(),
            old(self).keeps_settings(final(self)),
            crate::supervisor::spawn::are_chains_scanned::<Chain>(
                old(self).settings(),
                ids_of(old(self).view().chains),
                old(self).decisions(),
                final(self).decisions(),
                old(self).view().workers,
                final(self).view().workers,
            ),
            match r {
                Ok(subscriptions) => {
                    &&& subscriptions@.len() > 0
                    &&& subscribed_within(subscriptions@, ids_of(final(self).view().chains))
                    &&& picked_in_order(
                        subscribed_ids(subscriptions@),
                        ids_of(final(self).view().chains),
                    )
                    &&& forall|k: int|
                        0 <= k < subscriptions@.len() ==> is_subscribed(
                            final(self).view().handles,
                            final(self).handle_seq(),
                            #[trigger] subscriptions@[k],
                        )
                    &&& others_passed_over::<Chain>(
                        final(self).settings(),
                        final(self).view().handles,
                        final(self).handle_seq(),
                        subscribed_ids(subscriptions@),
                    )
                },
                Err(e) => {
                    &&& e is NoChainsAvailable
                    &&& forall|i: int|
                        0 <= i < final(self).settings().chains@.len() ==> is_passed_over::<Chain>(
                            final(self).settings(),
                            final(self).view().handles,
                            final(self).handle_seq(),
                            #[trigger] final(self).settings().chain_ids()[i],
                        )
                },
            },
    {
        let ghost before = self.view();
        let ctx = spawn_context(SpawnMode::Startup);
        ctx.spawn_workers(
            &self.config,
            &mut self.registry,
            &mut self.client_state_filter,
            &mut self.workers,
        );
        let ghost between = self.view();
        proof {
            lemma_growth_is_consistent(before, between);
        }
        let r = init_subscriptions(&self.config, &mut self.registry);
        proof {
            assert(between.workers.take(between.workers.len() as int) =~= between.workers);
            lemma_growth_is_consistent(between, self.view());
        }
        r
    }

    /// Carries out one command.
    ///
    /// `Stop` is answered, and the loop ends; nothing else changes.
    /// `DumpState` is answered with what the supervisor holds; nothing
    /// changes. A change of the configuration is applied: see
    /// `update_config`. Where it changed the chains, the chains are
    /// subscribed to anew and the subscriptions replaced; where no chain
    /// could be subscribed to, the subscriptions stay as they were.
    pub fn handle_cmd(&mut self, cmd: SupervisorCmd, subscriptions: &mut Vec<Subscribed<Chain>>) -> (r:
        StepResult)
        requires
            old(self).wf(),
        ensures
            final(self).wf(),
            old(self).keeps_settings(final(self)),
            old(self).carried_out(
                Some(cmd),
                *old(subscriptions),
                final(self),
                *final(subscriptions),
            ),
            cmd_effect(
                old(self).view(),
                cmd,
                *old(subscriptions),
                final(self).view(),
                *final(subscriptions),
                r,
            ),
            match cmd {
                SupervisorCmd::Stop(_) => {
                    &&& r == StepResult::Break
                    &&& final(self).view() == old(self).view()
                    &&& *final(subscriptions) == *old(subscriptions)
                },
                SupervisorCmd::DumpState(_) => {
                    &&& r == StepResult::Continue
                    &&& final(self).view() == old(self).view()
                    &&& *final(subscriptions) == *old(subscriptions)
                },
                SupervisorCmd::UpdateConfig(update) => {
                    &&& r == StepResult::Continue
                    &&& exists|between: SupervisorView, effect: CmdEffect|
                        {
                            &&& #[trigger] updated_config(
                                old(self).view(),
                                between,
                                update,
                                effect,
                            )
                            &&& final(self).view().chains == between.chains
                            &&& final(self).view().workers == between.workers
                            &&& grows_within(
                                between.handles,
                                final(self).view().handles,
                                ids_of(between.chains),
                            )
                            &&& effect == CmdEffect::Nothing ==> *final(subscriptions) == *old(subscriptions)
                        }
                    &&& update matches ConfigUpdate::Remove(id) ==> {
                        &&& !ids_of(final(self).view().chains).contains(id@)
                        &&& !final(self).view().handles.contains(id@)
                    }
                    &&& {
                        ||| *final(subscriptions) == *old(subscriptions)
                        ||| final(subscriptions)@.len() > 0 && subscribed_within(
                            final(subscriptions)@,
                            ids_of(final(self).view().chains),
                        )
                    }
                },
            },
    {
        match cmd {
            SupervisorCmd::UpdateConfig(update) => {
                let ghost before = self.view();
                let ghost asked = update;
                let effect = update_config(
                    &mut self.config,
                    &mut self.registry,
                    &mut self.workers,
                    &mut self.client_state_filter,
                    update,
                );
                let ghost between = self.view();
                let ghost held = self.registry.ids();
                proof {
                    assert(is_update_outcome::<Chain>(old(self).settings(), held, asked, effect));
                    assert(held.take(held.len() as int) =~= held);
                    match asked {
                        ConfigUpdate::Add(chain) => {
                            lemma_added_chain_is_consistent(before, between, chain, effect);
                        },
                        ConfigUpdate::Remove(id) => {
                            lemma_removed_chain_is_consistent(before, between, id@, effect);
                        },
                        ConfigUpdate::Update(chain) => {
                            let (mid, removed, added) = choose|
                                mid: SupervisorView,
                                removed: CmdEffect,
                                added: CmdEffect,
                            |
                                {
                                    &&& #[trigger] removed_chain(before, mid, chain.id@, removed)
                                    &&& #[trigger] added_chain(mid, between, chain, added)
                                    &&& effect == removed.spec_or(added)
                                };
                            lemma_removed_chain_is_consistent(before, mid, chain.id@, removed);
                            lemma_added_chain_is_consistent(mid, between, chain, added);
                        },
                    }
                }
                proof {
                    assert(between.handles.take(between.handles.len() as int)
                        =~= between.handles);
                    assert(updated_config(before, between, asked, effect));
                }
                if effect == CmdEffect::ConfigChanged {
                    let made = init_subscriptions(&self.config, &mut self.registry);
                    proof {
                        assert(between.workers.take(between.workers.len() as int)
                            =~= between.workers);
                        lemma_growth_is_consistent(between, self.view());
                        lemma_grows_keeps(
                            between.handles,
                            self.view().handles,
                            ids_of(between.chains),
                        );
                    }
                    match made {
                        Ok(subs) => {
                            *subscriptions = subs;
                        },
                        Err(_) => {},
                    }
                }
                proof {
                    assert(is_resubscribed(
                        self.settings(),
                        self.view().handles,
                        self.handle_seq(),
                        effect,
                        *old(subscriptions),
                        *subscriptions,
                    ));
                }
                StepResult::Continue
            },
            SupervisorCmd::DumpState(reply_to) => {
                dump_state(&self.registry, &self.workers, reply_to);
                StepResult::Continue
            },
            SupervisorCmd::Stop(reply_to) => {
                let taken = send_through(&reply_to, ());
                assert(is_told_of_the_end(reply_to));
                StepResult::Break
            },
        }
    }

    /// Deals with one batch of events, where one is waiting in a
    /// subscription: see `handle_batch`. The outcome is handed back for the
    /// log; `None` where no batch was waiting.
    pub fn handle_next_batch(&mut self, subscriptions: &Vec<Subscribed<Chain>>) -> (r: Option<
        BatchOutcome,
    >)
        requires
            old(self).wf(),
        ensures
            final(self).wf(),
            final(self).view().chains == old(self).view().chains,
            subscriptions@.len() == 0 ==> r is None,
            old(self).took_batch(subscriptions@, final(self), r),
    {
        let mut receivers: Vec<&Subscription> = Vec::new();
        let mut i: usize = 0;
        while i < subscriptions.len()
            invariant
                i <= subscriptions.len(),
                receivers@.len() == i,
                forall|k: int| 0 <= k < i ==> *(#[trigger] receivers@[k]) == subscriptions@[k].subscription,
            decreases subscriptions.len() - i,
        {
            receivers.push(&subscriptions[i].subscription);
            i = i + 1;
        }
        let received = receive_among(&receivers);
        proof {
            assert(queues(receivers@) =~= subscription_queues(subscriptions@));
        }
        let ghost before = self.view();
        let ghost found = received;
        let r = match received {
            Some((at, batch)) => {
                proof {
                    assert(names_within(before.handles, ids_of(before.chains)));
                }
                let handled = handle_batch(
                    &self.config,
                    &mut self.registry,
                    &mut self.client_state_filter,
                    &mut self.workers,
                    &subscriptions[at].chain_id,
                    &subscriptions[at].chain,
                    batch,
                );
                proof {
                    lemma_growth_is_consistent(before, self.view());
                    assert(batch_effect(
                        before,
                        subscriptions@[at as int].chain_id@,
                        batch,
                        self.view(),
                        handled,
                    ));
                }
                Some(handled)
            },
            None => None,
        };
        proof {
            assert(next_batch_effect(found, before, subscriptions@, self.view(), r));
            assert(old(self).dealt_with(found, subscriptions@, self, r));
        }
        r
    }

    /// Carries out one command, where one is waiting: see `handle_cmd`.
    /// Where none is waiting the loop goes on.
    pub fn handle_next_cmd(&mut self, subscriptions: &mut Vec<Subscribed<Chain>>) -> (r: StepResult)
        requires
            old(self).wf(),
        ensures
            final(self).wf(),
            final(self).cmd_queue() == old(self).cmd_queue(),
            old(self).took_cmd(*old(subscriptions), final(self), *final(subscriptions), r),
    {
        let received = receive_from(&self.cmd_rx);
        let ghost got = received;
        let ghost before = self.view();
        let r = match received {
            Some(cmd) => self.handle_cmd(cmd, subscriptions),
            None => StepResult::Continue,
        };
        proof {
            assert(old(self).carried_out(got, *old(subscriptions), self, *subscriptions));
            assert(next_cmd_effect(
                got,
                before,
                *old(subscriptions),
                self.view(),
                *subscriptions,
                r,
            ));
        }
        r
    }

    /// Answers one request of the REST server, where there is a REST server
    /// and a request is waiting. Nothing changes.
    pub fn handle_next_rest_request(&self)
        requires
            self.wf(),
        ensures
            self.rest_queue() matches Some(rest_rx) ==> is_next_answered(
                self.view().handles,
                self.view().workers,
                rest_rx,
            ),
    {
        match &self.rest_rx {
            Some(rest_rx) => {
                handle_rest_requests(&self.registry, &self.workers, rest_rx);
            },
            None => {},
        }
    }

    /// One step of the loop: at most one batch of events is dealt with, then
    /// at most one command, then at most one request of the REST server.
    ///
    /// The answer is `Break` where the command was `Stop`. No step fails:
    /// what goes wrong with a batch is in the outcome of the batch, which is
    /// handed back for the log. What the step does is what the look into the
    /// subscriptions does, then what the look into the queue of commands
    /// does: see `took_batch` and `took_cmd`.
    pub fn run_step(&mut self, subscriptions: &mut Vec<Subscribed<Chain>>) -> (r: Result<
        (StepResult, Option<BatchOutcome>),
        Error,
    >)
        requires
            old(self).wf(),
        ensures
            final(self).wf(),
            r is Ok,
            old(self).took_step(*old(subscriptions), final(self), *final(subscriptions), r),
    {
        let outcome = self.handle_next_batch(subscriptions);
        let ghost between = *self;
        let step = self.handle_next_cmd(subscriptions);
        if step == StepResult::Continue {
            self.handle_next_rest_request();
        }
        let r = Ok((step, outcome));
        proof {
            assert(r->Ok_0.0 == step && r->Ok_0.1 == outcome);
            assert(between.took_cmd(*old(subscriptions), self, *subscriptions, r->Ok_0.0));
            assert(old(self).took_batch(old(subscriptions)@, &between, r->Ok_0.1));
        }
        r
    }

    /// Stops every worker; the loop of the supervisor does so when it ends.
    pub fn shutdown(&mut self)
        requires
            old(self).wf(),
        ensures
            final(self).wf(),
            final(self).view().workers.len() == 0,
            final(self).worker_seq().len() == 0,
            forall|k: int|
                0 <= k < old(self).worker_seq().len() ==> crate::worker::is_stopped(
                    #[trigger] old(self).worker_seq()[k],
                ),
            final(self).view().chains == old(self).view().chains,
            final(self).view().handles == old(self).view().handles,
            final(self).handle_seq() == old(self).handle_seq(),
            old(self).keeps_settings(final(self)),
    {
        let ghost before = self.view();
        self.workers.shutdown();
        proof {
            assert(names_within(before.handles, ids_of(before.chains)));
            assert(self.view().handles == before.handles);
            assert(self.view().workers.len() == 0);
        }
    }
}

} // verus!
