use ibc_relayer::chain::handle::{ArcBatch, ChainHandle, HealthCheck, Subscription};
use ibc_relayer::chain::msgs::{Any, Msg, Proofs, Signer};
use ibc_relayer::chain::requests::{
    QueryClientConnectionsRequest, QueryClientStatesRequest, QueryConnectionChannelsRequest,
};
use ibc_relayer::chain::state::{
    ChannelEnd, ClientState, ConnectionCounterparty, ConnectionEnd, ConnectionState, Counterparty,
    IdentifiedChannelEnd, IdentifiedClientState, Order, State, TrustThreshold,
};
use ibc_relayer::config::{ChainConfig, Config, ModeConfig, PacketFilter};
use ibc_relayer::error::Error as RelayerError;
use ibc_relayer::event::{
    ChannelAttributes, ClientAttributes, ConnectionAttributes, EventBatch, IbcEvent, MonitorError,
    NewBlock, Packet, PacketEvent, WriteAcknowledgement,
};
use ibc_relayer::identifier::{ChainId, ChannelId, ClientId, ConnectionId, Height, PortId, Sequence};
use ibc_relayer::object::{self, Object};
use ibc_relayer::registry::{Registry, SpawnError};
use ibc_relayer::rest;
use ibc_relayer::supervisor::client_state_filter::{
    trust_permission, FilterError, FilterPolicy, Permission,
};
use ibc_relayer::supervisor::cmd::{CmdEffect, ConfigUpdate, SupervisorCmd};
use ibc_relayer::supervisor::error::Error;
use ibc_relayer::supervisor::spawn::{channel_workers, connection_worker, ChannelWorkers, SpawnMode};
use ibc_relayer::supervisor::{
    add_chain, channel_filter_enabled, clear_pending_packets, client_filter_enabled,
    collect_events, handle_batch, handle_rest_cmd, handle_rest_requests, health_check,
    init_subscriptions, permitted, process_batch, relay_on_object, relay_packets_on_channel, remove_chain,
    spawn_context, state, update_chain, update_config, BatchOutcome, HealthReport, StepResult,
    Supervisor,
};
use ibc_relayer::worker::{Worker, WorkerError, WorkerMap};
use std::cell::RefCell;
use std::rc::Rc;
use std::sync::Arc;

struct ChainData {
    peer: String,
    trusted: bool,
    healthy: bool,
    queries: u32,
    sender: Option<crossbeam_channel::Sender<ArcBatch>>,
    shut_down: bool,
}

#[derive(Clone)]
struct MockChain {
    name: String,
    data: Rc<RefCell<ChainData>>,
}

impl MockChain {
    fn asked(&self) {
        self.data.borrow_mut().queries += 1;
    }

    fn open_channel(&self) -> ChannelEnd {
        ChannelEnd::new(
            State::Open,
            Order::Unordered,
            Counterparty::new(PortId::new("transfer"), None),
            vec![ConnectionId::new("connection-0")],
            "ics20-1".to_string(),
        )
    }

    fn inject(&self, batch: Result<EventBatch, MonitorError>) {
        let data = self.data.borrow();
        data.sender.as_ref().unwrap().send(Arc::new(batch)).unwrap();
    }
}

fn channel_number(id: &ChannelId) -> Option<u32> {
    match id.as_str() {
        "channel-0" => Some(0),
        "channel-1" => Some(1),
        "channel-2" => Some(2),
        _ => None,
    }
}

impl ChainHandle for MockChain {
    fn spawn(config: &ChainConfig) -> Result<Self, RelayerError> {
        if config.rpc_addr == "down" {
            return Err(RelayerError::Runtime("unreachable".to_string()));
        }
        let name = config.id.to_string();
        let peer = if name == "ibc-0" { "ibc-1" } else { "ibc-0" };
        Ok(MockChain {
            name,
            data: Rc::new(RefCell::new(ChainData {
                peer: peer.to_string(),
                trusted: config.rpc_addr != "untrusted",
                healthy: config.rpc_addr != "sick",
                queries: 0,
                sender: None,
                shut_down: false,
            })),
        })
    }

    fn shutdown(&self) -> Result<(), RelayerError> {
        self.data.borrow_mut().shut_down = true;
        Ok(())
    }

    fn id(&self) -> ChainId {
        ChainId::new(&self.name)
    }

    fn health_check(&self) -> Result<HealthCheck, RelayerError> {
        if self.data.borrow().healthy {
            Ok(HealthCheck::Healthy)
        } else {
            Ok(HealthCheck::Unhealthy("lagging".to_string()))
        }
    }

    fn subscribe(&self) -> Result<Subscription, RelayerError> {
        let (tx, rx) = crossbeam_channel::unbounded();
        self.data.borrow_mut().sender = Some(tx);
        Ok(rx)
    }

    fn query_latest_height(&self) -> Result<Height, RelayerError> {
        Ok(Height::new(0, 10))
    }

    fn query_clients(&self, _request: QueryClientStatesRequest) -> Result<Vec<IdentifiedClientState>, RelayerError> {
        self.asked();
        let client_state = self.query_client_state(&ClientId::new("07-tendermint-0"), Height::zero())?;
        Ok(vec![IdentifiedClientState { client_id: ClientId::new("07-tendermint-0"), client_state }])
    }

    fn query_client_state(&self, _client_id: &ClientId, _height: Height) -> Result<ClientState, RelayerError> {
        self.asked();
        let data = self.data.borrow();
        let threshold = if data.trusted { (1, 3) } else { (2, 3) };
        Ok(ClientState {
            chain_id: ChainId::new(&data.peer),
            trust_threshold: Some(TrustThreshold { numerator: threshold.0, denominator: threshold.1 }),
        })
    }

    fn query_client_connections(&self, _request: QueryClientConnectionsRequest) -> Result<Vec<ConnectionId>, RelayerError> {
        self.asked();
        Ok(vec![ConnectionId::new("connection-0")])
    }

    fn query_connection(&self, connection_id: &ConnectionId, _height: Height) -> Result<ConnectionEnd, RelayerError> {
        self.asked();
        if connection_id.as_str() != "connection-0" {
            return Err(RelayerError::Query("no such connection".to_string()));
        }
        Ok(ConnectionEnd {
            state: ConnectionState::Open,
            client_id: ClientId::new("07-tendermint-0"),
            counterparty: ConnectionCounterparty {
                client_id: ClientId::new("07-tendermint-7"),
                connection_id: Some(ConnectionId::new("connection-0")),
            },
            delay_period: 0,
        })
    }

    fn query_connection_channels(&self, _request: QueryConnectionChannelsRequest) -> Result<Vec<IdentifiedChannelEnd>, RelayerError> {
        self.asked();
        let mut channels = Vec::new();
        for id in ["channel-0", "channel-1", "channel-2"] {
            let mut end = self.open_channel();
            end.remote.channel_id = Some(ChannelId::new(id));
            channels.push(IdentifiedChannelEnd::new(PortId::new("transfer"), ChannelId::new(id), end));
        }
        Ok(channels)
    }

    fn query_channel(&self, port_id: &PortId, channel_id: &ChannelId, _height: Height) -> Result<ChannelEnd, RelayerError> {
        self.asked();
        if port_id.as_str() == "transfer" && channel_number(channel_id).is_some() {
            let mut end = self.open_channel();
            end.remote.channel_id = Some(channel_id.clone());
            Ok(end)
        } else {
            Ok(ChannelEnd::new(
                State::Uninitialized,
                Order::Unordered,
                Counterparty::new(PortId::new("none"), None),
                Vec::new(),
                String::new(),
            ))
        }
    }

    fn build_channel_proofs(&self, _port_id: &PortId, _channel_id: &ChannelId, height: Height) -> Result<Proofs, RelayerError> {
        Ok(Proofs { height, object_proof: Vec::new(), other_proof: None })
    }

    fn build_update_client(&self, _client_id: &ClientId, _src_chain_id: &ChainId, _target: Height) -> Result<Vec<Any>, RelayerError> {
        Ok(Vec::new())
    }

    fn get_signer(&self) -> Result<Signer, RelayerError> {
        Ok(Signer("relayer".to_string()))
    }

    fn module_version(&self, _port_id: &PortId) -> Result<String, RelayerError> {
        Ok("ics20-1".to_string())
    }

    fn send_msgs(&self, _msgs: Vec<Msg>) -> Result<Vec<IbcEvent>, RelayerError> {
        Ok(Vec::new())
    }
}

#[derive(Debug, PartialEq)]
enum Received {
    Events(Height, Vec<IbcEvent>, ChainId),
    NewBlock(Height, NewBlock),
    Clear,
    Shutdown,
}

struct MockWorker {
    object: Object,
    src: ChainId,
    dst: ChainId,
    received: RefCell<Vec<Received>>,
    full: bool,
}

impl Worker for MockWorker {
    fn spawn<Chain: ChainHandle>(object: &Object, src: Chain, dst: Chain, config: &Config) -> Self {
        MockWorker {
            object: object.clone(),
            src: src.id(),
            dst: dst.id(),
            received: RefCell::new(Vec::new()),
            full: config.mode.packets.clear_interval == 1,
        }
    }

    fn send_events(&self, height: Height, events: Vec<IbcEvent>, chain_id: ChainId) -> Result<(), WorkerError> {
        if self.full {
            return Err(WorkerError::ChannelFull("no room".to_string()));
        }
        self.received.borrow_mut().push(Received::Events(height, events, chain_id));
        Ok(())
    }

    fn send_new_block(&self, height: Height, new_block: NewBlock) -> Result<(), WorkerError> {
        self.received.borrow_mut().push(Received::NewBlock(height, new_block));
        Ok(())
    }

    fn clear_pending_packets(&self) -> Result<(), WorkerError> {
        self.received.borrow_mut().push(Received::Clear);
        if self.full {
            return Err(WorkerError::ChannelDisconnected(self.object.short_name()));
        }
        Ok(())
    }

    fn shutdown(&self) {
        self.received.borrow_mut().push(Received::Shutdown);
    }
}

fn chain_config(id: &str) -> ChainConfig {
    ChainConfig { id: ChainId::new(id), rpc_addr: "up".to_string(), packet_filter: PacketFilter::AllowAll }
}

fn config(ids: &[&str]) -> Config {
    Config { mode: ModeConfig::all_enabled(), chains: ids.iter().map(|id| chain_config(id)).collect() }
}

fn chain(id: &str) -> MockChain {
    MockChain::spawn(&chain_config(id)).unwrap()
}

fn height() -> Height {
    Height::new(0, 20)
}

fn channel_attributes(channel: Option<&str>) -> ChannelAttributes {
    ChannelAttributes {
        height: height(),
        port_id: PortId::new("transfer"),
        channel_id: channel.map(ChannelId::new),
        connection_id: ConnectionId::new("connection-0"),
        counterparty_port_id: PortId::new("transfer"),
        counterparty_channel_id: channel.map(ChannelId::new),
    }
}

fn packet(sequence: u64, source: &str, destination: &str) -> Packet {
    Packet {
        sequence: Sequence(sequence),
        source_port: PortId::new("transfer"),
        source_channel: ChannelId::new(source),
        destination_port: PortId::new("transfer"),
        destination_channel: ChannelId::new(destination),
        data: "0A0B".to_string(),
        timeout_height: Height::new(0, 100),
        timeout_timestamp: 0,
    }
}

fn send_packet(sequence: u64, channel: &str) -> IbcEvent {
    IbcEvent::SendPacket(PacketEvent { height: height(), packet: packet(sequence, channel, channel) })
}

fn new_block(h: u64) -> IbcEvent {
    IbcEvent::NewBlock(NewBlock { height: Height::new(0, h) })
}

fn batch(chain: &str, events: Vec<IbcEvent>) -> EventBatch {
    EventBatch { chain_id: ChainId::new(chain), height: height(), events }
}

fn packet_object(src: &str, dst: &str, channel: &str) -> Object {
    Object::Packet(object::Packet {
        dst_chain_id: ChainId::new(dst),
        src_chain_id: ChainId::new(src),
        src_channel_id: ChannelId::new(channel),
        src_port_id: PortId::new("transfer"),
    })
}

fn client_object(src: &str, dst: &str, client: &str) -> Object {
    Object::Client(object::Client {
        dst_client_id: ClientId::new(client),
        dst_chain_id: ChainId::new(dst),
        src_chain_id: ChainId::new(src),
    })
}

fn channel_object(src: &str, dst: &str, channel: &str) -> Object {
    Object::Channel(object::Channel {
        dst_chain_id: ChainId::new(dst),
        src_chain_id: ChainId::new(src),
        src_channel_id: ChannelId::new(channel),
        src_port_id: PortId::new("transfer"),
    })
}

fn packets_only() -> ModeConfig {
    let mut mode = ModeConfig::all_enabled();
    mode.clients.enabled = false;
    mode.connections.enabled = false;
    mode.channels.enabled = false;
    mode
}

struct Parts {
    config: Config,
    registry: Registry<MockChain>,
    filter: FilterPolicy,
    workers: WorkerMap<MockWorker>,
}

fn parts(ids: &[&str]) -> Parts {
    Parts {
        config: config(ids),
        registry: Registry::new(),
        filter: FilterPolicy::default(),
        workers: WorkerMap::new(),
    }
}

fn process(p: &mut Parts, chain_id: &str, events: Vec<IbcEvent>) -> Result<(), Error> {
    let id = ChainId::new(chain_id);
    let handle = p.registry.get_or_spawn(&p.config, &id).unwrap();
    process_batch(&p.config, &mut p.registry, &mut p.filter, &mut p.workers, &id, &handle, &batch(chain_id, events))
}

fn received(workers: &WorkerMap<MockWorker>, object: &Object) -> Vec<Received> {
    let at = workers.objects().iter().position(|o| o == object).unwrap();
    workers.worker(at).received.borrow_mut().drain(..).collect()
}

#[test]
fn open_ack_channel_goes_to_three_objects() {
    let config = config(&["ibc-0", "ibc-1"]);
    let workers: WorkerMap<MockWorker> = WorkerMap::new();
    let event = IbcEvent::OpenAckChannel(channel_attributes(Some("channel-0")));
    let collected = collect_events(&config, &workers, &chain("ibc-0"), &batch("ibc-0", vec![event.clone()]));
    assert_eq!(collected.height, height());
    assert_eq!(collected.chain_id, ChainId::new("ibc-0"));
    assert!(!collected.has_new_block());
    assert_eq!(collected.per_object.len(), 3);
    let objects: Vec<&Object> = collected.per_object.iter().map(|(o, _)| o).collect();
    assert!(objects.contains(&&client_object("ibc-0", "ibc-1", "07-tendermint-7")));
    assert!(objects.contains(&&packet_object("ibc-0", "ibc-1", "channel-0")));
    assert!(objects.contains(&&channel_object("ibc-0", "ibc-1", "channel-0")));
    for (object, events) in &collected.per_object {
        assert_eq!(object.src_chain_id(), &ChainId::new("ibc-0"));
        assert_eq!(events, &vec![event.clone()]);
    }
}

#[test]
fn open_confirm_channel_goes_to_client_and_packets() {
    let config = config(&["ibc-0", "ibc-1"]);
    let workers: WorkerMap<MockWorker> = WorkerMap::new();
    let event = IbcEvent::OpenConfirmChannel(channel_attributes(Some("channel-1")));
    let collected = collect_events(&config, &workers, &chain("ibc-0"), &batch("ibc-0", vec![event]));
    let objects: Vec<&Object> = collected.per_object.iter().map(|(o, _)| o).collect();
    assert_eq!(objects.len(), 2);
    assert!(objects.contains(&&client_object("ibc-0", "ibc-1", "07-tendermint-7")));
    assert!(objects.contains(&&packet_object("ibc-0", "ibc-1", "channel-1")));
}

#[test]
fn each_kind_of_object_is_gated_by_its_mode() {
    let mut config = config(&["ibc-0", "ibc-1"]);
    let workers: WorkerMap<MockWorker> = WorkerMap::new();
    let ack = IbcEvent::OpenAckChannel(channel_attributes(Some("channel-0")));
    config.mode.clients.enabled = false;
    let collected = collect_events(&config, &workers, &chain("ibc-0"), &batch("ibc-0", vec![ack.clone()]));
    assert_eq!(collected.per_object.len(), 2);
    config.mode.packets.enabled = false;
    let collected = collect_events(&config, &workers, &chain("ibc-0"), &batch("ibc-0", vec![ack.clone(), send_packet(1, "channel-0")]));
    assert_eq!(collected.per_object.len(), 1);
    assert_eq!(collected.per_object[0].0, channel_object("ibc-0", "ibc-1", "channel-0"));
    config.mode.channels.enabled = false;
    let init = IbcEvent::OpenInitChannel(channel_attributes(Some("channel-0")));
    let collected = collect_events(&config, &workers, &chain("ibc-0"), &batch("ibc-0", vec![ack, init]));
    assert!(collected.per_object.is_empty());
}

#[test]
fn handshake_events_go_to_their_objects() {
    let config = config(&["ibc-0", "ibc-1"]);
    let workers: WorkerMap<MockWorker> = WorkerMap::new();
    let connection = ConnectionAttributes {
        height: height(),
        connection_id: Some(ConnectionId::new("connection-0")),
        client_id: ClientId::new("07-tendermint-0"),
        counterparty_connection_id: None,
        counterparty_client_id: ClientId::new("07-tendermint-7"),
    };
    let events = vec![
        IbcEvent::OpenInitConnection(connection.clone()),
        IbcEvent::OpenTryChannel(channel_attributes(Some("channel-2"))),
        IbcEvent::OpenConfirmConnection(connection.clone()),
        IbcEvent::OpenAckConnection(connection),
        IbcEvent::CloseInitChannel(channel_attributes(Some("channel-2"))),
        IbcEvent::CloseConfirmChannel(channel_attributes(Some("channel-2"))),
        IbcEvent::ChainError("no".to_string()),
    ];
    let collected = collect_events(&config, &workers, &chain("ibc-0"), &batch("ibc-0", events.clone()));
    assert_eq!(collected.per_object.len(), 3);
    let conn = Object::Connection(object::Connection {
        dst_chain_id: ChainId::new("ibc-1"),
        src_chain_id: ChainId::new("ibc-0"),
        src_connection_id: ConnectionId::new("connection-0"),
    });
    assert_eq!(collected.per_object[0], (conn, vec![events[0].clone(), events[3].clone()]));
    assert_eq!(
        collected.per_object[1],
        (channel_object("ibc-0", "ibc-1", "channel-2"), vec![events[1].clone()])
    );
    assert_eq!(
        collected.per_object[2],
        (packet_object("ibc-0", "ibc-1", "channel-2"), vec![events[4].clone()])
    );
}

#[test]
fn events_that_cannot_be_resolved_are_dropped() {
    let config = config(&["ibc-0", "ibc-1"]);
    let workers: WorkerMap<MockWorker> = WorkerMap::new();
    let events = vec![
        IbcEvent::OpenAckChannel(channel_attributes(None)),
        send_packet(1, "channel-9"),
        IbcEvent::OpenInitChannel(channel_attributes(None)),
    ];
    let collected = collect_events(&config, &workers, &chain("ibc-0"), &batch("ibc-0", events));
    assert!(collected.per_object.is_empty());
}

#[test]
fn packet_events_keep_the_order_of_the_batch() {
    let config = config(&["ibc-0", "ibc-1"]);
    let workers: WorkerMap<MockWorker> = WorkerMap::new();
    let ack = IbcEvent::WriteAcknowledgement(WriteAcknowledgement {
        height: height(),
        packet: packet(7, "channel-5", "channel-0"),
        ack: "01".to_string(),
    });
    let timeout = IbcEvent::TimeoutPacket(PacketEvent { height: height(), packet: packet(2, "channel-0", "channel-0") });
    let events = vec![
        send_packet(1, "channel-0"),
        new_block(20),
        send_packet(1, "channel-1"),
        ack.clone(),
        new_block(21),
        timeout.clone(),
        send_packet(3, "channel-0"),
    ];
    let collected = collect_events(&config, &workers, &chain("ibc-0"), &batch("ibc-0", events));
    assert_eq!(collected.new_block, Some(new_block(21)));
    assert!(collected.has_new_block());
    assert_eq!(collected.per_object.len(), 2);
    assert_eq!(
        collected.per_object[0],
        (
            packet_object("ibc-0", "ibc-1", "channel-0"),
            vec![send_packet(1, "channel-0"), ack, timeout, send_packet(3, "channel-0")]
        )
    );
    assert_eq!(
        collected.per_object[1],
        (packet_object("ibc-0", "ibc-1", "channel-1"), vec![send_packet(1, "channel-1")])
    );
}

#[test]
fn update_client_never_starts_a_worker() {
    let mut p = parts(&["ibc-0", "ibc-1"]);
    let update = IbcEvent::UpdateClient(ClientAttributes {
        height: height(),
        client_id: ClientId::new("07-tendermint-0"),
        client_type: "07-tendermint".to_string(),
        consensus_height: Height::new(0, 19),
    });
    let collected = collect_events(&p.config, &p.workers, &chain("ibc-0"), &batch("ibc-0", vec![update.clone()]));
    assert!(collected.per_object.is_empty());
    assert_eq!(process(&mut p, "ibc-0", vec![update.clone()]), Ok(()));
    assert_eq!(p.workers.len(), 0);

    let known = client_object("ibc-1", "ibc-0", "07-tendermint-0");
    let src = chain("ibc-1");
    let dst = chain("ibc-0");
    p.workers.get_or_spawn(known.clone(), src, dst, &p.config);
    let collected = collect_events(&p.config, &p.workers, &chain("ibc-0"), &batch("ibc-0", vec![update.clone()]));
    assert_eq!(collected.per_object, vec![(known.clone(), vec![update.clone()])]);
    assert_eq!(process(&mut p, "ibc-0", vec![update.clone()]), Ok(()));
    assert_eq!(p.workers.len(), 1);
    assert_eq!(
        received(&p.workers, &known),
        vec![Received::Events(height(), vec![update], ChainId::new("ibc-0"))]
    );
}

#[test]
fn workers_are_started_for_the_chain_of_the_batch() {
    let mut p = parts(&["ibc-0", "ibc-1"]);
    let events = vec![send_packet(1, "channel-0"), IbcEvent::OpenAckChannel(channel_attributes(Some("channel-1")))];
    assert_eq!(process(&mut p, "ibc-0", events), Ok(()));
    let objects = p.workers.objects();
    assert_eq!(objects.len(), 4);
    for object in &objects {
        assert_eq!(object.src_chain_id(), &ChainId::new("ibc-0"));
        assert_eq!(object.dst_chain_id(), &ChainId::new("ibc-1"));
    }
    for at in 0..4 {
        assert_eq!(p.workers.worker(at).src, ChainId::new("ibc-0"));
        assert_eq!(p.workers.worker(at).dst, ChainId::new("ibc-1"));
        assert_eq!(p.workers.worker(at).object, objects[at]);
    }
    assert_eq!(p.registry.chains(), vec![ChainId::new("ibc-0"), ChainId::new("ibc-1")]);
}

#[test]
fn an_object_has_one_worker() {
    let mut p = parts(&["ibc-0", "ibc-1"]);
    assert_eq!(process(&mut p, "ibc-0", vec![send_packet(1, "channel-0")]), Ok(()));
    assert_eq!(process(&mut p, "ibc-0", vec![send_packet(2, "channel-0"), send_packet(3, "channel-0")]), Ok(()));
    assert_eq!(p.workers.objects(), vec![packet_object("ibc-0", "ibc-1", "channel-0")]);
    assert_eq!(
        received(&p.workers, &packet_object("ibc-0", "ibc-1", "channel-0")),
        vec![
            Received::Events(height(), vec![send_packet(1, "channel-0")], ChainId::new("ibc-0")),
            Received::Events(
                height(),
                vec![send_packet(2, "channel-0"), send_packet(3, "channel-0")],
                ChainId::new("ibc-0")
            ),
        ]
    );
}

#[test]
fn new_block_comes_before_the_events_of_its_batch() {
    let mut p = parts(&["ibc-0", "ibc-1"]);
    assert_eq!(process(&mut p, "ibc-0", vec![IbcEvent::OpenAckChannel(channel_attributes(Some("channel-0")))]), Ok(()));
    assert_eq!(process(&mut p, "ibc-1", vec![send_packet(1, "channel-0")]), Ok(()));
    for object in p.workers.objects() {
        received(&p.workers, &object);
    }
    assert_eq!(process(&mut p, "ibc-0", vec![send_packet(5, "channel-0"), new_block(20)]), Ok(()));
    let block = Received::NewBlock(height(), NewBlock { height: Height::new(0, 20) });
    assert_eq!(
        received(&p.workers, &packet_object("ibc-0", "ibc-1", "channel-0")),
        vec![
            Received::NewBlock(height(), NewBlock { height: Height::new(0, 20) }),
            Received::Events(height(), vec![send_packet(5, "channel-0")], ChainId::new("ibc-0")),
        ]
    );
    assert_eq!(received(&p.workers, &channel_object("ibc-0", "ibc-1", "channel-0")), vec![block]);
    assert_eq!(received(&p.workers, &client_object("ibc-0", "ibc-1", "07-tendermint-7")), vec![]);
    assert_eq!(received(&p.workers, &packet_object("ibc-1", "ibc-0", "channel-0")), vec![]);
}

#[test]
fn empty_batch_changes_nothing() {
    let mut p = parts(&["ibc-0", "ibc-1"]);
    assert_eq!(process(&mut p, "ibc-0", Vec::new()), Ok(()));
    assert_eq!(p.workers.len(), 0);
    assert_eq!(p.registry.size(), 1);
    assert_eq!(process(&mut p, "ibc-0", vec![new_block(3), IbcEvent::Empty(String::new())]), Ok(()));
    assert_eq!(p.workers.len(), 0);
    assert_eq!(p.registry.size(), 1);
}

#[test]
fn processing_stops_at_a_worker_that_takes_nothing() {
    let mut p = parts(&["ibc-0", "ibc-1"]);
    p.config.mode.packets.clear_interval = 1;
    let result = process(&mut p, "ibc-0", vec![send_packet(1, "channel-0"), send_packet(1, "channel-1")]);
    assert_eq!(result, Err(Error::Worker(WorkerError::ChannelFull("no room".to_string()))));
    assert_eq!(p.workers.len(), 1);
}

#[test]
fn processing_fails_where_a_chain_is_not_configured() {
    let mut p = parts(&["ibc-0"]);
    let result = process(&mut p, "ibc-0", vec![send_packet(1, "channel-0")]);
    assert_eq!(result, Err(Error::Spawn(SpawnError::MissingChainConfig(ChainId::new("ibc-1")))));
    assert_eq!(p.workers.len(), 0);
}

#[test]
fn batch_must_name_the_chain_it_came_from() {
    let mut p = parts(&["ibc-0", "ibc-1"]);
    let id = ChainId::new("ibc-0");
    let handle = p.registry.get_or_spawn(&p.config, &id).unwrap();
    let outcome = handle_batch(
        &p.config,
        &mut p.registry,
        &mut p.filter,
        &mut p.workers,
        &id,
        &handle,
        Arc::new(Ok(batch("ibc-1", vec![send_packet(1, "channel-0")]))),
    );
    assert_eq!(
        outcome,
        BatchOutcome::Processed(Err(Error::HandleMismatch(ChainId::new("ibc-0"), ChainId::new("ibc-1"))))
    );
    assert_eq!(p.workers.len(), 0);
    let outcome = handle_batch(
        &p.config,
        &mut p.registry,
        &mut p.filter,
        &mut p.workers,
        &id,
        &handle,
        Arc::new(Ok(batch("ibc-0", vec![send_packet(1, "channel-0")]))),
    );
    assert_eq!(outcome, BatchOutcome::Processed(Ok(())));
    assert_eq!(p.workers.len(), 1);
    let outcome = handle_batch(
        &p.config,
        &mut p.registry,
        &mut p.filter,
        &mut p.workers,
        &id,
        &handle,
        Arc::new(Err(MonitorError::Other("noise".to_string()))),
    );
    assert_eq!(outcome, BatchOutcome::Ignored);
    assert_eq!(received(&p.workers, &packet_object("ibc-0", "ibc-1", "channel-0")).len(), 1);
}

fn supervisor(ids: &[&str], mode: ModeConfig) -> (Supervisor<MockChain, MockWorker>, crossbeam_channel::Sender<SupervisorCmd>) {
    let mut config = config(ids);
    config.mode = mode;
    Supervisor::new(config, None)
}

fn clears(workers: &WorkerMap<MockWorker>) -> Vec<(Object, usize)> {
    let objects = workers.objects();
    (0..workers.len())
        .map(|at| {
            let count = workers.worker(at).received.borrow().iter().filter(|r| **r == Received::Clear).count();
            (objects[at].clone(), count)
        })
        .collect()
}

#[test]
fn cancelled_subscription_clears_the_packets_of_its_chain() {
    let (mut supervisor, _tx) = supervisor(&["ibc-0", "ibc-1"], packets_only());
    let mut subscriptions = supervisor.startup().unwrap();
    assert_eq!(subscriptions.len(), 2);
    assert_eq!(supervisor.workers().len(), 6);
    assert_eq!(subscriptions[0].chain_id, ChainId::new("ibc-0"));
    subscriptions[0].chain.inject(Err(MonitorError::SubscriptionCancelled("gone".to_string())));
    let (step, outcome) = supervisor.run_step(&mut subscriptions).unwrap();
    assert_eq!(step, StepResult::Continue);
    assert_eq!(outcome, Some(BatchOutcome::PendingCleared(Ok(()))));
    let cleared = clears(supervisor.workers());
    assert_eq!(
        cleared,
        vec![
            (packet_object("ibc-0", "ibc-1", "channel-0"), 1),
            (packet_object("ibc-0", "ibc-1", "channel-1"), 1),
            (packet_object("ibc-0", "ibc-1", "channel-2"), 1),
            (packet_object("ibc-1", "ibc-0", "channel-0"), 0),
            (packet_object("ibc-1", "ibc-0", "channel-1"), 0),
            (packet_object("ibc-1", "ibc-0", "channel-2"), 0),
        ]
    );
    let (step, outcome) = supervisor.run_step(&mut subscriptions).unwrap();
    assert_eq!(step, StepResult::Continue);
    assert_eq!(outcome, None);
}

#[test]
fn removing_every_chain_keeps_the_subscriptions() {
    let (mut supervisor, tx) = supervisor(&["ibc-0"], packets_only());
    let mut subscriptions = supervisor.startup().unwrap();
    assert_eq!(subscriptions.len(), 1);
    tx.send(SupervisorCmd::UpdateConfig(ConfigUpdate::Remove(ChainId::new("ibc-0")))).unwrap();
    let (step, _) = supervisor.run_step(&mut subscriptions).unwrap();
    assert_eq!(step, StepResult::Continue);
    assert_eq!(subscriptions.len(), 1);
    assert_eq!(subscriptions[0].chain_id, ChainId::new("ibc-0"));
    assert!(supervisor.config().chains.is_empty());
    assert!(supervisor.state().chains.is_empty());
    let (step, _) = supervisor.run_step(&mut subscriptions).unwrap();
    assert_eq!(step, StepResult::Continue);
    let (ack_tx, ack_rx) = crossbeam_channel::unbounded();
    tx.send(SupervisorCmd::Stop(ack_tx)).unwrap();
    let (step, _) = supervisor.run_step(&mut subscriptions).unwrap();
    assert_eq!(step, StepResult::Break);
    assert_eq!(ack_rx.try_recv(), Ok(()));
}

#[test]
fn removed_chain_leaves_no_handle_and_no_subscription() {
    let (mut supervisor, tx) = supervisor(&["ibc-0", "ibc-1"], ModeConfig::all_enabled());
    let mut subscriptions = supervisor.startup().unwrap();
    assert_eq!(subscriptions.len(), 2);
    let removed = subscriptions[1].chain.clone();
    tx.send(SupervisorCmd::UpdateConfig(ConfigUpdate::Remove(ChainId::new("ibc-1")))).unwrap();
    let (step, _) = supervisor.run_step(&mut subscriptions).unwrap();
    assert_eq!(step, StepResult::Continue);
    assert_eq!(supervisor.state().chains, vec![ChainId::new("ibc-0")]);
    assert_eq!(subscriptions.len(), 1);
    assert_eq!(subscriptions[0].chain_id, ChainId::new("ibc-0"));
    assert!(removed.data.borrow().shut_down);
    assert_eq!(supervisor.config().chains, vec![chain_config("ibc-0")]);
    for object in supervisor.state().workers {
        assert_eq!(object.src_chain_id(), &ChainId::new("ibc-0"));
    }
}

#[test]
fn chain_added_and_removed_leaves_all_as_before() {
    let (mut supervisor, _tx) = supervisor(&["ibc-0", "ibc-1"], ModeConfig::all_enabled());
    let mut subscriptions = supervisor.startup().unwrap();
    let state_before = supervisor.state();
    let config_before = supervisor.config().clone();
    assert_eq!(state_before.workers.len(), 8);
    let step = supervisor.handle_cmd(SupervisorCmd::UpdateConfig(ConfigUpdate::Add(chain_config("ibc-2"))), &mut subscriptions);
    assert_eq!(step, StepResult::Continue);
    assert_eq!(subscriptions.len(), 3);
    assert_eq!(supervisor.config().chains.len(), 3);
    assert_eq!(supervisor.state().chains.len(), 3);
    assert_eq!(supervisor.state().workers.len(), 12);
    let step = supervisor.handle_cmd(SupervisorCmd::UpdateConfig(ConfigUpdate::Remove(ChainId::new("ibc-2"))), &mut subscriptions);
    assert_eq!(step, StepResult::Continue);
    assert_eq!(supervisor.state(), state_before);
    assert_eq!(supervisor.config(), &config_before);
    assert_eq!(subscriptions.len(), 2);
}

#[test]
fn chain_is_added_once() {
    let mut p = parts(&["ibc-0"]);
    let effect = add_chain(&mut p.config, &mut p.registry, &mut p.workers, &mut p.filter, chain_config("ibc-0"));
    assert_eq!(effect, CmdEffect::Nothing);
    assert_eq!(p.config, config(&["ibc-0"]));
    assert_eq!(p.registry.size(), 0);
    let effect = add_chain(&mut p.config, &mut p.registry, &mut p.workers, &mut p.filter, chain_config("ibc-1"));
    assert_eq!(effect, CmdEffect::ConfigChanged);
    assert_eq!(p.config, config(&["ibc-0", "ibc-1"]));
    assert_eq!(p.registry.chains(), vec![ChainId::new("ibc-1"), ChainId::new("ibc-0")]);
    for object in p.workers.objects() {
        assert_eq!(object.src_chain_id(), &ChainId::new("ibc-1"));
    }
    assert_eq!(p.workers.len(), 4);
}

#[test]
fn chain_that_cannot_be_reached_is_not_added() {
    let mut p = parts(&["ibc-0"]);
    let mut down = chain_config("ibc-1");
    down.rpc_addr = "down".to_string();
    let effect = add_chain(&mut p.config, &mut p.registry, &mut p.workers, &mut p.filter, down.clone());
    assert_eq!(effect, CmdEffect::Nothing);
    assert_eq!(p.config, config(&["ibc-0"]));
    assert_eq!(p.registry.size(), 0);
    assert_eq!(p.workers.len(), 0);
    let effect = update_config(&mut p.config, &mut p.registry, &mut p.workers, &mut p.filter, ConfigUpdate::Add(down));
    assert_eq!(effect, CmdEffect::Nothing);
}

#[test]
fn chain_is_removed_with_its_workers() {
    let mut p = parts(&["ibc-0", "ibc-1"]);
    assert_eq!(process(&mut p, "ibc-0", vec![send_packet(1, "channel-0")]), Ok(()));
    assert_eq!(process(&mut p, "ibc-1", vec![send_packet(1, "channel-0")]), Ok(()));
    let effect = remove_chain(&mut p.config, &mut p.registry, &mut p.workers, &mut p.filter, &ChainId::new("ibc-5"));
    assert_eq!(effect, CmdEffect::Nothing);
    assert_eq!(p.workers.len(), 2);
    let effect = remove_chain(&mut p.config, &mut p.registry, &mut p.workers, &mut p.filter, &ChainId::new("ibc-0"));
    assert_eq!(effect, CmdEffect::ConfigChanged);
    assert_eq!(p.config, config(&["ibc-1"]));
    assert_eq!(p.registry.chains(), vec![ChainId::new("ibc-1")]);
    assert_eq!(p.workers.objects(), vec![packet_object("ibc-1", "ibc-0", "channel-0")]);
    assert!(p.workers.workers_for_chain(&ChainId::new("ibc-0")).is_empty());
    assert_eq!(p.workers.workers_for_chain(&ChainId::new("ibc-1")).len(), 1);
}

#[test]
fn chain_is_updated_by_removal_and_addition() {
    let mut p = parts(&["ibc-0", "ibc-1"]);
    let mut changed = chain_config("ibc-0");
    changed.rpc_addr = "elsewhere".to_string();
    let effect = update_chain(&mut p.config, &mut p.registry, &mut p.workers, &mut p.filter, changed.clone());
    assert_eq!(effect, CmdEffect::ConfigChanged);
    assert_eq!(p.config.chains, vec![chain_config("ibc-1"), changed]);
    let mut down = chain_config("ibc-1");
    down.rpc_addr = "down".to_string();
    let effect = update_config(&mut p.config, &mut p.registry, &mut p.workers, &mut p.filter, ConfigUpdate::Update(down));
    assert_eq!(effect, CmdEffect::ConfigChanged);
    assert_eq!(p.config.chains.len(), 1);
    let mut down = chain_config("ibc-7");
    down.rpc_addr = "down".to_string();
    let effect = update_chain(&mut p.config, &mut p.registry, &mut p.workers, &mut p.filter, down);
    assert_eq!(effect, CmdEffect::Nothing);
    assert_eq!(CmdEffect::Nothing.or(CmdEffect::ConfigChanged), CmdEffect::ConfigChanged);
    assert_eq!(CmdEffect::ConfigChanged.or(CmdEffect::Nothing), CmdEffect::ConfigChanged);
    assert_eq!(CmdEffect::Nothing.or(CmdEffect::Nothing), CmdEffect::Nothing);
}

#[test]
fn no_chain_to_subscribe_to_is_an_error() {
    let mut p = parts(&[]);
    assert_eq!(init_subscriptions(&p.config, &mut p.registry).err(), Some(Error::NoChainsAvailable));
    let mut p = parts(&["ibc-0", "ibc-1"]);
    p.config.chains[0].rpc_addr = "down".to_string();
    p.config.chains[1].rpc_addr = "down".to_string();
    assert_eq!(init_subscriptions(&p.config, &mut p.registry).err(), Some(Error::NoChainsAvailable));
    p.config.chains[1].rpc_addr = "up".to_string();
    let subscriptions = init_subscriptions(&p.config, &mut p.registry).unwrap();
    assert_eq!(subscriptions.len(), 1);
    assert_eq!(subscriptions[0].chain_id, ChainId::new("ibc-1"));
    let (mut supervisor, _tx) = supervisor(&[], ModeConfig::all_enabled());
    assert_eq!(supervisor.startup().err(), Some(Error::NoChainsAvailable));
}

#[test]
fn health_is_reported_chain_by_chain() {
    let mut p = parts(&["ibc-0", "ibc-1", "ibc-2"]);
    p.config.chains[1].rpc_addr = "sick".to_string();
    p.config.chains[2].rpc_addr = "down".to_string();
    let reports = health_check(&p.config, &mut p.registry);
    assert_eq!(reports.len(), 3);
    assert_eq!(reports[0], (ChainId::new("ibc-0"), HealthReport::Healthy));
    assert_eq!(reports[1], (ChainId::new("ibc-1"), HealthReport::Unhealthy("lagging".to_string())));
    assert!(matches!(reports[2], (_, HealthReport::SpawnFailed(SpawnError::RuntimeFailed(_, _)))));
    let (mut supervisor, _tx) = supervisor(&["ibc-0"], ModeConfig::all_enabled());
    assert_eq!(supervisor.health_check(), vec![(ChainId::new("ibc-0"), HealthReport::Healthy)]);
}

#[test]
fn state_is_dumped_on_request() {
    let (mut supervisor, tx) = supervisor(&["ibc-0", "ibc-1"], packets_only());
    let mut subscriptions = supervisor.startup().unwrap();
    let (reply_tx, reply_rx) = crossbeam_channel::bounded(1);
    tx.send(SupervisorCmd::DumpState(reply_tx)).unwrap();
    let (step, _) = supervisor.run_step(&mut subscriptions).unwrap();
    assert_eq!(step, StepResult::Continue);
    let dumped = reply_rx.try_recv().unwrap();
    assert_eq!(dumped.chains, vec![ChainId::new("ibc-0"), ChainId::new("ibc-1")]);
    assert_eq!(dumped.workers.len(), 6);
    assert_eq!(dumped, supervisor.state());
    supervisor.shutdown();
    assert_eq!(supervisor.workers().len(), 0);
}

#[test]
fn rest_request_is_answered() {
    let mut p = parts(&["ibc-0", "ibc-1"]);
    assert_eq!(process(&mut p, "ibc-0", vec![send_packet(1, "channel-0")]), Ok(()));
    let (reply_tx, reply_rx) = crossbeam_channel::unbounded();
    assert!(handle_rest_cmd(&p.registry, &p.workers, rest::Command::DumpState(reply_tx)));
    assert_eq!(reply_rx.try_recv().unwrap(), state(&p.registry, &p.workers));
    let (rest_tx, rest_rx) = crossbeam_channel::unbounded();
    let (reply_tx, reply_rx) = crossbeam_channel::unbounded();
    handle_rest_requests(&p.registry, &p.workers, &rest_rx);
    rest_tx.send(rest::Command::DumpState(reply_tx)).unwrap();
    handle_rest_requests(&p.registry, &p.workers, &rest_rx);
    let dumped = reply_rx.try_recv().unwrap();
    assert_eq!(dumped.workers, vec![packet_object("ibc-0", "ibc-1", "channel-0")]);
}

#[test]
fn filter_is_off_by_default() {
    let mut p = parts(&["ibc-0", "ibc-1"]);
    assert!(!client_filter_enabled(&p.config));
    assert!(!channel_filter_enabled(&p.config));
    p.config.chains[0].packet_filter = PacketFilter::Deny(vec![(PortId::new("transfer"), ChannelId::new("channel-0"))]);
    let id = ChainId::new("ibc-0");
    assert!(relay_packets_on_channel(&p.config, &id, &PortId::new("transfer"), &ChannelId::new("channel-0")));
    assert!(relay_on_object(&p.config, &mut p.registry, &mut p.filter, &id, &packet_object("ibc-0", "ibc-1", "channel-0")));
    assert_eq!(p.registry.size(), 0);
}

#[test]
fn denied_channel_asks_no_chain() {
    let mut p = parts(&["ibc-0", "ibc-1"]);
    p.config.mode.packets.filter = true;
    p.config.chains[0].packet_filter = PacketFilter::Allow(vec![(PortId::new("transfer"), ChannelId::new("channel-1"))]);
    let id = ChainId::new("ibc-0");
    let handle = p.registry.get_or_spawn(&p.config, &id).unwrap();
    assert!(client_filter_enabled(&p.config));
    assert!(!relay_packets_on_channel(&p.config, &id, &PortId::new("transfer"), &ChannelId::new("channel-0")));
    assert!(relay_packets_on_channel(&p.config, &id, &PortId::new("transfer"), &ChannelId::new("channel-1")));
    assert!(!relay_packets_on_channel(&p.config, &ChainId::new("ibc-9"), &PortId::new("transfer"), &ChannelId::new("channel-1")));
    assert!(!relay_on_object(&p.config, &mut p.registry, &mut p.filter, &id, &packet_object("ibc-0", "ibc-1", "channel-0")));
    assert_eq!(handle.data.borrow().queries, 0);
    assert_eq!(p.registry.size(), 1);
    assert!(relay_on_object(&p.config, &mut p.registry, &mut p.filter, &id, &packet_object("ibc-0", "ibc-1", "channel-1")));
    assert!(handle.data.borrow().queries > 0);
    assert_eq!(p.registry.size(), 2);
    assert_eq!(process(&mut p, "ibc-0", vec![send_packet(1, "channel-0"), send_packet(1, "channel-1")]), Ok(()));
    assert_eq!(p.workers.objects(), vec![packet_object("ibc-0", "ibc-1", "channel-1")]);
}

#[test]
fn client_that_trusts_otherwise_is_denied() {
    let mut p = parts(&["ibc-0", "ibc-1"]);
    p.config.mode.packets.filter = true;
    p.config.chains[1].rpc_addr = "untrusted".to_string();
    let id = ChainId::new("ibc-0");
    assert!(!relay_on_object(&p.config, &mut p.registry, &mut p.filter, &id, &packet_object("ibc-0", "ibc-1", "channel-0")));
    assert!(!relay_on_object(&p.config, &mut p.registry, &mut p.filter, &id, &channel_object("ibc-0", "ibc-1", "channel-0")));
    assert!(!relay_on_object(&p.config, &mut p.registry, &mut p.filter, &id, &client_object("ibc-0", "ibc-1", "07-tendermint-7")));
    assert!(relay_on_object(&p.config, &mut p.registry, &mut p.filter, &id, &client_object("ibc-1", "ibc-0", "07-tendermint-0")));
    assert!(!relay_on_object(&p.config, &mut p.registry, &mut p.filter, &id, &client_object("ibc-0", "ibc-9", "07-tendermint-7")));
    let conn = Object::Connection(object::Connection {
        dst_chain_id: ChainId::new("ibc-1"),
        src_chain_id: ChainId::new("ibc-0"),
        src_connection_id: ConnectionId::new("connection-0"),
    });
    assert!(!relay_on_object(&p.config, &mut p.registry, &mut p.filter, &id, &conn));
}

#[test]
fn decision_on_a_client_is_kept() {
    let mut filter = FilterPolicy::default();
    let chain = ChainId::new("ibc-0");
    let client = ClientId::new("07-tendermint-0");
    let trusted = ClientState {
        chain_id: ChainId::new("ibc-1"),
        trust_threshold: Some(TrustThreshold { numerator: 1, denominator: 3 }),
    };
    let mut other = trusted.clone();
    other.trust_threshold = Some(TrustThreshold { numerator: 2, denominator: 3 });
    assert_eq!(filter.control_client(&chain, &client, &other), Permission::Deny);
    assert_eq!(filter.control_client(&chain, &client, &trusted), Permission::Deny);
    assert_eq!(filter.control_client(&ChainId::new("ibc-1"), &client, &trusted), Permission::Allow);
    assert_eq!(filter.control_client(&ChainId::new("ibc-1"), &client, &other), Permission::Allow);
    assert_eq!(trust_permission(None), Permission::Deny);
    assert_eq!(trust_permission(Some(TrustThreshold { numerator: 1, denominator: 3 })), Permission::Allow);
    assert_eq!(trust_permission(Some(TrustThreshold { numerator: 3, denominator: 1 })), Permission::Deny);
    assert_eq!(Permission::Allow.and(Permission::Allow), Permission::Allow);
    assert_eq!(Permission::Allow.and(Permission::Deny), Permission::Deny);
    assert_eq!(Permission::Deny.and(Permission::Allow), Permission::Deny);
}

#[test]
fn registry_holds_one_handle_for_each_chain() {
    let config = config(&["ibc-0", "ibc-1"]);
    let mut registry: Registry<MockChain> = Registry::new();
    assert_eq!(registry.size(), 0);
    assert_eq!(registry.spawn(&config, &ChainId::new("ibc-1")), Ok(true));
    assert_eq!(registry.spawn(&config, &ChainId::new("ibc-1")), Ok(false));
    assert_eq!(
        registry.spawn(&config, &ChainId::new("ibc-9")),
        Err(SpawnError::MissingChainConfig(ChainId::new("ibc-9")))
    );
    assert!(registry.get_or_spawn(&config, &ChainId::new("ibc-9")).is_err());
    let first = registry.get_or_spawn(&config, &ChainId::new("ibc-0")).unwrap();
    let again = registry.get_or_spawn(&config, &ChainId::new("ibc-0")).unwrap();
    assert!(Rc::ptr_eq(&first.data, &again.data));
    assert_eq!(registry.chains(), vec![ChainId::new("ibc-1"), ChainId::new("ibc-0")]);
    assert!(registry.contains(&ChainId::new("ibc-0")));
    registry.shutdown(&ChainId::new("ibc-1"));
    registry.shutdown(&ChainId::new("ibc-7"));
    assert_eq!(registry.chains(), vec![ChainId::new("ibc-0")]);
    assert!(!first.data.borrow().shut_down);
    registry.shutdown(&ChainId::new("ibc-0"));
    assert!(first.data.borrow().shut_down);
    assert_eq!(registry.size(), 0);
}

#[test]
fn worker_map_selects_by_source() {
    let config = config(&["ibc-0", "ibc-1"]);
    let mut workers: WorkerMap<MockWorker> = WorkerMap::new();
    let objects = vec![
        packet_object("ibc-0", "ibc-1", "channel-0"),
        client_object("ibc-0", "ibc-1", "07-tendermint-7"),
        packet_object("ibc-1", "ibc-0", "channel-0"),
        channel_object("ibc-0", "ibc-1", "channel-3"),
    ];
    for (at, object) in objects.iter().enumerate() {
        assert!(!workers.contains(object));
        assert_eq!(workers.get_or_spawn(object.clone(), chain("ibc-0"), chain("ibc-1"), &config), at);
        assert!(workers.contains(object));
    }
    assert_eq!(workers.get_or_spawn(objects[1].clone(), chain("ibc-0"), chain("ibc-1"), &config), 1);
    assert_eq!(workers.len(), 4);
    let zero = ChainId::new("ibc-0");
    let for_chain: Vec<Object> = workers.workers_for_chain(&zero).iter().map(|w| w.object.clone()).collect();
    assert_eq!(for_chain, vec![objects[0].clone(), objects[1].clone(), objects[3].clone()]);
    let notified: Vec<Object> = workers.to_notify(&zero).iter().map(|w| w.object.clone()).collect();
    assert_eq!(notified, vec![objects[0].clone(), objects[3].clone()]);
    assert!(workers.workers_for_chain(&ChainId::new("ibc-5")).is_empty());
    assert_eq!(clear_pending_packets(&workers, &ChainId::new("ibc-1")), Ok(()));
    assert_eq!(clears(&workers).iter().map(|c| c.1).collect::<Vec<_>>(), vec![0, 0, 1, 0]);
    workers.shutdown_workers_for_chain(&zero);
    assert_eq!(workers.objects(), vec![objects[2].clone()]);
    workers.shutdown();
    assert_eq!(workers.len(), 0);
}

#[test]
fn scan_seeds_the_workers_of_a_chain() {
    let mut p = parts(&["ibc-0", "ibc-1"]);
    let ctx = spawn_context(SpawnMode::Startup);
    assert_eq!(ctx.mode, SpawnMode::Startup);
    ctx.spawn_workers_for_chain(&p.config, &mut p.registry, &mut p.filter, &mut p.workers, &ChainId::new("ibc-9"));
    assert_eq!(p.workers.len(), 0);
    ctx.spawn_workers_for_chain(&p.config, &mut p.registry, &mut p.filter, &mut p.workers, &ChainId::new("ibc-1"));
    assert_eq!(
        p.workers.objects(),
        vec![
            client_object("ibc-1", "ibc-0", "07-tendermint-7"),
            packet_object("ibc-1", "ibc-0", "channel-0"),
            packet_object("ibc-1", "ibc-0", "channel-1"),
            packet_object("ibc-1", "ibc-0", "channel-2"),
        ]
    );
    ctx.spawn_workers(&p.config, &mut p.registry, &mut p.filter, &mut p.workers);
    assert_eq!(p.workers.len(), 8);
    ctx.shutdown_workers_for_chain(&mut p.workers, &ChainId::new("ibc-1"));
    assert_eq!(p.workers.len(), 4);
    for object in p.workers.objects() {
        assert_eq!(object.src_chain_id(), &ChainId::new("ibc-0"));
    }
}

#[test]
fn scan_passes_over_what_the_filter_denies() {
    let mut p = parts(&["ibc-0", "ibc-1"]);
    p.config.mode.packets.filter = true;
    p.config.chains[0].packet_filter = PacketFilter::Allow(vec![(PortId::new("transfer"), ChannelId::new("channel-2"))]);
    p.config.chains[1].rpc_addr = "untrusted".to_string();
    let ctx = spawn_context(SpawnMode::Reload);
    ctx.spawn_workers(&p.config, &mut p.registry, &mut p.filter, &mut p.workers);
    assert_eq!(
        p.workers.objects(),
        vec![
            client_object("ibc-0", "ibc-1", "07-tendermint-7"),
            packet_object("ibc-0", "ibc-1", "channel-2"),
        ]
    );
}

#[test]
fn channel_end_asks_for_workers_by_its_states() {
    let all = ModeConfig::all_enabled();
    let none = ChannelWorkers { client: false, packets: false, channel: false };
    let relay = ChannelWorkers { client: true, packets: true, channel: false };
    let handshake = ChannelWorkers { client: false, packets: false, channel: true };
    assert_eq!(channel_workers(State::Open, State::Open, true, all), relay);
    assert_eq!(channel_workers(State::Open, State::Open, false, all), none);
    assert_eq!(channel_workers(State::Open, State::TryOpen, true, all), handshake);
    assert_eq!(channel_workers(State::Init, State::Uninitialized, false, all), handshake);
    assert_eq!(channel_workers(State::TryOpen, State::TryOpen, true, all), handshake);
    assert_eq!(channel_workers(State::Init, State::TryOpen, true, all), none);
    assert_eq!(channel_workers(State::TryOpen, State::Open, true, all), none);
    assert_eq!(channel_workers(State::Closed, State::Closed, true, all), handshake);
    let mut mode = all;
    mode.channels.enabled = false;
    assert_eq!(channel_workers(State::Open, State::TryOpen, true, mode), none);
    mode.clients.enabled = false;
    assert_eq!(
        channel_workers(State::Open, State::Open, true, mode),
        ChannelWorkers { client: false, packets: true, channel: false }
    );
    mode.packets.enabled = false;
    assert_eq!(channel_workers(State::Open, State::Open, true, mode), none);
}

#[test]
fn connection_end_asks_for_a_worker_by_its_states() {
    let all = ModeConfig::all_enabled();
    assert!(connection_worker(ConnectionState::Init, ConnectionState::Uninitialized, all));
    assert!(connection_worker(ConnectionState::Open, ConnectionState::TryOpen, all));
    assert!(connection_worker(ConnectionState::TryOpen, ConnectionState::TryOpen, all));
    assert!(!connection_worker(ConnectionState::Open, ConnectionState::Open, all));
    assert!(!connection_worker(ConnectionState::Init, ConnectionState::Open, all));
    assert!(!connection_worker(ConnectionState::Init, ConnectionState::TryOpen, all));
    let mut mode = all;
    mode.connections.enabled = false;
    assert!(!connection_worker(ConnectionState::Init, ConnectionState::Uninitialized, mode));
}

#[test]
fn only_an_allowing_filter_permits() {
    assert!(permitted(&Ok(Permission::Allow)));
    assert!(!permitted(&Ok(Permission::Deny)));
    assert!(!permitted(&Err(FilterError::Relayer(RelayerError::Query("down".to_string())))));
    assert!(!permitted(&Err(FilterError::Spawn(SpawnError::MissingChainConfig(ChainId::new("ibc-9"))))));
}

#[test]
fn clearing_tells_every_worker_and_answers_with_the_first_error() {
    let open = config(&["ibc-0", "ibc-1"]);
    let mut gone = config(&["ibc-0", "ibc-1"]);
    gone.mode.packets.clear_interval = 1;
    let mut workers: WorkerMap<MockWorker> = WorkerMap::new();
    let first = packet_object("ibc-0", "ibc-1", "channel-0");
    let second = packet_object("ibc-0", "ibc-1", "channel-1");
    let third = packet_object("ibc-0", "ibc-1", "channel-2");
    let fourth = packet_object("ibc-0", "ibc-1", "channel-3");
    let other = packet_object("ibc-1", "ibc-0", "channel-0");
    assert_eq!(workers.get_or_spawn(first, chain("ibc-0"), chain("ibc-1"), &open), 0);
    assert_eq!(workers.get_or_spawn(second.clone(), chain("ibc-0"), chain("ibc-1"), &gone), 1);
    assert_eq!(workers.get_or_spawn(other, chain("ibc-1"), chain("ibc-0"), &open), 2);
    assert_eq!(workers.get_or_spawn(third, chain("ibc-0"), chain("ibc-1"), &gone), 3);
    assert_eq!(workers.get_or_spawn(fourth, chain("ibc-0"), chain("ibc-1"), &open), 4);
    assert_eq!(
        clear_pending_packets(&workers, &ChainId::new("ibc-0")),
        Err(Error::Worker(WorkerError::ChannelDisconnected(second.short_name())))
    );
    assert_eq!(clears(&workers).iter().map(|c| c.1).collect::<Vec<_>>(), vec![1, 1, 0, 1, 1]);
}

#[test]
fn stopping_the_workers_of_a_chain_keeps_the_others_with_their_workers() {
    let config = config(&["ibc-0", "ibc-1"]);
    let mut workers: WorkerMap<MockWorker> = WorkerMap::new();
    let kept = packet_object("ibc-1", "ibc-0", "channel-0");
    workers.get_or_spawn(packet_object("ibc-0", "ibc-1", "channel-0"), chain("ibc-0"), chain("ibc-1"), &config);
    workers.get_or_spawn(kept.clone(), chain("ibc-1"), chain("ibc-0"), &config);
    workers.get_or_spawn(packet_object("ibc-0", "ibc-1", "channel-1"), chain("ibc-0"), chain("ibc-1"), &config);
    workers.shutdown_workers_for_chain(&ChainId::new("ibc-0"));
    assert_eq!(workers.objects(), vec![kept.clone()]);
    assert_eq!(workers.worker(0).object, kept);
    assert!(workers.worker(0).received.borrow().is_empty());
}

#[test]
fn shutting_a_chain_down_keeps_the_other_handles() {
    let config = config(&["ibc-0", "ibc-1", "ibc-2"]);
    let mut registry: Registry<MockChain> = Registry::new();
    registry.get_or_spawn(&config, &ChainId::new("ibc-0")).unwrap();
    registry.get_or_spawn(&config, &ChainId::new("ibc-1")).unwrap();
    registry.get_or_spawn(&config, &ChainId::new("ibc-2")).unwrap();
    registry.shutdown(&ChainId::new("ibc-1"));
    assert_eq!(registry.size(), 2);
    assert!(!registry.contains(&ChainId::new("ibc-1")));
    assert_eq!(registry.get_or_spawn(&config, &ChainId::new("ibc-0")).unwrap().id(), ChainId::new("ibc-0"));
    assert_eq!(registry.get_or_spawn(&config, &ChainId::new("ibc-2")).unwrap().id(), ChainId::new("ibc-2"));
    assert_eq!(registry.size(), 2);
}

#[test]
fn packets_of_a_denied_channel_get_no_worker() {
    let mut p = parts(&["ibc-0", "ibc-1"]);
    p.config.mode.packets.filter = true;
    p.config.chains[0].packet_filter = PacketFilter::Deny(vec![(PortId::new("transfer"), ChannelId::new("channel-0"))]);
    assert_eq!(
        process(&mut p, "ibc-0", vec![send_packet(1, "channel-0"), send_packet(2, "channel-1"), send_packet(3, "channel-0")]),
        Ok(())
    );
    assert_eq!(p.workers.objects(), vec![packet_object("ibc-0", "ibc-1", "channel-1")]);
    let received = p.workers.worker(0).received.borrow();
    assert_eq!(received.len(), 1);
    assert_eq!(received[0], Received::Events(height(), vec![send_packet(2, "channel-1")], ChainId::new("ibc-0")));
}

#[test]
fn batch_that_concerns_no_object_changes_nothing() {
    let mut p = parts(&["ibc-0", "ibc-1"]);
    assert_eq!(
        process(
            &mut p,
            "ibc-0",
            vec![IbcEvent::Empty("nothing".to_string()), IbcEvent::ChainError("refused".to_string())]
        ),
        Ok(())
    );
    assert_eq!(p.workers.len(), 0);
    assert_eq!(p.registry.size(), 1);
    assert!(p.registry.contains(&ChainId::new("ibc-0")));
}

#[test]
fn events_of_an_object_keep_the_order_of_the_batch() {
    let mut p = parts(&["ibc-0", "ibc-1"]);
    let events = vec![
        send_packet(1, "channel-0"),
        send_packet(2, "channel-1"),
        send_packet(1, "channel-0"),
        send_packet(3, "channel-0"),
    ];
    assert_eq!(process(&mut p, "ibc-0", events), Ok(()));
    assert_eq!(
        p.workers.objects(),
        vec![packet_object("ibc-0", "ibc-1", "channel-0"), packet_object("ibc-0", "ibc-1", "channel-1")]
    );
    let received = p.workers.worker(0).received.borrow();
    assert_eq!(
        received[0],
        Received::Events(
            height(),
            vec![send_packet(1, "channel-0"), send_packet(1, "channel-0"), send_packet(3, "channel-0")],
            ChainId::new("ibc-0")
        )
    );
}

#[test]
fn supervisor_knows_whether_it_answers_rest_requests() {
    let (without, _tx) = supervisor(&["ibc-0"], packets_only());
    assert!(!without.has_rest_receiver());
    let (rest_tx, rest_rx) = crossbeam_channel::unbounded();
    let (mut with, _tx): (Supervisor<MockChain, MockWorker>, _) =
        Supervisor::new(config(&["ibc-0", "ibc-1"]), Some(rest_rx));
    assert!(with.has_rest_receiver());
    let mut subscriptions = with.startup().unwrap();
    let (reply_tx, reply_rx) = crossbeam_channel::unbounded();
    rest_tx.send(rest::Command::DumpState(reply_tx)).unwrap();
    let (step, _) = with.run_step(&mut subscriptions).unwrap();
    assert_eq!(step, StepResult::Continue);
    let dumped = reply_rx.try_recv().unwrap();
    assert_eq!(dumped.chains, vec![ChainId::new("ibc-0"), ChainId::new("ibc-1")]);
    assert!(with.has_rest_receiver());
    assert_eq!(with.config().mode, ModeConfig::all_enabled());
}
