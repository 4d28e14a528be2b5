use ibc_relayer::chain::handle::{ChainHandle, HealthCheck, Subscription};
use ibc_relayer::chain::msgs::{Any, Msg, Proofs, Signer};
use ibc_relayer::chain::requests::{
    PageRequest, QueryClientConnectionsRequest, QueryClientStatesRequest,
    QueryConnectionChannelsRequest,
};
use ibc_relayer::chain::state::{
    ChannelEnd, ClientState, ConnectionCounterparty, ConnectionEnd, ConnectionState, Counterparty,
    IdentifiedChannelEnd, IdentifiedClientState, Order, State, TrustThreshold,
};
use ibc_relayer::channel::error::ChannelError;
use ibc_relayer::channel::{
    check_destination_channel_state, extract_channel_id, finalize_steps, from_retry_error,
    next_step, response_event, Channel, ChannelMsgType, ChannelSide, FinalizeStep, HandshakeStep,
};
use ibc_relayer::config::ChainConfig;
use ibc_relayer::connection::{Connection, ConnectionSide};
use ibc_relayer::error::Error;
use ibc_relayer::event::{ChannelAttributes, IbcEvent, NewBlock};
use ibc_relayer::identifier::{ChainId, ChannelId, ClientId, ConnectionId, Height, PortId};
use ibc_relayer::object;
use ibc_relayer::util::retry::{RetryError, RetryResult};
use std::cell::RefCell;
use std::collections::BTreeMap;
use std::rc::Rc;

struct StoredChannel {
    port: String,
    id: String,
    end: ChannelEnd,
}

struct ChainData {
    counterparty_chain: String,
    client: String,
    connection: String,
    counterparty_client: String,
    counterparty_connection: Option<String>,
    channels: Vec<StoredChannel>,
    next_channel: u64,
    send_calls: u32,
    fail_sends: u32,
    fail_versions: bool,
    ignore_acks: bool,
    refuse: bool,
    submitted: Vec<&'static str>,
}

struct World {
    chains: BTreeMap<String, ChainData>,
}

#[derive(Clone)]
struct MockChain {
    name: String,
    world: Rc<RefCell<World>>,
}

fn chain_data(counterparty: &str, client: &str, connection: &str, other_client: &str, other_connection: &str) -> ChainData {
    ChainData {
        counterparty_chain: counterparty.to_string(),
        client: client.to_string(),
        connection: connection.to_string(),
        counterparty_client: other_client.to_string(),
        counterparty_connection: Some(other_connection.to_string()),
        channels: Vec::new(),
        next_channel: 0,
        send_calls: 0,
        fail_sends: 0,
        fail_versions: false,
        ignore_acks: false,
        refuse: false,
        submitted: Vec::new(),
    }
}

fn two_chains() -> (MockChain, MockChain) {
    let mut chains = BTreeMap::new();
    chains.insert("ibc-a".to_string(), chain_data("ibc-b", "07-tendermint-0", "connection-a", "07-tendermint-9", "connection-b"));
    chains.insert("ibc-b".to_string(), chain_data("ibc-a", "07-tendermint-9", "connection-b", "07-tendermint-0", "connection-a"));
    let world = Rc::new(RefCell::new(World { chains }));
    (
        MockChain { name: "ibc-a".to_string(), world: world.clone() },
        MockChain { name: "ibc-b".to_string(), world },
    )
}

fn absent_end() -> ChannelEnd {
    ChannelEnd::new(
        State::Uninitialized,
        Order::Unordered,
        Counterparty::new(PortId::new("none"), None),
        Vec::new(),
        String::new(),
    )
}

impl MockChain {
    fn with<R>(&self, f: impl FnOnce(&mut ChainData) -> R) -> R {
        let mut world = self.world.borrow_mut();
        f(world.chains.get_mut(&self.name).unwrap())
    }

    fn put_channel(&self, port: &str, id: &str, end: ChannelEnd) {
        self.with(|c| c.channels.push(StoredChannel { port: port.to_string(), id: id.to_string(), end }));
    }

    fn state_of(&self, port: &str, id: &str) -> State {
        self.with(|c| {
            c.channels
                .iter()
                .find(|s| s.port == port && s.id == id)
                .map(|s| s.end.state)
                .unwrap_or(State::Uninitialized)
        })
    }

    fn submitted(&self) -> Vec<&'static str> {
        self.with(|c| c.submitted.clone())
    }

    fn attributes(&self, c: &ChainData, port: &PortId, id: &str, end: &ChannelEnd) -> ChannelAttributes {
        ChannelAttributes {
            height: Height::new(0, 10),
            port_id: port.clone(),
            channel_id: Some(ChannelId::new(id)),
            connection_id: ConnectionId::new(&c.connection),
            counterparty_port_id: end.remote.port_id.clone(),
            counterparty_channel_id: end.remote.channel_id.clone(),
        }
    }
}

impl ChainHandle for MockChain {
    fn spawn(_config: &ChainConfig) -> Result<Self, Error> {
        Err(Error::Runtime("no runtime here".to_string()))
    }

    fn shutdown(&self) -> Result<(), Error> {
        Ok(())
    }

    fn id(&self) -> ChainId {
        ChainId::new(&self.name)
    }

    fn health_check(&self) -> Result<HealthCheck, Error> {
        Ok(HealthCheck::Healthy)
    }

    fn subscribe(&self) -> Result<Subscription, Error> {
        Err(Error::Subscription("no events here".to_string()))
    }

    fn query_latest_height(&self) -> Result<Height, Error> {
        Ok(Height::new(0, 10))
    }

    fn query_clients(&self, _request: QueryClientStatesRequest) -> Result<Vec<IdentifiedClientState>, Error> {
        Ok(Vec::new())
    }

    fn query_client_state(&self, _client_id: &ClientId, _height: Height) -> Result<ClientState, Error> {
        Ok(self.with(|c| ClientState {
            chain_id: ChainId::new(&c.counterparty_chain),
            trust_threshold: Some(TrustThreshold { numerator: 1, denominator: 3 }),
        }))
    }

    fn query_client_connections(&self, _request: QueryClientConnectionsRequest) -> Result<Vec<ConnectionId>, Error> {
        Ok(self.with(|c| vec![ConnectionId::new(&c.connection)]))
    }

    fn query_connection(&self, connection_id: &ConnectionId, _height: Height) -> Result<ConnectionEnd, Error> {
        self.with(|c| {
            if connection_id.as_str() != c.connection {
                return Err(Error::Query("no such connection".to_string()));
            }
            Ok(ConnectionEnd {
                state: ConnectionState::Open,
                client_id: ClientId::new(&c.client),
                counterparty: ConnectionCounterparty {
                    client_id: ClientId::new(&c.counterparty_client),
                    connection_id: c.counterparty_connection.as_ref().map(|s| ConnectionId::new(s)),
                },
                delay_period: 0,
            })
        })
    }

    fn query_connection_channels(&self, _request: QueryConnectionChannelsRequest) -> Result<Vec<IdentifiedChannelEnd>, Error> {
        Ok(self.with(|c| {
            c.channels
                .iter()
                .map(|s| IdentifiedChannelEnd::new(PortId::new(&s.port), ChannelId::new(&s.id), s.end.clone()))
                .collect()
        }))
    }

    fn query_channel(&self, port_id: &PortId, channel_id: &ChannelId, _height: Height) -> Result<ChannelEnd, Error> {
        Ok(self.with(|c| {
            c.channels
                .iter()
                .find(|s| s.port == port_id.as_str() && s.id == channel_id.as_str())
                .map(|s| s.end.clone())
                .unwrap_or_else(absent_end)
        }))
    }

    fn build_channel_proofs(&self, _port_id: &PortId, _channel_id: &ChannelId, height: Height) -> Result<Proofs, Error> {
        Ok(Proofs { height, object_proof: vec![1, 2, 3], other_proof: None })
    }

    fn build_update_client(&self, _client_id: &ClientId, _src_chain_id: &ChainId, _target: Height) -> Result<Vec<Any>, Error> {
        Ok(vec![Any { type_url: "/ibc.core.client.v1.MsgUpdateClient".to_string(), value: vec![7] }])
    }

    fn get_signer(&self) -> Result<Signer, Error> {
        Ok(Signer("relayer".to_string()))
    }

    fn module_version(&self, _port_id: &PortId) -> Result<String, Error> {
        if self.with(|c| c.fail_versions) {
            return Err(Error::Query("no version".to_string()));
        }
        Ok("ics20-1".to_string())
    }

    fn send_msgs(&self, msgs: Vec<Msg>) -> Result<Vec<IbcEvent>, Error> {
        let mut world = self.world.borrow_mut();
        let c = world.chains.get_mut(&self.name).unwrap();
        c.send_calls += 1;
        if c.fail_sends > 0 {
            c.fail_sends -= 1;
            return Err(Error::SendTx("try again".to_string()));
        }
        if c.refuse {
            return Ok(vec![IbcEvent::ChainError("refused".to_string())]);
        }
        let mut events = Vec::new();
        for msg in msgs {
            match msg {
                Msg::Encoded(_) => {
                    c.submitted.push("update");
                }
                Msg::ChannelOpenInit(m) => {
                    c.submitted.push("init");
                    let id = format!("channel-{}", c.next_channel);
                    c.next_channel += 1;
                    let attributes = self.attributes(c, &m.port_id, &id, &m.channel);
                    c.channels.push(StoredChannel { port: m.port_id.to_string(), id, end: m.channel });
                    events.push(IbcEvent::OpenInitChannel(attributes));
                }
                Msg::ChannelOpenTry(m) => {
                    c.submitted.push("try");
                    let id = match &m.previous_channel_id {
                        Some(id) => id.to_string(),
                        None => {
                            let id = format!("channel-{}", c.next_channel);
                            c.next_channel += 1;
                            id
                        }
                    };
                    let attributes = self.attributes(c, &m.port_id, &id, &m.channel);
                    c.channels.retain(|s| !(s.port == m.port_id.as_str() && s.id == id));
                    c.channels.push(StoredChannel { port: m.port_id.to_string(), id, end: m.channel });
                    events.push(IbcEvent::OpenTryChannel(attributes));
                }
                Msg::ChannelOpenAck(m) => {
                    c.submitted.push("ack");
                    let ignore = c.ignore_acks;
                    let connection = c.connection.clone();
                    let stored = c
                        .channels
                        .iter_mut()
                        .find(|s| s.port == m.port_id.as_str() && s.id == m.channel_id.as_str())
                        .unwrap();
                    if !ignore {
                        stored.end.state = State::Open;
                        stored.end.remote.channel_id = Some(m.counterparty_channel_id.clone());
                    }
                    events.push(IbcEvent::OpenAckChannel(ChannelAttributes {
                        height: Height::new(0, 10),
                        port_id: m.port_id.clone(),
                        channel_id: Some(m.channel_id.clone()),
                        connection_id: ConnectionId::new(&connection),
                        counterparty_port_id: stored.end.remote.port_id.clone(),
                        counterparty_channel_id: Some(m.counterparty_channel_id.clone()),
                    }));
                }
                Msg::ChannelOpenConfirm(m) => {
                    c.submitted.push("confirm");
                    let connection = c.connection.clone();
                    let stored = c
                        .channels
                        .iter_mut()
                        .find(|s| s.port == m.port_id.as_str() && s.id == m.channel_id.as_str())
                        .unwrap();
                    stored.end.state = State::Open;
                    events.push(IbcEvent::OpenConfirmChannel(ChannelAttributes {
                        height: Height::new(0, 10),
                        port_id: m.port_id.clone(),
                        channel_id: Some(m.channel_id.clone()),
                        connection_id: ConnectionId::new(&connection),
                        counterparty_port_id: stored.end.remote.port_id.clone(),
                        counterparty_channel_id: stored.end.remote.channel_id.clone(),
                    }));
                }
                Msg::ChannelCloseInit(m) => {
                    c.submitted.push("close-init");
                    let connection = c.connection.clone();
                    let stored = c
                        .channels
                        .iter_mut()
                        .find(|s| s.port == m.port_id.as_str() && s.id == m.channel_id.as_str())
                        .unwrap();
                    stored.end.state = State::Closed;
                    events.push(IbcEvent::CloseInitChannel(ChannelAttributes {
                        height: Height::new(0, 10),
                        port_id: m.port_id.clone(),
                        channel_id: Some(m.channel_id.clone()),
                        connection_id: ConnectionId::new(&connection),
                        counterparty_port_id: stored.end.remote.port_id.clone(),
                        counterparty_channel_id: stored.end.remote.channel_id.clone(),
                    }));
                }
                Msg::ChannelCloseConfirm(m) => {
                    c.submitted.push("close-confirm");
                    let connection = c.connection.clone();
                    let stored = c
                        .channels
                        .iter_mut()
                        .find(|s| s.port == m.port_id.as_str() && s.id == m.channel_id.as_str())
                        .unwrap();
                    stored.end.state = State::Closed;
                    events.push(IbcEvent::CloseConfirmChannel(ChannelAttributes {
                        height: Height::new(0, 10),
                        port_id: m.port_id.clone(),
                        channel_id: Some(m.channel_id.clone()),
                        connection_id: ConnectionId::new(&connection),
                        counterparty_port_id: stored.end.remote.port_id.clone(),
                        counterparty_channel_id: stored.end.remote.channel_id.clone(),
                    }));
                }
            }
        }
        Ok(events)
    }
}

fn connection(a: &MockChain, b: &MockChain) -> Connection<MockChain, MockChain> {
    Connection {
        delay_period: 0,
        a_side: ConnectionSide::new(a.clone(), ClientId::new("07-tendermint-0"), Some(ConnectionId::new("connection-a"))),
        b_side: ConnectionSide::new(b.clone(), ClientId::new("07-tendermint-9"), Some(ConnectionId::new("connection-b"))),
    }
}

fn driver(a: &MockChain, b: &MockChain, a_channel: Option<&str>, b_channel: Option<&str>) -> Channel<MockChain, MockChain> {
    Channel {
        ordering: Order::Unordered,
        a_side: ChannelSide::new(
            a.clone(),
            ClientId::new("07-tendermint-0"),
            ConnectionId::new("connection-a"),
            PortId::new("transfer"),
            a_channel.map(ChannelId::new),
        ),
        b_side: ChannelSide::new(
            b.clone(),
            ClientId::new("07-tendermint-9"),
            ConnectionId::new("connection-b"),
            PortId::new("transfer"),
            b_channel.map(ChannelId::new),
        ),
        connection_delay: 0,
        version: Some("ics20-1".to_string()),
    }
}

fn end(state: State, remote_port: &str, remote_channel: Option<&str>, hop: &str) -> ChannelEnd {
    ChannelEnd::new(
        state,
        Order::Unordered,
        Counterparty::new(PortId::new(remote_port), remote_channel.map(ChannelId::new)),
        vec![ConnectionId::new(hop)],
        "ics20-1".to_string(),
    )
}

fn attributes(channel: Option<&str>) -> ChannelAttributes {
    ChannelAttributes {
        height: Height::new(0, 5),
        port_id: PortId::new("transfer"),
        channel_id: channel.map(ChannelId::new),
        connection_id: ConnectionId::new("connection-a"),
        counterparty_port_id: PortId::new("transfer"),
        counterparty_channel_id: None,
    }
}

#[test]
fn open_channel_between_two_empty_chains() {
    let (a, b) = two_chains();
    let channel = Channel::new(
        connection(&a, &b),
        Order::Unordered,
        PortId::new("transfer"),
        PortId::new("transfer"),
        None,
    )
    .unwrap();
    assert_eq!(channel.src_channel_id(), Some(ChannelId::new("channel-0")));
    assert_eq!(channel.dst_channel_id(), Some(ChannelId::new("channel-0")));
    assert_eq!(a.submitted(), vec!["init", "update", "ack"]);
    assert_eq!(b.submitted(), vec!["update", "try", "update", "confirm"]);
    assert_eq!(a.state_of("transfer", "channel-0"), State::Open);
    assert_eq!(b.state_of("transfer", "channel-0"), State::Open);
    let a_end = a.query_channel(&PortId::new("transfer"), &ChannelId::new("channel-0"), Height::zero()).unwrap();
    let b_end = b.query_channel(&PortId::new("transfer"), &ChannelId::new("channel-0"), Height::zero()).unwrap();
    assert_eq!(a_end.version, b_end.version);
    assert_eq!(channel.version, Some("ics20-1".to_string()));
}

#[test]
fn handshake_reports_what_it_submitted() {
    let (a, b) = two_chains();
    let mut channel = driver(&a, &b, None, None);
    let outcome = channel.handshake().unwrap();
    assert_eq!(outcome.initial, (State::Init, State::TryOpen));
    assert_eq!(outcome.last, (State::Open, State::Open));
    assert_eq!(outcome.sent, vec![FinalizeStep::AckOnA, FinalizeStep::ConfirmOnB]);
    assert!(outcome.is_open());
}

#[test]
fn competing_relayer_won_init() {
    let (a, b) = two_chains();
    a.put_channel("transfer", "channel-7", end(State::Init, "transfer", None, "connection-a"));
    let object = object::Channel {
        dst_chain_id: ChainId::new("ibc-b"),
        src_chain_id: ChainId::new("ibc-a"),
        src_channel_id: ChannelId::new("channel-7"),
        src_port_id: PortId::new("transfer"),
    };
    let (mut channel, state) = Channel::restore_from_state(a.clone(), b.clone(), object, Height::zero()).unwrap();
    assert_eq!(state, State::Init);
    assert_eq!(channel.src_channel_id(), Some(ChannelId::new("channel-7")));
    assert_eq!(channel.dst_channel_id(), None);
    channel.do_chan_open_try_and_send_with_retry().unwrap();
    let outcome = channel.do_chan_open_finalize_with_retry().unwrap();
    assert!(outcome.is_open());
    assert!(!a.submitted().contains(&"init"));
    assert_eq!(b.submitted(), vec!["update", "try", "update", "confirm"]);
    assert_eq!(a.state_of("transfer", "channel-7"), State::Open);
    assert_eq!(b.state_of("transfer", "channel-0"), State::Open);
}

#[test]
fn transient_error_on_try_is_retried() {
    let (a, b) = two_chains();
    b.with(|c| c.fail_sends = 1);
    let mut channel = driver(&a, &b, None, None);
    let outcome = channel.handshake().unwrap();
    assert!(outcome.is_open());
    assert!(b.with(|c| c.send_calls) >= 3);
    assert_eq!(b.submitted(), vec!["update", "try", "update", "confirm"]);
    assert_eq!(a.state_of("transfer", "channel-0"), State::Open);
    assert_eq!(b.state_of("transfer", "channel-0"), State::Open);
}

#[test]
fn handshake_on_open_channels_submits_nothing() {
    let (a, b) = two_chains();
    a.put_channel("transfer", "channel-1", end(State::Open, "transfer", Some("channel-2"), "connection-a"));
    b.put_channel("transfer", "channel-2", end(State::Open, "transfer", Some("channel-1"), "connection-b"));
    let channel = driver(&a, &b, Some("channel-1"), Some("channel-2"));
    let outcome = channel.do_chan_open_finalize().unwrap();
    assert_eq!(outcome.initial, (State::Open, State::Open));
    assert_eq!(outcome.last, (State::Open, State::Open));
    assert!(outcome.sent.is_empty());
    assert!(a.submitted().is_empty());
    assert!(b.submitted().is_empty());
    assert_eq!(a.with(|c| c.send_calls), 0);
    assert_eq!(b.with(|c| c.send_calls), 0);
}

#[test]
fn closed_channel_is_left_alone() {
    let (a, b) = two_chains();
    a.put_channel("transfer", "channel-1", end(State::Closed, "transfer", Some("channel-2"), "connection-a"));
    b.put_channel("transfer", "channel-2", end(State::Open, "transfer", Some("channel-1"), "connection-b"));
    let channel = driver(&a, &b, Some("channel-1"), Some("channel-2"));
    let outcome = channel.do_chan_open_finalize().unwrap();
    assert!(outcome.sent.is_empty());
    assert_eq!(outcome.last, (State::Closed, State::Open));
    assert!(!outcome.is_open());
}

#[test]
fn confirm_alone_is_sent_where_one_end_is_open() {
    let (a, b) = two_chains();
    a.put_channel("transfer", "channel-1", end(State::Open, "transfer", Some("channel-2"), "connection-a"));
    b.put_channel("transfer", "channel-2", end(State::TryOpen, "transfer", Some("channel-1"), "connection-b"));
    let channel = driver(&a, &b, Some("channel-1"), Some("channel-2"));
    let outcome = channel.do_chan_open_finalize().unwrap();
    assert_eq!(outcome.sent, vec![FinalizeStep::ConfirmOnB]);
    assert_eq!(b.submitted(), vec!["update", "confirm"]);
    assert!(a.submitted().is_empty());
}

#[test]
fn try_open_and_init_is_acked_on_b_then_confirmed_on_a() {
    let (a, b) = two_chains();
    a.put_channel("transfer", "channel-1", end(State::TryOpen, "transfer", Some("channel-2"), "connection-a"));
    b.put_channel("transfer", "channel-2", end(State::Init, "transfer", None, "connection-b"));
    let channel = driver(&a, &b, Some("channel-1"), Some("channel-2"));
    let outcome = channel.do_chan_open_finalize().unwrap();
    assert_eq!(outcome.sent, vec![FinalizeStep::AckOnB, FinalizeStep::ConfirmOnA]);
    assert_eq!(b.submitted(), vec!["update", "ack"]);
    assert_eq!(a.submitted(), vec!["update", "confirm"]);
    assert!(outcome.is_open());
}

#[test]
fn finalize_steps_follow_the_table() {
    assert_eq!(finalize_steps(State::Init, State::TryOpen), vec![FinalizeStep::AckOnA, FinalizeStep::ConfirmOnB]);
    assert_eq!(finalize_steps(State::TryOpen, State::TryOpen), vec![FinalizeStep::AckOnA, FinalizeStep::ConfirmOnB]);
    assert_eq!(finalize_steps(State::TryOpen, State::Init), vec![FinalizeStep::AckOnB, FinalizeStep::ConfirmOnA]);
    assert_eq!(finalize_steps(State::Open, State::TryOpen), vec![FinalizeStep::ConfirmOnB]);
    assert_eq!(finalize_steps(State::TryOpen, State::Open), vec![FinalizeStep::ConfirmOnA]);
    assert_eq!(finalize_steps(State::Open, State::Open), vec![]);
    assert_eq!(finalize_steps(State::Init, State::Init), vec![]);
    assert_eq!(finalize_steps(State::Closed, State::Open), vec![]);
    assert_eq!(finalize_steps(State::Uninitialized, State::Uninitialized), vec![]);
    assert_eq!(FinalizeStep::AckOnA.expected(), (State::Open, State::TryOpen));
    assert_eq!(FinalizeStep::AckOnB.expected(), (State::TryOpen, State::Open));
    assert_eq!(FinalizeStep::ConfirmOnA.expected(), (State::Open, State::Open));
    assert_eq!(FinalizeStep::ConfirmOnB.expected(), (State::Open, State::Open));
}

#[test]
fn states_that_did_not_progress_ask_for_a_retry() {
    let (a, b) = two_chains();
    a.put_channel("transfer", "channel-1", end(State::Init, "transfer", None, "connection-a"));
    b.put_channel("transfer", "channel-2", end(State::TryOpen, "transfer", Some("channel-1"), "connection-b"));
    a.with(|c| c.ignore_acks = true);
    let channel = driver(&a, &b, Some("channel-1"), Some("channel-2"));
    let err = channel.do_chan_open_finalize().unwrap_err();
    assert_eq!(err, ChannelError::PartialOpenHandshake(State::Open, State::TryOpen));
    assert!(err.is_retryable());
}

#[test]
fn finalize_needs_both_channels() {
    let (a, b) = two_chains();
    let channel = driver(&a, &b, None, Some("channel-2"));
    assert_eq!(channel.do_chan_open_finalize().unwrap_err(), ChannelError::MissingLocalChannelId);
    let channel = driver(&a, &b, Some("channel-1"), None);
    assert_eq!(
        channel.do_chan_open_finalize().unwrap_err(),
        ChannelError::MissingCounterpartyConnection
    );
}

#[test]
fn usage_error_is_not_retried() {
    let (a, b) = two_chains();
    let mut channel = driver(&a, &b, None, None);
    let err = channel.do_chan_open_try_and_send_with_retry().unwrap_err();
    match err {
        ChannelError::MaxRetry { description, tries, total_delay, source } => {
            assert_eq!(tries, 1);
            assert_eq!(total_delay, 0);
            assert_eq!(*source, ChannelError::MissingLocalChannelId);
            assert_eq!(description, "Failed to finish channel open try for transfer <-> transfer");
        }
        other => panic!("unexpected error {:?}", other),
    }
    assert_eq!(b.with(|c| c.send_calls), 0);
}

#[test]
fn init_message_names_the_other_port_and_no_channel() {
    let (a, b) = two_chains();
    let channel = driver(&a, &b, None, None);
    let msgs = channel.build_chan_open_init().unwrap();
    assert_eq!(msgs.len(), 1);
    match &msgs[0] {
        Msg::ChannelOpenInit(m) => {
            assert_eq!(m.port_id, PortId::new("transfer"));
            assert_eq!(m.channel.state, State::Init);
            assert_eq!(m.channel.remote, Counterparty::new(PortId::new("transfer"), None));
            assert_eq!(m.channel.connection_hops, vec![ConnectionId::new("connection-b")]);
            assert_eq!(m.channel.version, "ics20-1");
        }
        other => panic!("unexpected message {:?}", other),
    }
}

#[test]
fn try_message_resumes_the_channel_held_for_the_destination() {
    let (a, b) = two_chains();
    a.put_channel("transfer", "channel-1", end(State::Init, "transfer", None, "connection-a"));
    let channel = driver(&a, &b, Some("channel-1"), Some("channel-5"));
    let msgs = channel.build_chan_open_try().unwrap();
    assert_eq!(msgs.len(), 2);
    assert!(matches!(msgs[0], Msg::Encoded(_)));
    match &msgs[1] {
        Msg::ChannelOpenTry(m) => {
            assert_eq!(m.previous_channel_id, Some(ChannelId::new("channel-5")));
            assert_eq!(m.channel.state, State::TryOpen);
            assert_eq!(
                m.channel.remote,
                Counterparty::new(PortId::new("transfer"), Some(ChannelId::new("channel-1")))
            );
            assert_eq!(m.channel.connection_hops, vec![ConnectionId::new("connection-b")]);
            assert_eq!(m.proofs.height, Height::new(0, 10));
        }
        other => panic!("unexpected message {:?}", other),
    }
}

#[test]
fn try_message_prefers_the_channel_named_by_the_source() {
    let (a, b) = two_chains();
    a.put_channel("transfer", "channel-1", end(State::Init, "transfer", Some("channel-3"), "connection-a"));
    let channel = driver(&a, &b, Some("channel-1"), Some("channel-5"));
    let msgs = channel.build_chan_open_try().unwrap();
    match msgs.last().unwrap() {
        Msg::ChannelOpenTry(m) => {
            assert_eq!(m.previous_channel_id, Some(ChannelId::new("channel-3")));
        }
        other => panic!("unexpected message {:?}", other),
    }
}

#[test]
fn try_fails_on_a_port_that_the_source_does_not_name() {
    let (a, b) = two_chains();
    a.put_channel("transfer", "channel-1", end(State::Init, "other", None, "connection-a"));
    let channel = driver(&a, &b, Some("channel-1"), None);
    let err = channel.build_chan_open_try().unwrap_err();
    assert!(matches!(err, ChannelError::MismatchPort { .. }));
    assert!(!err.is_retryable());
}

#[test]
fn ack_needs_the_channel_on_the_destination() {
    let (a, b) = two_chains();
    a.put_channel("transfer", "channel-1", end(State::TryOpen, "transfer", Some("channel-2"), "connection-a"));
    let channel = driver(&a, &b, Some("channel-1"), Some("channel-2"));
    assert_eq!(
        channel.build_chan_open_ack().unwrap_err(),
        ChannelError::MissingChannelOnDestination
    );
    assert_eq!(
        channel.validated_expected_channel(ChannelMsgType::OpenAck).unwrap_err(),
        ChannelError::MissingChannelOnDestination
    );
    let channel = driver(&a, &b, Some("channel-1"), None);
    assert_eq!(
        channel.validated_expected_channel(ChannelMsgType::OpenAck).unwrap_err(),
        ChannelError::MissingCounterpartyChannelId
    );
    assert_eq!(
        channel.build_chan_open_ack().unwrap_err(),
        ChannelError::MissingCounterpartyChannelId
    );
    let channel = driver(&a, &b, None, Some("channel-2"));
    assert_eq!(channel.build_chan_open_ack().unwrap_err(), ChannelError::MissingLocalChannelId);
}

#[test]
fn expected_channel_is_held_against_the_destination() {
    let (a, b) = two_chains();
    b.put_channel("transfer", "channel-2", end(State::Init, "transfer", None, "connection-b"));
    let channel = driver(&a, &b, Some("channel-1"), Some("channel-2"));
    let expected = channel.validated_expected_channel(ChannelMsgType::OpenAck).unwrap();
    assert_eq!(expected, end(State::TryOpen, "transfer", Some("channel-1"), "connection-b"));
    let expected = channel.validated_expected_channel(ChannelMsgType::CloseConfirm).unwrap();
    assert_eq!(expected.state, State::Open);

    let (a, b) = two_chains();
    b.put_channel("transfer", "channel-2", end(State::Open, "transfer", Some("channel-1"), "connection-b"));
    let channel = driver(&a, &b, Some("channel-1"), Some("channel-2"));
    assert_eq!(
        channel.validated_expected_channel(ChannelMsgType::OpenConfirm).unwrap_err(),
        ChannelError::ChannelAlreadyExist(ChannelId::new("channel-2"))
    );
    assert!(channel.validated_expected_channel(ChannelMsgType::CloseConfirm).is_ok());
}

#[test]
fn destination_channel_must_fit() {
    let id = || ChannelId::new("channel-2");
    let expected = end(State::TryOpen, "transfer", Some("channel-1"), "connection-b");
    let same = end(State::TryOpen, "transfer", Some("channel-1"), "connection-b");
    assert_eq!(check_destination_channel_state(id(), &same, &expected), Ok(()));
    let earlier = end(State::Init, "transfer", None, "connection-b");
    assert_eq!(check_destination_channel_state(id(), &earlier, &expected), Ok(()));
    let further = end(State::Open, "transfer", Some("channel-1"), "connection-b");
    assert_eq!(
        check_destination_channel_state(id(), &further, &expected),
        Err(ChannelError::ChannelAlreadyExist(id()))
    );
    let other_hop = end(State::Init, "transfer", None, "connection-x");
    assert_eq!(
        check_destination_channel_state(id(), &other_hop, &expected),
        Err(ChannelError::ChannelAlreadyExist(id()))
    );
    let other_channel = end(State::Init, "transfer", Some("channel-9"), "connection-b");
    assert_eq!(
        check_destination_channel_state(id(), &other_channel, &expected),
        Err(ChannelError::ChannelAlreadyExist(id()))
    );
    let other_port = end(State::Init, "other", Some("channel-1"), "connection-b");
    assert_eq!(
        check_destination_channel_state(id(), &other_port, &expected),
        Err(ChannelError::ChannelAlreadyExist(id()))
    );
    let other_port_no_channel = end(State::Init, "other", None, "connection-b");
    assert_eq!(check_destination_channel_state(id(), &other_port_no_channel, &expected), Ok(()));
}

#[test]
fn first_settling_event_decides() {
    let init = IbcEvent::OpenInitChannel(attributes(Some("channel-0")));
    let block = IbcEvent::NewBlock(NewBlock { height: Height::new(0, 1) });
    let refused = IbcEvent::ChainError("out of gas".to_string());
    let events = vec![block.clone(), init.clone(), refused.clone()];
    assert_eq!(response_event(&events, HandshakeStep::OpenInit), Ok(init.clone()));
    assert_eq!(
        response_event(&events, HandshakeStep::OpenTry),
        Err(ChannelError::TxResponse("out of gas".to_string()))
    );
    assert_eq!(
        response_event(&events, HandshakeStep::OpenConfirm),
        Err(ChannelError::TxResponse("out of gas".to_string()))
    );
    assert!(ChannelError::TxResponse("out of gas".to_string()).is_retryable());
    let events = vec![refused, init];
    assert_eq!(
        response_event(&events, HandshakeStep::OpenInit),
        Err(ChannelError::TxResponse("out of gas".to_string()))
    );
    let events = vec![block];
    assert_eq!(
        response_event(&events, HandshakeStep::OpenInit),
        Err(ChannelError::MissingEvent("no chan init event was in the response".to_string()))
    );
    assert_eq!(
        response_event(&events, HandshakeStep::OpenTry),
        Err(ChannelError::MissingEvent("no chan try event was in the response".to_string()))
    );
    assert_eq!(
        response_event(&events, HandshakeStep::OpenAck),
        Err(ChannelError::MissingEvent("no chan ack event was in the response".to_string()))
    );
    assert_eq!(
        response_event(&events, HandshakeStep::OpenConfirm),
        Err(ChannelError::MissingEvent("no chan confirm event was in the response".to_string()))
    );
    assert_eq!(
        response_event(&events, HandshakeStep::CloseInit),
        Err(ChannelError::MissingEvent("no chan init event was in the response".to_string()))
    );
    assert_eq!(
        response_event(&events, HandshakeStep::CloseConfirm),
        Err(ChannelError::MissingEvent("no chan confirm event was in the response".to_string()))
    );
}

#[test]
fn refused_transaction_is_reported() {
    let (a, b) = two_chains();
    b.with(|c| c.refuse = true);
    a.put_channel("transfer", "channel-1", end(State::Init, "transfer", None, "connection-a"));
    let channel = driver(&a, &b, Some("channel-1"), None);
    assert_eq!(
        channel.build_chan_open_try_and_send().unwrap_err(),
        ChannelError::TxResponse("refused".to_string())
    );
}

#[test]
fn failed_submission_is_reported() {
    let (a, b) = two_chains();
    b.with(|c| c.fail_sends = 1);
    a.put_channel("transfer", "channel-1", end(State::Init, "transfer", None, "connection-a"));
    let channel = driver(&a, &b, Some("channel-1"), None);
    assert_eq!(
        channel.build_chan_open_try_and_send().unwrap_err(),
        ChannelError::Submit(ChainId::new("ibc-b"), Error::SendTx("try again".to_string()))
    );
}

#[test]
fn channel_id_comes_from_handshake_events() {
    let id = ChannelId::new("channel-4");
    assert_eq!(extract_channel_id(&IbcEvent::OpenInitChannel(attributes(Some("channel-4")))), Ok(id.clone()));
    assert_eq!(extract_channel_id(&IbcEvent::OpenTryChannel(attributes(Some("channel-4")))), Ok(id.clone()));
    assert_eq!(extract_channel_id(&IbcEvent::OpenAckChannel(attributes(Some("channel-4")))), Ok(id.clone()));
    assert_eq!(extract_channel_id(&IbcEvent::OpenConfirmChannel(attributes(Some("channel-4")))), Ok(id));
    let missing = ChannelError::MissingEvent("cannot extract channel_id from result".to_string());
    assert_eq!(extract_channel_id(&IbcEvent::OpenInitChannel(attributes(None))), Err(missing));
    assert!(extract_channel_id(&IbcEvent::CloseInitChannel(attributes(Some("channel-4")))).is_err());
    assert!(extract_channel_id(&IbcEvent::ChainError("no".to_string())).is_err());
}

#[test]
fn driver_is_restored_from_an_event() {
    let (a, b) = two_chains();
    let event = IbcEvent::OpenInitChannel(attributes(Some("channel-3")));
    let channel = Channel::restore_from_event(a.clone(), b.clone(), event).unwrap();
    assert_eq!(channel.ordering, Order::Unordered);
    assert_eq!(channel.src_port_id(), PortId::new("transfer"));
    assert_eq!(channel.src_channel_id(), Some(ChannelId::new("channel-3")));
    assert_eq!(channel.src_connection_id(), ConnectionId::new("connection-a"));
    assert_eq!(channel.src_client_id(), ClientId::new("07-tendermint-0"));
    assert_eq!(channel.dst_connection_id(), ConnectionId::new("connection-b"));
    assert_eq!(channel.dst_client_id(), ClientId::new("07-tendermint-9"));
    assert_eq!(channel.dst_port_id(), PortId::new("transfer"));
    assert_eq!(channel.dst_channel_id(), None);
    assert_eq!(channel.version, Some("ics20-1".to_string()));
    assert_eq!(channel.a_side.chain_id(), ChainId::new("ibc-a"));
    assert_eq!(channel.b_side.chain_id(), ChainId::new("ibc-b"));
}

#[test]
fn driver_is_not_restored_from_other_events() {
    let (a, b) = two_chains();
    let event = IbcEvent::NewBlock(NewBlock { height: Height::new(0, 1) });
    let err = Channel::restore_from_event(a.clone(), b.clone(), event.clone()).err().unwrap();
    assert_eq!(err, ChannelError::InvalidEvent(event));
    let closing = IbcEvent::CloseInitChannel(attributes(Some("channel-3")));
    let err = Channel::restore_from_event(a.clone(), b.clone(), closing.clone()).err().unwrap();
    assert_eq!(err, ChannelError::InvalidEvent(closing));
    let closed = IbcEvent::CloseConfirmChannel(attributes(Some("channel-3")));
    let err = Channel::restore_from_event(a.clone(), b.clone(), closed.clone()).err().unwrap();
    assert_eq!(err, ChannelError::InvalidEvent(closed));

    a.with(|c| c.counterparty_connection = None);
    let event = IbcEvent::OpenInitChannel(attributes(Some("channel-3")));
    let err = Channel::restore_from_event(a.clone(), b.clone(), event).err().unwrap();
    assert_eq!(err, ChannelError::MissingCounterpartyConnection);
}

#[test]
fn restored_driver_adopts_the_first_channel_that_names_it() {
    let (a, b) = two_chains();
    a.put_channel("transfer", "channel-7", end(State::Init, "transfer", None, "connection-a"));
    b.put_channel("transfer", "channel-1", end(State::TryOpen, "transfer", Some("channel-6"), "connection-b"));
    b.put_channel("transfer", "channel-2", end(State::TryOpen, "transfer", Some("channel-7"), "connection-b"));
    b.put_channel("transfer", "channel-3", end(State::TryOpen, "transfer", Some("channel-7"), "connection-b"));
    let object = object::Channel {
        dst_chain_id: ChainId::new("ibc-b"),
        src_chain_id: ChainId::new("ibc-a"),
        src_channel_id: ChannelId::new("channel-7"),
        src_port_id: PortId::new("transfer"),
    };
    let (channel, state) = Channel::restore_from_state(a.clone(), b.clone(), object, Height::zero()).unwrap();
    assert_eq!(state, State::Init);
    assert_eq!(channel.dst_channel_id(), Some(ChannelId::new("channel-2")));
    assert_eq!(channel.dst_connection_id(), ConnectionId::new("connection-b"));
}

#[test]
fn restore_from_state_needs_a_connection() {
    let (a, b) = two_chains();
    let object = object::Channel {
        dst_chain_id: ChainId::new("ibc-b"),
        src_chain_id: ChainId::new("ibc-a"),
        src_channel_id: ChannelId::new("channel-7"),
        src_port_id: PortId::new("transfer"),
    };
    let err = Channel::restore_from_state(a.clone(), b.clone(), object, Height::zero()).err().unwrap();
    assert!(matches!(err, ChannelError::Supervisor(_)));
}

#[test]
fn flipped_driver_changes_sides() {
    let (a, b) = two_chains();
    let channel = driver(&a, &b, Some("channel-1"), None);
    let flipped = channel.flipped();
    assert_eq!(flipped.src_channel_id(), None);
    assert_eq!(flipped.dst_channel_id(), Some(ChannelId::new("channel-1")));
    assert_eq!(flipped.src_connection_id(), ConnectionId::new("connection-b"));
    assert_eq!(flipped.dst_connection_id(), ConnectionId::new("connection-a"));
    assert_eq!(flipped.src_chain().id(), ChainId::new("ibc-b"));
    assert_eq!(flipped.dst_chain().id(), ChainId::new("ibc-a"));
    assert_eq!(flipped.ordering, channel.ordering);
    assert_eq!(flipped.version, channel.version);
}

#[test]
fn next_step_follows_the_states() {
    assert_eq!(next_step(State::Init, State::Uninitialized), Some(ChannelMsgType::OpenTry));
    assert_eq!(next_step(State::Init, State::Init), Some(ChannelMsgType::OpenTry));
    assert_eq!(next_step(State::TryOpen, State::Init), Some(ChannelMsgType::OpenAck));
    assert_eq!(next_step(State::TryOpen, State::TryOpen), Some(ChannelMsgType::OpenAck));
    assert_eq!(next_step(State::Open, State::TryOpen), Some(ChannelMsgType::OpenConfirm));
    assert_eq!(next_step(State::Open, State::Open), None);
    assert_eq!(next_step(State::Init, State::TryOpen), None);
    assert_eq!(next_step(State::Closed, State::Closed), None);
}

#[test]
fn handshake_step_submits_what_comes_next() {
    let (a, b) = two_chains();
    a.put_channel("transfer", "channel-1", end(State::Init, "transfer", None, "connection-a"));
    let mut channel = driver(&a, &b, Some("channel-1"), None);
    assert_eq!(channel.counterparty_state(), Ok(State::Uninitialized));
    let events = channel.handshake_step(State::Init).unwrap();
    assert_eq!(events.len(), 1);
    assert!(matches!(events[0], IbcEvent::OpenTryChannel(_)));
    assert_eq!(b.submitted(), vec!["update", "try"]);
    let events = channel.handshake_step(State::Closed).unwrap();
    assert!(events.is_empty());
    assert_eq!(b.submitted(), vec!["update", "try"]);
    assert_eq!(
        channel.handshake_step(State::Open).unwrap_err(),
        ChannelError::MissingCounterpartyChannelId
    );
}

#[test]
fn step_state_asks_for_a_retry_on_failure() {
    let (a, b) = two_chains();
    let mut channel = driver(&a, &b, None, None);
    assert_eq!(channel.counterparty_state(), Err(ChannelError::MissingLocalChannelId));
    assert_eq!(channel.step_state(State::Init, 4), RetryResult::Retry(4));
    let event = IbcEvent::OpenInitChannel(attributes(Some("channel-1")));
    assert_eq!(channel.step_event(event, 9), RetryResult::Retry(9));

    a.put_channel("transfer", "channel-1", end(State::Init, "transfer", None, "connection-a"));
    let mut channel = driver(&a, &b, Some("channel-1"), None);
    let event = IbcEvent::OpenInitChannel(attributes(Some("channel-1")));
    assert_eq!(channel.step_event(event, 1), RetryResult::Done(()));
    assert_eq!(b.state_of("transfer", "channel-0"), State::TryOpen);
}

#[test]
fn channel_is_closed_in_two_steps() {
    let (a, b) = two_chains();
    a.put_channel("transfer", "channel-1", end(State::Open, "transfer", Some("channel-2"), "connection-a"));
    b.put_channel("transfer", "channel-2", end(State::Open, "transfer", Some("channel-1"), "connection-b"));
    let channel = driver(&a, &b, Some("channel-1"), Some("channel-2"));
    let msgs = channel.build_chan_close_init().unwrap();
    assert_eq!(msgs.len(), 1);
    assert!(matches!(msgs[0], Msg::ChannelCloseInit(_)));
    let event = channel.build_chan_close_init_and_send().unwrap();
    assert!(matches!(event, IbcEvent::CloseInitChannel(_)));
    assert_eq!(b.state_of("transfer", "channel-2"), State::Closed);

    let back = channel.flipped();
    let msgs = back.build_chan_close_confirm().unwrap();
    assert!(matches!(msgs.last().unwrap(), Msg::ChannelCloseConfirm(_)));
    let event = back.build_chan_close_confirm_and_send().unwrap();
    assert!(matches!(event, IbcEvent::CloseConfirmChannel(_)));
    assert_eq!(a.state_of("transfer", "channel-1"), State::Closed);

    let channel = driver(&a, &b, Some("channel-1"), None);
    assert_eq!(
        channel.build_chan_close_init().unwrap_err(),
        ChannelError::MissingCounterpartyChannelId
    );
}

#[test]
fn versions_come_from_the_driver_or_the_chain() {
    let (a, b) = two_chains();
    let mut channel = driver(&a, &b, None, None);
    channel.version = Some("custom-1".to_string());
    assert_eq!(channel.dst_version(), Ok("custom-1".to_string()));
    assert_eq!(channel.src_version(), Ok("custom-1".to_string()));
    channel.version = None;
    assert_eq!(channel.dst_version(), Ok("ics20-1".to_string()));
    b.with(|c| c.fail_versions = true);
    assert!(matches!(channel.dst_version(), Err(ChannelError::Query(_, _))));
    channel.version = Some("custom-1".to_string());
    assert!(matches!(channel.dst_version(), Err(ChannelError::Query(_, _))));
}

#[test]
fn new_channel_needs_named_connection_ends() {
    let (a, b) = two_chains();
    let mut conn = connection(&a, &b);
    conn.a_side.connection_id = None;
    let err = Channel::new(conn, Order::Unordered, PortId::new("transfer"), PortId::new("transfer"), None)
        .err()
        .unwrap();
    assert_eq!(err, ChannelError::MissingLocalConnection(ChainId::new("ibc-a")));
    b.with(|c| c.fail_versions = true);
    let err = Channel::new(
        connection(&a, &b),
        Order::Unordered,
        PortId::new("transfer"),
        PortId::new("transfer"),
        Some("v".to_string()),
    )
    .err()
    .unwrap();
    assert!(matches!(err, ChannelError::Query(_, _)));
}

#[test]
fn retry_error_becomes_max_retry() {
    let e = RetryError::Operation {
        error: ChannelError::MissingEvent("none".to_string()),
        total_delay: 600000,
        tries: 19,
    };
    assert_eq!(
        from_retry_error(e, "open".to_string()),
        ChannelError::MaxRetry {
            description: "open".to_string(),
            tries: 19,
            total_delay: 600000,
            source: Box::new(ChannelError::MissingEvent("none".to_string())),
        }
    );
    assert_eq!(
        from_retry_error(RetryError::Internal("broken".to_string()), "open".to_string()),
        ChannelError::RetryInternal("broken".to_string())
    );
}

#[test]
fn errors_are_retried_or_not() {
    let chain = || ChainId::new("ibc-a");
    let failed = || Error::Query("down".to_string());
    assert!(ChannelError::Query(chain(), failed()).is_retryable());
    assert!(ChannelError::Submit(chain(), failed()).is_retryable());
    assert!(ChannelError::TxResponse("no".to_string()).is_retryable());
    assert!(ChannelError::MissingEvent("no".to_string()).is_retryable());
    assert!(ChannelError::PartialOpenHandshake(State::Open, State::Open).is_retryable());
    assert!(!ChannelError::InvalidEvent(IbcEvent::Empty(String::new())).is_retryable());
    assert!(!ChannelError::MissingLocalChannelId.is_retryable());
    assert!(!ChannelError::MissingCounterpartyChannelId.is_retryable());
    assert!(!ChannelError::MissingLocalConnection(chain()).is_retryable());
    assert!(!ChannelError::MissingCounterpartyConnection.is_retryable());
    assert!(!ChannelError::ChannelAlreadyExist(ChannelId::new("channel-0")).is_retryable());
    assert!(!ChannelError::MissingChannelOnDestination.is_retryable());
}

#[test]
fn second_relayer_finds_the_handshake_done() {
    let (a, b) = two_chains();
    let mut first = driver(&a, &b, None, None);
    assert!(first.handshake().unwrap().is_open());
    let submitted_a = a.submitted();
    let submitted_b = b.submitted();
    let mut second = driver(&a, &b, Some("channel-0"), Some("channel-0"));
    let outcome = second.do_chan_open_finalize_with_retry().unwrap();
    assert!(outcome.is_open());
    assert!(outcome.sent.is_empty());
    assert_eq!(a.submitted(), submitted_a);
    assert_eq!(b.submitted(), submitted_b);
}

#[test]
fn second_relayer_goes_on_from_where_the_first_stopped() {
    let (a, b) = two_chains();
    let mut first = driver(&a, &b, None, None);
    first.do_chan_open_init_and_send_with_retry().unwrap();
    first.do_chan_open_try_and_send_with_retry().unwrap();
    assert_eq!(first.query_channel_states(), Ok((State::Init, State::TryOpen)));
    let second = driver(&a, &b, Some("channel-0"), Some("channel-0"));
    let outcome = second.do_chan_open_finalize().unwrap();
    assert_eq!(outcome.sent, vec![FinalizeStep::AckOnA, FinalizeStep::ConfirmOnB]);
    let outcome = first.do_chan_open_finalize_with_retry().unwrap();
    assert!(outcome.sent.is_empty());
    assert!(outcome.is_open());
    assert_eq!(a.submitted(), vec!["init", "update", "ack"]);
    assert_eq!(b.submitted(), vec!["update", "try", "update", "confirm"]);
}

#[test]
fn finalize_without_both_channels_fails_at_once() {
    let (a, b) = two_chains();
    let mut channel = driver(&a, &b, None, Some("channel-2"));
    match channel.do_chan_open_finalize_with_retry().unwrap_err() {
        ChannelError::MaxRetry { description, tries, total_delay, source } => {
            assert_eq!(tries, 1);
            assert_eq!(total_delay, 0);
            assert_eq!(*source, ChannelError::MissingLocalChannelId);
            assert_eq!(description, "Failed to finish channel handshake for transfer <-> transfer");
        }
        other => panic!("unexpected error {:?}", other),
    }
    let mut channel = driver(&a, &b, Some("channel-1"), None);
    match channel.do_chan_open_finalize_with_retry().unwrap_err() {
        ChannelError::MaxRetry { tries, total_delay, source, .. } => {
            assert_eq!(tries, 1);
            assert_eq!(total_delay, 0);
            assert_eq!(*source, ChannelError::MissingCounterpartyConnection);
        }
        other => panic!("unexpected error {:?}", other),
    }
    assert_eq!(a.with(|c| c.send_calls), 0);
    assert_eq!(b.with(|c| c.send_calls), 0);
}

#[test]
fn handshake_adopts_the_channel_that_another_relayer_began() {
    let (a, b) = two_chains();
    a.put_channel("transfer", "channel-7", end(State::Init, "transfer", None, "connection-a"));
    let mut channel = driver(&a, &b, None, None);
    let outcome = channel.handshake().unwrap();
    assert!(outcome.is_open());
    assert_eq!(outcome.initial, (State::Init, State::TryOpen));
    assert_eq!(channel.src_channel_id(), Some(ChannelId::new("channel-7")));
    assert_eq!(channel.dst_channel_id(), Some(ChannelId::new("channel-0")));
    assert_eq!(a.submitted(), vec!["update", "ack"]);
    assert_eq!(b.submitted(), vec!["update", "try", "update", "confirm"]);
    assert_eq!(a.state_of("transfer", "channel-7"), State::Open);
    assert_eq!(b.state_of("transfer", "channel-0"), State::Open);
}

#[test]
fn only_a_channel_begun_for_the_same_handshake_is_adopted() {
    let (a, b) = two_chains();
    let mut channel = driver(&a, &b, None, None);
    assert!(!channel.adopt_begun_channel());
    assert_eq!(channel.src_channel_id(), None);
    a.put_channel("transfer", "channel-1", end(State::Init, "other", None, "connection-a"));
    a.put_channel("transfer", "channel-2", end(State::TryOpen, "transfer", None, "connection-a"));
    a.put_channel("transfer", "channel-3", end(State::Init, "transfer", Some("channel-0"), "connection-a"));
    a.put_channel("transfer", "channel-4", end(State::Init, "transfer", None, "connection-z"));
    a.put_channel("other", "channel-5", end(State::Init, "transfer", None, "connection-a"));
    let mut ordered = end(State::Init, "transfer", None, "connection-a");
    ordered.ordering = Order::Ordered;
    a.put_channel("transfer", "channel-6", ordered);
    let mut versioned = end(State::Init, "transfer", None, "connection-a");
    versioned.version = "ics20-2".to_string();
    a.put_channel("transfer", "channel-7", versioned);
    assert!(!channel.adopt_begun_channel());
    assert_eq!(channel.src_channel_id(), None);
    a.put_channel("transfer", "channel-8", end(State::Init, "transfer", None, "connection-a"));
    a.put_channel("transfer", "channel-9", end(State::Init, "transfer", None, "connection-a"));
    let listed = a
        .query_connection_channels(QueryConnectionChannelsRequest {
            connection_id: ConnectionId::new("connection-a"),
            pagination: Some(PageRequest::all()),
        })
        .unwrap();
    assert_eq!(channel.find_begun(&listed), Some(ChannelId::new("channel-8")));
    assert!(channel.adopt_begun_channel());
    assert_eq!(channel.src_channel_id(), Some(ChannelId::new("channel-8")));
    assert_eq!(channel.dst_channel_id(), None);
    assert!(a.submitted().is_empty());
}

#[test]
fn failed_try_leaves_the_channel_of_the_destination() {
    let (a, b) = two_chains();
    a.put_channel("transfer", "channel-1", end(State::Init, "other", None, "connection-a"));
    let mut channel = driver(&a, &b, Some("channel-1"), Some("channel-5"));
    let err = channel.do_chan_open_try_and_send_with_retry().unwrap_err();
    match err {
        ChannelError::MaxRetry { tries, total_delay, source, .. } => {
            assert_eq!(tries, 1);
            assert_eq!(total_delay, 0);
            assert!(matches!(*source, ChannelError::MismatchPort { .. }));
        }
        other => panic!("unexpected error: {:?}", other),
    }
    assert_eq!(channel.src_channel_id(), Some(ChannelId::new("channel-1")));
    assert_eq!(channel.dst_channel_id(), Some(ChannelId::new("channel-5")));
    assert!(b.submitted().is_empty());
}

#[test]
fn refused_confirmation_is_tried_again() {
    let (a, b) = two_chains();
    a.put_channel("transfer", "channel-1", end(State::Open, "transfer", Some("channel-2"), "connection-a"));
    b.put_channel("transfer", "channel-2", end(State::TryOpen, "transfer", Some("channel-1"), "connection-b"));
    b.with(|c| c.refuse = true);
    let channel = driver(&a, &b, Some("channel-1"), Some("channel-2"));
    let err = channel.build_chan_open_confirm_and_send().unwrap_err();
    assert_eq!(err, ChannelError::TxResponse("refused".to_string()));
    assert!(err.is_retryable());
    let err = channel.do_chan_open_finalize().unwrap_err();
    assert_eq!(err, ChannelError::TxResponse("refused".to_string()));
}
