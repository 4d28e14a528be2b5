use ibc_relayer::chain::counterparty::connection_of_channel;
use ibc_relayer::chain::state::{
    clone_hops, same_hops, ChannelEnd, ConnectionState, Counterparty, Order, State,
};
use ibc_relayer::config::{ChainConfig, Config, ModeConfig, PacketFilter};
use ibc_relayer::event::{ChannelAttributes, ConnectionAttributes, IbcEvent, NewBlock};
use ibc_relayer::identifier::{ChainId, ChannelId, ClientId, ConnectionId, Height, PortId};
use ibc_relayer::object::{self, Object};
use ibc_relayer::supervisor::error::Error;

fn chain_config(id: &str, filter: PacketFilter) -> ChainConfig {
    ChainConfig { id: ChainId::new(id), rpc_addr: "tcp://localhost:26657".to_string(), packet_filter: filter }
}

fn entry(port: &str, channel: &str) -> (PortId, ChannelId) {
    (PortId::new(port), ChannelId::new(channel))
}

#[test]
fn identifiers_compare_by_spelling() {
    assert_eq!(ChainId::new("ibc-0"), ChainId::new("ibc-0"));
    assert_ne!(ChainId::new("ibc-0"), ChainId::new("ibc-1"));
    assert_eq!(ChannelId::new("channel-0").clone(), ChannelId::new("channel-0"));
    assert_eq!(PortId::new("transfer").as_str(), "transfer");
    assert_eq!(ClientId::new("07-tendermint-0").to_string(), "07-tendermint-0");
    assert_ne!(ConnectionId::new("connection-0"), ConnectionId::new("connection-1"));
    assert!(Height::zero().is_zero());
    assert!(!Height::new(0, 1).is_zero());
    assert!(Height::new(1, 0).is_zero());
    assert!(!Height::new(1, 7).is_zero());
    assert_eq!(Height::new(4, 5), Height { revision_number: 4, revision_height: 5 });
}

#[test]
fn states_are_numbered_in_the_order_of_the_handshake() {
    assert_eq!(State::Uninitialized.number(), 0);
    assert_eq!(State::Init.number(), 1);
    assert_eq!(State::TryOpen.number(), 2);
    assert_eq!(State::Open.number(), 3);
    assert_eq!(State::Closed.number(), 4);
    assert!(State::Init.less_or_equal_progress(State::Open));
    assert!(State::TryOpen.less_or_equal_progress(State::TryOpen));
    assert!(!State::Closed.less_or_equal_progress(State::Open));
    assert!(State::Open.is_open());
    assert!(!State::TryOpen.is_open());
    assert_eq!(ConnectionState::Open.number(), 3);
    assert!(ConnectionState::Init.less_or_equal_progress(ConnectionState::TryOpen));
    assert!(!ConnectionState::Open.less_or_equal_progress(ConnectionState::Uninitialized));
    assert!(ConnectionState::Open.is_open());
    assert_eq!(Order::default(), Order::Unordered);
}

#[test]
fn channel_ends_are_copied_and_compared() {
    let hops = vec![ConnectionId::new("connection-0"), ConnectionId::new("connection-1")];
    assert!(same_hops(&hops, &clone_hops(&hops)));
    assert!(!same_hops(&hops, &vec![ConnectionId::new("connection-0")]));
    assert!(!same_hops(&hops, &vec![ConnectionId::new("connection-0"), ConnectionId::new("connection-2")]));
    assert!(same_hops(&Vec::new(), &Vec::new()));
    let end = ChannelEnd::new(
        State::TryOpen,
        Order::Ordered,
        Counterparty::new(PortId::new("transfer"), Some(ChannelId::new("channel-3"))),
        hops,
        "ics20-1".to_string(),
    );
    assert_eq!(end.clone(), end);
    assert!(end.state_matches(State::TryOpen));
    assert!(!end.is_open());
}

#[test]
fn config_finds_its_chains() {
    let config = Config {
        mode: ModeConfig::all_enabled(),
        chains: vec![
            chain_config("ibc-0", PacketFilter::AllowAll),
            chain_config("ibc-1", PacketFilter::Allow(vec![entry("transfer", "channel-0")])),
            chain_config("ibc-2", PacketFilter::Deny(vec![entry("transfer", "channel-0")])),
            chain_config("ibc-1", PacketFilter::AllowAll),
        ],
    };
    assert!(config.has_chain(&ChainId::new("ibc-2")));
    assert!(!config.has_chain(&ChainId::new("ibc-3")));
    assert_eq!(config.position(&ChainId::new("ibc-1")), Some(1));
    assert_eq!(config.position(&ChainId::new("ibc-9")), None);
    assert_eq!(config.find_chain(&ChainId::new("ibc-1")), Some(&config.chains[1]));
    assert_eq!(config.find_chain(&ChainId::new("ibc-9")), None);
    let transfer = PortId::new("transfer");
    let zero = ChannelId::new("channel-0");
    let one = ChannelId::new("channel-1");
    assert!(config.packets_on_channel_allowed(&ChainId::new("ibc-0"), &transfer, &zero));
    assert!(config.packets_on_channel_allowed(&ChainId::new("ibc-1"), &transfer, &zero));
    assert!(!config.packets_on_channel_allowed(&ChainId::new("ibc-1"), &transfer, &one));
    assert!(!config.packets_on_channel_allowed(&ChainId::new("ibc-1"), &PortId::new("other"), &zero));
    assert!(!config.packets_on_channel_allowed(&ChainId::new("ibc-2"), &transfer, &zero));
    assert!(config.packets_on_channel_allowed(&ChainId::new("ibc-2"), &transfer, &one));
    assert!(!config.packets_on_channel_allowed(&ChainId::new("ibc-9"), &transfer, &zero));
    assert!(config.handshake_enabled());
    let mut removed = config.clone();
    removed.remove_chain(&ChainId::new("ibc-1"));
    assert_eq!(removed.chains, vec![config.chains[0].clone(), config.chains[2].clone()]);
    assert_eq!(removed.mode, config.mode);
    removed.remove_chain(&ChainId::new("ibc-9"));
    assert_eq!(removed.chains.len(), 2);
}

#[test]
fn objects_are_keys() {
    let packet = |src: &str, channel: &str| {
        Object::Packet(object::Packet {
            dst_chain_id: ChainId::new("ibc-1"),
            src_chain_id: ChainId::new(src),
            src_channel_id: ChannelId::new(channel),
            src_port_id: PortId::new("transfer"),
        })
    };
    let channel = Object::Channel(object::Channel {
        dst_chain_id: ChainId::new("ibc-1"),
        src_chain_id: ChainId::new("ibc-0"),
        src_channel_id: ChannelId::new("channel-0"),
        src_port_id: PortId::new("transfer"),
    });
    let client = Object::Client(object::Client {
        dst_client_id: ClientId::new("07-tendermint-0"),
        dst_chain_id: ChainId::new("ibc-1"),
        src_chain_id: ChainId::new("ibc-0"),
    });
    let connection = Object::Connection(object::Connection {
        dst_chain_id: ChainId::new("ibc-1"),
        src_chain_id: ChainId::new("ibc-0"),
        src_connection_id: ConnectionId::new("connection-0"),
    });
    assert_eq!(packet("ibc-0", "channel-0"), packet("ibc-0", "channel-0").clone());
    assert_ne!(packet("ibc-0", "channel-0"), packet("ibc-0", "channel-1"));
    assert_ne!(packet("ibc-0", "channel-0"), packet("ibc-2", "channel-0"));
    assert_ne!(packet("ibc-0", "channel-0"), channel);
    assert_eq!(channel.src_chain_id(), &ChainId::new("ibc-0"));
    assert_eq!(client.dst_chain_id(), &ChainId::new("ibc-1"));
    assert!(client.for_chain(&ChainId::new("ibc-0")));
    assert!(!client.for_chain(&ChainId::new("ibc-1")));
    assert!(!client.notify_new_block(&ChainId::new("ibc-0")));
    assert!(channel.notify_new_block(&ChainId::new("ibc-0")));
    assert!(connection.notify_new_block(&ChainId::new("ibc-0")));
    assert!(!packet("ibc-0", "channel-0").notify_new_block(&ChainId::new("ibc-1")));
    assert_eq!(client.short_name(), "client::ibc-0->ibc-1:07-tendermint-0");
    assert_eq!(connection.short_name(), "connection::connection-0:ibc-0->ibc-1");
    assert_eq!(channel.short_name(), "channel::channel-0/transfer:ibc-0->ibc-1");
    assert_eq!(packet("ibc-0", "channel-0").short_name(), "packet::channel-0/transfer:ibc-0->ibc-1");
}

#[test]
fn events_hand_out_their_attributes() {
    let attributes = ChannelAttributes {
        height: Height::new(0, 1),
        port_id: PortId::new("transfer"),
        channel_id: None,
        connection_id: ConnectionId::new("connection-0"),
        counterparty_port_id: PortId::new("transfer"),
        counterparty_channel_id: None,
    };
    let connection = ConnectionAttributes {
        height: Height::new(0, 1),
        connection_id: None,
        client_id: ClientId::new("07-tendermint-0"),
        counterparty_connection_id: None,
        counterparty_client_id: ClientId::new("07-tendermint-1"),
    };
    let event = IbcEvent::OpenConfirmChannel(attributes.clone());
    assert_eq!(event.channel_attributes(), Some(&attributes));
    assert_eq!(event.connection_attributes(), None);
    assert_eq!(event.clone(), event);
    assert_eq!(IbcEvent::OpenInitChannel(attributes.clone()).channel_attributes(), Some(&attributes));
    assert_eq!(IbcEvent::OpenTryChannel(attributes.clone()).channel_attributes(), Some(&attributes));
    assert_eq!(IbcEvent::OpenAckChannel(attributes.clone()).channel_attributes(), Some(&attributes));
    assert_eq!(IbcEvent::CloseInitChannel(attributes.clone()).channel_attributes(), None);
    assert_eq!(IbcEvent::CloseConfirmChannel(attributes.clone()).channel_attributes(), None);
    let event = IbcEvent::OpenConfirmConnection(connection.clone());
    assert_eq!(event.connection_attributes(), Some(&connection));
    assert_eq!(event.channel_attributes(), None);
    let event = IbcEvent::NewBlock(NewBlock { height: Height::new(0, 1) });
    assert_eq!(event.channel_attributes(), None);
    assert_eq!(event.connection_attributes(), None);
}

#[test]
fn channel_end_rests_on_its_first_connection() {
    let port = PortId::new("transfer");
    let channel = ChannelId::new("channel-0");
    let chain = || ChainId::new("ibc-0");
    let end = |state: State, hops: Vec<ConnectionId>| {
        ChannelEnd::new(state, Order::Unordered, Counterparty::new(PortId::new("transfer"), None), hops, String::new())
    };
    let hops = vec![ConnectionId::new("connection-4"), ConnectionId::new("connection-5")];
    assert_eq!(
        connection_of_channel(&end(State::Init, hops.clone()), &port, &channel, chain()),
        Ok(ConnectionId::new("connection-4"))
    );
    assert_eq!(
        connection_of_channel(&end(State::Uninitialized, hops), &port, &channel, chain()),
        Err(Error::ChannelUninitialized(port.clone(), channel.clone(), chain()))
    );
    assert_eq!(
        connection_of_channel(&end(State::Open, Vec::new()), &port, &channel, chain()),
        Err(Error::MissingConnectionHops(channel.clone(), chain()))
    );
}
