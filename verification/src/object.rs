//! The objects that the relayer relays on. An object is the key under which
//! its worker is kept.

use crate::chain::counterparty::channel_connection_client;
use crate::chain::counterparty::counterparty_chain_from_channel;
use crate::chain::counterparty::counterparty_chain_from_connection;
use crate::chain::counterparty::is_chain_behind;
use crate::chain::counterparty::is_chain_behind_channel;
use crate::chain::counterparty::is_chain_resolution;
use crate::chain::counterparty::is_channel_resolution;
use crate::chain::counterparty::is_found_under;
use crate::chain::counterparty::ChannelConnectionClient;
use crate::chain::state::ClientState;
use crate::chain::handle::ChainHandle;
use crate::error::Error as RelayerError;
use crate::event::ChannelAttributes;
use crate::event::ClientAttributes;
use crate::event::ConnectionAttributes;
use crate::event::PacketEvent;
use crate::event::WriteAcknowledgement;
use crate::identifier::ChainId;
use crate::identifier::ChannelId;
use crate::identifier::ClientId;
use crate::identifier::ConnectionId;
use crate::identifier::Height;
use crate::identifier::PortId;
use crate::supervisor::error::Error as SupervisorError;
use vstd::prelude::*;
use vstd::std_specs::cmp::PartialEqSpecImpl;
use vstd::string::StringExecFns;

verus! {

/// The light client `dst_client_id` on `dst_chain_id`, which follows
/// `src_chain_id`.
#[derive(Debug, PartialEq, Eq)]
pub struct Client {
    pub dst_client_id: ClientId,
    pub dst_chain_id: ChainId,
    pub src_chain_id: ChainId,
}

/// The connection end `src_connection_id` on `src_chain_id`, whose other end
/// is on `dst_chain_id`.
#[derive(Debug, PartialEq, Eq)]
pub struct Connection {
    pub dst_chain_id: ChainId,
    pub src_chain_id: ChainId,
    pub src_connection_id: ConnectionId,
}

/// The channel end `(src_port_id, src_channel_id)` on `src_chain_id`, whose
/// other end is on `dst_chain_id`: the handshake of the channel.
#[derive(Debug, PartialEq, Eq)]
pub struct Channel {
    pub dst_chain_id: ChainId,
    pub src_chain_id: ChainId,
    pub src_channel_id: ChannelId,
    pub src_port_id: PortId,
}

/// The packets sent from the channel end `(src_port_id, src_channel_id)` on
/// `src_chain_id` to `dst_chain_id`.
#[derive(Debug, PartialEq, Eq)]
pub struct Packet {
    pub dst_chain_id: ChainId,
    pub src_chain_id: ChainId,
    pub src_channel_id: ChannelId,
    pub src_port_id: PortId,
}

#[derive(Debug)]
pub enum Object {
    Client(Client),
    Connection(Connection),
    Channel(Channel),
    Packet(Packet),
}

/// An object by what its identifiers spell.
pub enum ObjectView {
    Client { dst_client_id: Seq<char>, dst_chain_id: Seq<char>, src_chain_id: Seq<char> },
    Connection { dst_chain_id: Seq<char>, src_chain_id: Seq<char>, src_connection_id: Seq<char> },
    Channel {
        dst_chain_id: Seq<char>,
        src_chain_id: Seq<char>,
        src_channel_id: Seq<char>,
        src_port_id: Seq<char>,
    },
    Packet {
        dst_chain_id: Seq<char>,
        src_chain_id: Seq<char>,
        src_channel_id: Seq<char>,
        src_port_id: Seq<char>,
    },
}

impl ObjectView {
    pub open spec fn src_chain_id(self) -> Seq<char> {
        match self {
            ObjectView::Client { src_chain_id, .. } => src_chain_id,
            ObjectView::Connection { src_chain_id, .. } => src_chain_id,
            ObjectView::Channel { src_chain_id, .. } => src_chain_id,
            ObjectView::Packet { src_chain_id, .. } => src_chain_id,
        }
    }

    pub open spec fn dst_chain_id(self) -> Seq<char> {
        match self {
            ObjectView::Client { dst_chain_id, .. } => dst_chain_id,
            ObjectView::Connection { dst_chain_id, .. } => dst_chain_id,
            ObjectView::Channel { dst_chain_id, .. } => dst_chain_id,
            ObjectView::Packet { dst_chain_id, .. } => dst_chain_id,
        }
    }
}

impl ObjectView {
    /// The kind of the object, then what names it on its source chain, then
    /// the two chains.
    pub open spec fn short_name(self) -> Seq<char> {
        match self {
            ObjectView::Client { dst_client_id, dst_chain_id, src_chain_id } => "client::"@
                + src_chain_id + "->"@ + dst_chain_id + ":"@ + dst_client_id,
            ObjectView::Connection { dst_chain_id, src_chain_id, src_connection_id } =>
                "connection::"@ + src_connection_id + ":"@ + src_chain_id + "->"@ + dst_chain_id,
            ObjectView::Channel { dst_chain_id, src_chain_id, src_channel_id, src_port_id } =>
                "channel::"@ + src_channel_id + "/"@ + src_port_id + ":"@ + src_chain_id + "->"@
                    + dst_chain_id,
            ObjectView::Packet { dst_chain_id, src_chain_id, src_channel_id, src_port_id } =>
                "packet::"@ + src_channel_id + "/"@ + src_port_id + ":"@ + src_chain_id + "->"@
                    + dst_chain_id,
        }
    }
}

impl View for Object {
    type V = ObjectView;

    open spec fn view(&self) -> ObjectView {
        match *self {
            Object::Client(c) => ObjectView::Client {
                dst_client_id: c.dst_client_id@,
                dst_chain_id: c.dst_chain_id@,
                src_chain_id: c.src_chain_id@,
            },
            Object::Connection(c) => ObjectView::Connection {
                dst_chain_id: c.dst_chain_id@,
                src_chain_id: c.src_chain_id@,
                src_connection_id: c.src_connection_id@,
            },
            Object::Channel(c) => ObjectView::Channel {
                dst_chain_id: c.dst_chain_id@,
                src_chain_id: c.src_chain_id@,
                src_channel_id: c.src_channel_id@,
                src_port_id: c.src_port_id@,
            },
            Object::Packet(p) => ObjectView::Packet {
                dst_chain_id: p.dst_chain_id@,
                src_chain_id: p.src_chain_id@,
                src_channel_id: p.src_channel_id@,
                src_port_id: p.src_port_id@,
            },
        }
    }
}

impl DeepView for Object {
    type V = ObjectView;

    open spec fn deep_view(&self) -> ObjectView {
        self@
    }
}

impl Clone for Client {
    fn clone(&self) -> (r: Self)
        ensures
            r == *self,
    {
        Client {
            dst_client_id: self.dst_client_id.clone(),
            dst_chain_id: self.dst_chain_id.clone(),
            src_chain_id: self.src_chain_id.clone(),
        }
    }
}

impl Clone for Connection {
    fn clone(&self) -> (r: Self)
        ensures
            r == *self,
    {
        Connection {
            dst_chain_id: self.dst_chain_id.clone(),
            src_chain_id: self.src_chain_id.clone(),
            src_connection_id: self.src_connection_id.clone(),
        }
    }
}

impl Clone for Channel {
    fn clone(&self) -> (r: Self)
        ensures
            r == *self,
    {
        Channel {
            dst_chain_id: self.dst_chain_id.clone(),
            src_chain_id: self.src_chain_id.clone(),
            src_channel_id: self.src_channel_id.clone(),
            src_port_id: self.src_port_id.clone(),
        }
    }
}

impl Clone for Packet {
    fn clone(&self) -> (r: Self)
        ensures
            r == *self,
    {
        Packet {
            dst_chain_id: self.dst_chain_id.clone(),
            src_chain_id: self.src_chain_id.clone(),
            src_channel_id: self.src_channel_id.clone(),
            src_port_id: self.src_port_id.clone(),
        }
    }
}

impl Clone for Object {
    fn clone(&self) -> (r: Self)
        ensures
            r == *self,
    {
        match self {
            Object::Client(c) => Object::Client(c.clone()),
            Object::Connection(c) => Object::Connection(c.clone()),
            Object::Channel(c) => Object::Channel(c.clone()),
            Object::Packet(p) => Object::Packet(p.clone()),
        }
    }
}

impl PartialEq for Object {
    fn eq(&self, other: &Self) -> (r: bool) {
        match (self, other) {
            (Object::Client(a), Object::Client(b)) => a.dst_client_id == b.dst_client_id
                && a.dst_chain_id == b.dst_chain_id && a.src_chain_id == b.src_chain_id,
            (Object::Connection(a), Object::Connection(b)) => a.dst_chain_id == b.dst_chain_id
                && a.src_chain_id == b.src_chain_id && a.src_connection_id == b.src_connection_id,
            (Object::Channel(a), Object::Channel(b)) => a.dst_chain_id == b.dst_chain_id
                && a.src_chain_id == b.src_chain_id && a.src_channel_id == b.src_channel_id
                && a.src_port_id == b.src_port_id,
            (Object::Packet(a), Object::Packet(b)) => a.dst_chain_id == b.dst_chain_id
                && a.src_chain_id == b.src_chain_id && a.src_channel_id == b.src_channel_id
                && a.src_port_id == b.src_port_id,
            _ => false,
        }
    }
}

impl Eq for Object {
}

impl PartialEqSpecImpl for Object {
    open spec fn obeys_eq_spec() -> bool {
        true
    }

    open spec fn eq_spec(&self, other: &Self) -> bool {
        self@ == other@
    }
}

/// Why an event names no object.
#[derive(Debug, PartialEq, Eq)]
pub enum ObjectError {
    /// The event names no channel.
    MissingChannelId,
    /// The event names no connection.
    MissingConnectionId,
    /// The chain did not answer.
    Relayer(RelayerError),
    /// The other side could not be resolved.
    Supervisor(SupervisorError),
}

impl Object {
    /// The chain that the object's events come from.
    pub fn src_chain_id(&self) -> (r: &ChainId)
        ensures
            r@ == self@.src_chain_id(),
    {
        match self {
            Object::Client(c) => &c.src_chain_id,
            Object::Connection(c) => &c.src_chain_id,
            Object::Channel(c) => &c.src_chain_id,
            Object::Packet(p) => &p.src_chain_id,
        }
    }

    /// The chain that the object's worker submits to.
    pub fn dst_chain_id(&self) -> (r: &ChainId)
        ensures
            r@ == self@.dst_chain_id(),
    {
        match self {
            Object::Client(c) => &c.dst_chain_id,
            Object::Connection(c) => &c.dst_chain_id,
            Object::Channel(c) => &c.dst_chain_id,
            Object::Packet(p) => &p.dst_chain_id,
        }
    }

    /// Whether the object's source is the chain `chain_id`.
    pub fn for_chain(&self, chain_id: &ChainId) -> (r: bool)
        ensures
            r == (self@.src_chain_id() == chain_id@),
    {
        *self.src_chain_id() == *chain_id
    }

    /// Whether the object's worker is told of the new blocks of `src_chain_id`:
    /// every worker but a client's, where that chain is the object's source.
    pub fn notify_new_block(&self, src_chain_id: &ChainId) -> (r: bool)
        ensures
            r == (!(self is Client) && self@.src_chain_id() == src_chain_id@),
    {
        match self {
            Object::Client(_) => false,
            Object::Connection(c) => c.src_chain_id == *src_chain_id,
            Object::Channel(c) => c.src_chain_id == *src_chain_id,
            Object::Packet(p) => p.src_chain_id == *src_chain_id,
        }
    }

    /// A short name of the object, for logs.
    pub fn short_name(&self) -> (r: String)
        ensures
            r@ == self@.short_name(),
    {
        match self {
            Object::Client(c) => {
                let mut s = "client::".to_owned();
                s.append(c.src_chain_id.as_str());
                s.append("->");
                s.append(c.dst_chain_id.as_str());
                s.append(":");
                s.append(c.dst_client_id.as_str());
                s
            },
            Object::Connection(c) => {
                let mut s = "connection::".to_owned();
                s.append(c.src_connection_id.as_str());
                s.append(":");
                s.append(c.src_chain_id.as_str());
                s.append("->");
                s.append(c.dst_chain_id.as_str());
                s
            },
            Object::Channel(c) => {
                let mut s = "channel::".to_owned();
                s.append(c.src_channel_id.as_str());
                s.append("/");
                s.append(c.src_port_id.as_str());
                s.append(":");
                s.append(c.src_chain_id.as_str());
                s.append("->");
                s.append(c.dst_chain_id.as_str());
                s
            },
            Object::Packet(p) => {
                let mut s = "packet::".to_owned();
                s.append(p.src_channel_id.as_str());
                s.append("/");
                s.append(p.src_port_id.as_str());
                s.append(":");
                s.append(p.src_chain_id.as_str());
                s.append("->");
                s.append(p.dst_chain_id.as_str());
                s
            },
        }
    }
}

/// The object of the packets of the channel end `(port, channel)` of the
/// chain `chain_id`, by how the chain at its other end resolved: the packets
/// towards that chain, or the failure to resolve it.
pub open spec fn packet_made(
    resolved: Result<ChainId, SupervisorError>,
    chain_id: ChainId,
    port: PortId,
    channel: ChannelId,
) -> Result<Object, ObjectError> {
    match resolved {
        Ok(dst) => Ok(
            Object::Packet(
                Packet {
                    dst_chain_id: dst,
                    src_chain_id: chain_id,
                    src_channel_id: channel,
                    src_port_id: port,
                },
            ),
        ),
        Err(e) => Err(ObjectError::Supervisor(e)),
    }
}

/// Whether `r` is the object of the packets of the channel end
/// `(port, channel)` of `chain`, which calls itself `chain_id`, as `chain`
/// answers: see `is_chain_resolution` and `packet_made`.
pub open spec fn is_packet_made<C: ChainHandle>(
    chain: &C,
    chain_id: ChainId,
    port: PortId,
    channel: ChannelId,
    r: Result<Object, ObjectError>,
) -> bool {
    exists|resolved: Result<ChainId, SupervisorError>| #[trigger]
        is_chain_resolution(chain, port, channel, resolved) && r == packet_made(
            resolved,
            chain_id,
            port,
            channel,
        )
}

/// The object of the channel end `(port, channel)` of the chain `chain_id`,
/// by how the chain at its other end resolved.
pub open spec fn channel_made(
    resolved: Result<ChainId, SupervisorError>,
    chain_id: ChainId,
    port: PortId,
    channel: ChannelId,
) -> Result<Object, ObjectError> {
    match resolved {
        Ok(dst) => Ok(
            Object::Channel(
                Channel {
                    dst_chain_id: dst,
                    src_chain_id: chain_id,
                    src_channel_id: channel,
                    src_port_id: port,
                },
            ),
        ),
        Err(e) => Err(ObjectError::Supervisor(e)),
    }
}

/// Whether `r` is the object of the channel end `(port, channel)` of
/// `chain`, which calls itself `chain_id`, as `chain` answers.
pub open spec fn is_channel_made<C: ChainHandle>(
    chain: &C,
    chain_id: ChainId,
    port: PortId,
    channel: ChannelId,
    r: Result<Object, ObjectError>,
) -> bool {
    exists|resolved: Result<ChainId, SupervisorError>| #[trigger]
        is_chain_resolution(chain, port, channel, resolved) && r == channel_made(
            resolved,
            chain_id,
            port,
            channel,
        )
}

/// The object of the connection `connection` of the chain `chain_id`, by
/// how the chain at its other end resolved.
pub open spec fn connection_made(
    resolved: Result<ChainId, SupervisorError>,
    chain_id: ChainId,
    connection: ConnectionId,
) -> Result<Object, ObjectError> {
    match resolved {
        Ok(dst) => Ok(
            Object::Connection(
                Connection {
                    dst_chain_id: dst,
                    src_chain_id: chain_id,
                    src_connection_id: connection,
                },
            ),
        ),
        Err(e) => Err(ObjectError::Supervisor(e)),
    }
}

/// Whether `r` is the object of the connection `connection` of `chain`,
/// which calls itself `chain_id`, as `chain` answers: see `is_chain_behind`.
pub open spec fn is_connection_made<C: ChainHandle>(
    chain: &C,
    chain_id: ChainId,
    connection: ConnectionId,
    r: Result<Object, ObjectError>,
) -> bool {
    exists|resolved: Result<ChainId, SupervisorError>| #[trigger]
        is_chain_behind(chain, connection, resolved) && r == connection_made(
            resolved,
            chain_id,
            connection,
        )
}

/// The object of the client that follows the chain `chain_id` on the chain
/// at the other end of a channel, by how the channel end resolved: the
/// client under the other end of its connection.
pub open spec fn client_made(
    resolved: Result<ChannelConnectionClient, SupervisorError>,
    chain_id: ChainId,
) -> Result<Object, ObjectError> {
    match resolved {
        Ok(found) => Ok(
            Object::Client(
                Client {
                    dst_client_id: found.connection.connection_end.counterparty.client_id,
                    dst_chain_id: found.client.client_state.chain_id,
                    src_chain_id: chain_id,
                },
            ),
        ),
        Err(e) => Err(ObjectError::Supervisor(e)),
    }
}

/// Whether `r` is the object of the client that follows `chain`, which
/// calls itself `chain_id`, on the chain at the other end of the channel end
/// `(port, channel)`, as `chain` answers: see `is_channel_resolution`.
pub open spec fn is_client_made<C: ChainHandle>(
    chain: &C,
    chain_id: ChainId,
    port: PortId,
    channel: ChannelId,
    r: Result<Object, ObjectError>,
) -> bool {
    exists|resolved: Result<ChannelConnectionClient, SupervisorError>| #[trigger]
        is_channel_resolution(chain, port, channel, resolved) && r == client_made(
            resolved,
            chain_id,
        )
}

/// The object of the client `client` on the chain `chain_id`, by what the
/// chain answered for the state of the client: the client of the chain that
/// the state names, or the failure of the chain to answer.
pub open spec fn updated_client_made(
    answer: Result<ClientState, RelayerError>,
    chain_id: ChainId,
    client: ClientId,
) -> Result<Object, ObjectError> {
    match answer {
        Ok(state) => Ok(
            Object::Client(
                Client { dst_client_id: client, dst_chain_id: chain_id, src_chain_id: state.chain_id },
            ),
        ),
        Err(e) => Err(ObjectError::Relayer(e)),
    }
}

/// Whether `r` is the object of the client `client` on `chain`, which calls
/// itself `chain_id`, as `chain` answers for the state of the client, at the
/// latest height.
pub open spec fn is_updated_client_made<C: ChainHandle>(
    chain: &C,
    chain_id: ChainId,
    client: ClientId,
    r: Result<Object, ObjectError>,
) -> bool {
    exists|answer: Result<ClientState, RelayerError>| #[trigger]
        call_ensures(C::query_client_state, (chain, &client, Height::zero()), answer) && r
            == updated_client_made(answer, chain_id, client)
}

/// Whether the event about the channel end `e` names no channel, and `r`
/// says so: an event that names no channel names no object.
pub open spec fn names_no_channel(e: ChannelAttributes, r: Result<Object, ObjectError>) -> bool {
    e.channel_id is None && r == Err::<Object, ObjectError>(ObjectError::MissingChannelId)
}

/// The packet object of the channel end `(port_id, channel_id)` of
/// `src_chain`, whose name is `src_chain_id`.
fn packet_of_channel<C: ChainHandle>(
    src_chain: &C,
    src_chain_id: &ChainId,
    port_id: &PortId,
    channel_id: &ChannelId,
) -> (r: Result<Object, ObjectError>)
    ensures
        is_packet_made(src_chain, *src_chain_id, *port_id, *channel_id, r),
        match r {
            Ok(object) => object matches Object::Packet(p) && p.src_chain_id == *src_chain_id
                && p.src_channel_id == *channel_id && p.src_port_id == *port_id
                && is_chain_behind_channel(src_chain, *port_id, *channel_id, p.dst_chain_id),
            Err(e) => e is Supervisor,
        },
{
    match counterparty_chain_from_channel(src_chain, channel_id, port_id) {
        Ok(dst_chain_id) => Ok(
            Object::Packet(
                Packet {
                    dst_chain_id,
                    src_chain_id: src_chain_id.clone(),
                    src_channel_id: channel_id.clone(),
                    src_port_id: port_id.clone(),
                },
            ),
        ),
        Err(e) => Err(ObjectError::Supervisor(e)),
    }
}

impl Object {
    /// The object of an event that says that a client on `dst_chain`, whose
    /// name is `dst_chain_id`, was updated: that client.
    pub fn for_update_client<C: ChainHandle>(
        e: &ClientAttributes,
        dst_chain: &C,
        dst_chain_id: &ChainId,
    ) -> (r: Result<Object, ObjectError>)
        ensures
            is_updated_client_made(dst_chain, *dst_chain_id, e.client_id, r),
            match r {
                Ok(object) => object matches Object::Client(c) && c.dst_client_id == e.client_id
                    && c.dst_chain_id == *dst_chain_id && exists|state: ClientState| #[trigger]
                    call_ensures(
                        C::query_client_state,
                        (dst_chain, &e.client_id, Height::zero()),
                        Ok(state),
                    ) && c.src_chain_id == state.chain_id,
                Err(ObjectError::Relayer(cause)) => call_ensures(
                    C::query_client_state,
                    (dst_chain, &e.client_id, Height::zero()),
                    Err(cause),
                ),
                Err(_) => false,
            },
    {
        match dst_chain.query_client_state(&e.client_id, Height::zero()) {
            Ok(client_state) => Ok(
                Object::Client(
                    Client {
                        dst_client_id: e.client_id.clone(),
                        dst_chain_id: dst_chain_id.clone(),
                        src_chain_id: client_state.chain_id,
                    },
                ),
            ),
            Err(e) => Err(ObjectError::Relayer(e)),
        }
    }

    /// The client object of an event that opens a channel on `chain`, whose
    /// name is `chain_id`: the client on the other chain that follows
    /// `chain`, under the other end of the channel's connection.
    pub fn client_from_chan_open_events<C: ChainHandle>(
        e: &ChannelAttributes,
        chain: &C,
        chain_id: &ChainId,
    ) -> (r: Result<Object, ObjectError>)
        ensures
            e.channel_id is None ==> r matches Err(ObjectError::MissingChannelId),
            match e.channel_id {
                Some(id) => is_client_made(chain, *chain_id, e.port_id, id, r),
                None => names_no_channel(*e, r),
            },
            match r {
                Ok(object) => object matches Object::Client(c) && c.src_chain_id == *chain_id
                    && e.channel_id is Some && exists|found: ChannelConnectionClient|
                    {
                        &&& #[trigger] is_found_under(chain, e.port_id, e.channel_id->0, found)
                        &&& c.dst_client_id
                            == found.connection.connection_end.counterparty.client_id
                        &&& c.dst_chain_id == found.client.client_state.chain_id
                    },
                Err(e) => e is MissingChannelId || e is Supervisor,
            },
    {
        let channel_id = match &e.channel_id {
            Some(id) => id,
            None => {
                return Err(ObjectError::MissingChannelId);
            },
        };
        match channel_connection_client(chain, &e.port_id, channel_id) {
            Ok(found) => {
                assert(is_found_under(chain, e.port_id, e.channel_id->0, found));
                Ok(
                Object::Client(
                    Client {
                        dst_client_id: found.connection.connection_end.counterparty.client_id,
                        dst_chain_id: found.client.client_state.chain_id,
                        src_chain_id: chain_id.clone(),
                    },
                ),
            )
            },
            Err(e) => Err(ObjectError::Supervisor(e)),
        }
    }

    /// The object of an event of the handshake of a connection on
    /// `src_chain`, whose name is `src_chain_id`: that connection end.
    pub fn connection_from_conn_open_events<C: ChainHandle>(
        e: &ConnectionAttributes,
        src_chain: &C,
        src_chain_id: &ChainId,
    ) -> (r: Result<Object, ObjectError>)
        ensures
            e.connection_id is None ==> r matches Err(ObjectError::MissingConnectionId),
            match e.connection_id {
                Some(id) => is_connection_made(src_chain, *src_chain_id, id, r),
                None => r == Err::<Object, ObjectError>(ObjectError::MissingConnectionId),
            },
            match r {
                Ok(object) => object matches Object::Connection(c) && c.src_chain_id
                    == *src_chain_id && e.connection_id == Some(c.src_connection_id)
                    && is_chain_behind(src_chain, c.src_connection_id, Ok(c.dst_chain_id)),
                Err(e) => e is MissingConnectionId || e is Supervisor,
            },
    {
        let connection_id = match &e.connection_id {
            Some(id) => id,
            None => {
                return Err(ObjectError::MissingConnectionId);
            },
        };
        match counterparty_chain_from_connection(src_chain, connection_id) {
            Ok(dst_chain_id) => Ok(
                Object::Connection(
                    Connection {
                        dst_chain_id,
                        src_chain_id: src_chain_id.clone(),
                        src_connection_id: connection_id.clone(),
                    },
                ),
            ),
            Err(e) => Err(ObjectError::Supervisor(e)),
        }
    }

    /// The channel object of an event of the handshake of a channel on
    /// `src_chain`, whose name is `src_chain_id`: that channel end.
    pub fn channel_from_chan_open_events<C: ChainHandle>(
        e: &ChannelAttributes,
        src_chain: &C,
        src_chain_id: &ChainId,
    ) -> (r: Result<Object, ObjectError>)
        ensures
            e.channel_id is None ==> r matches Err(ObjectError::MissingChannelId),
            match e.channel_id {
                Some(id) => is_channel_made(src_chain, *src_chain_id, e.port_id, id, r),
                None => names_no_channel(*e, r),
            },
            match r {
                Ok(object) => object matches Object::Channel(c) && c.src_chain_id == *src_chain_id
                    && e.channel_id == Some(c.src_channel_id) && c.src_port_id == e.port_id
                    && is_chain_behind_channel(
                    src_chain,
                    c.src_port_id,
                    c.src_channel_id,
                    c.dst_chain_id,
                ),
                Err(e) => e is MissingChannelId || e is Supervisor,
            },
    {
        let channel_id = match &e.channel_id {
            Some(id) => id,
            None => {
                return Err(ObjectError::MissingChannelId);
            },
        };
        match counterparty_chain_from_channel(src_chain, channel_id, &e.port_id) {
            Ok(dst_chain_id) => Ok(
                Object::Channel(
                    Channel {
                        dst_chain_id,
                        src_chain_id: src_chain_id.clone(),
                        src_channel_id: channel_id.clone(),
                        src_port_id: e.port_id.clone(),
                    },
                ),
            ),
            Err(e) => Err(ObjectError::Supervisor(e)),
        }
    }

    /// The packet object of an event that opens a channel on `src_chain`,
    /// whose name is `src_chain_id`: the packets sent from that channel end.
    pub fn packet_from_chan_open_events<C: ChainHandle>(
        e: &ChannelAttributes,
        src_chain: &C,
        src_chain_id: &ChainId,
    ) -> (r: Result<Object, ObjectError>)
        ensures
            e.channel_id is None ==> r matches Err(ObjectError::MissingChannelId),
            match e.channel_id {
                Some(id) => is_packet_made(src_chain, *src_chain_id, e.port_id, id, r),
                None => names_no_channel(*e, r),
            },
            match r {
                Ok(object) => object matches Object::Packet(p) && p.src_chain_id == *src_chain_id
                    && e.channel_id == Some(p.src_channel_id) && p.src_port_id == e.port_id
                    && is_chain_behind_channel(
                    src_chain,
                    p.src_port_id,
                    p.src_channel_id,
                    p.dst_chain_id,
                ),
                Err(e) => e is MissingChannelId || e is Supervisor,
            },
    {
        match &e.channel_id {
            Some(channel_id) => packet_of_channel(src_chain, src_chain_id, &e.port_id, channel_id),
            None => Err(ObjectError::MissingChannelId),
        }
    }

    /// The object of a packet sent from `src_chain`, whose name is
    /// `src_chain_id`: the packets of the channel end that sent it.
    pub fn for_send_packet<C: ChainHandle>(
        e: &PacketEvent,
        src_chain: &C,
        src_chain_id: &ChainId,
    ) -> (r: Result<Object, ObjectError>)
        ensures
            is_packet_made(
                src_chain,
                *src_chain_id,
                e.packet.source_port,
                e.packet.source_channel,
                r,
            ),
            match r {
                Ok(object) => object matches Object::Packet(p) && p.src_chain_id == *src_chain_id
                    && p.src_channel_id == e.packet.source_channel && p.src_port_id
                    == e.packet.source_port && is_chain_behind_channel(
                    src_chain,
                    p.src_port_id,
                    p.src_channel_id,
                    p.dst_chain_id,
                ),
                Err(e) => e is Supervisor,
            },
    {
        packet_of_channel(src_chain, src_chain_id, &e.packet.source_port, &e.packet.source_channel)
    }

    /// The object of a packet that timed out on `src_chain`, whose name is
    /// `src_chain_id`: the packets of the channel end that sent it.
    pub fn for_timeout_packet<C: ChainHandle>(
        e: &PacketEvent,
        src_chain: &C,
        src_chain_id: &ChainId,
    ) -> (r: Result<Object, ObjectError>)
        ensures
            is_packet_made(
                src_chain,
                *src_chain_id,
                e.packet.source_port,
                e.packet.source_channel,
                r,
            ),
            match r {
                Ok(object) => object matches Object::Packet(p) && p.src_chain_id == *src_chain_id
                    && p.src_channel_id == e.packet.source_channel && p.src_port_id
                    == e.packet.source_port && is_chain_behind_channel(
                    src_chain,
                    p.src_port_id,
                    p.src_channel_id,
                    p.dst_chain_id,
                ),
                Err(e) => e is Supervisor,
            },
    {
        packet_of_channel(src_chain, src_chain_id, &e.packet.source_port, &e.packet.source_channel)
    }

    /// The object of an acknowledgement written on `src_chain`, whose name is
    /// `src_chain_id`: the packets of the channel end that received the
    /// packet, which sends the acknowledgement back.
    pub fn for_write_ack<C: ChainHandle>(
        e: &WriteAcknowledgement,
        src_chain: &C,
        src_chain_id: &ChainId,
    ) -> (r: Result<Object, ObjectError>)
        ensures
            is_packet_made(
                src_chain,
                *src_chain_id,
                e.packet.destination_port,
                e.packet.destination_channel,
                r,
            ),
            match r {
                Ok(object) => object matches Object::Packet(p) && p.src_chain_id == *src_chain_id
                    && p.src_channel_id == e.packet.destination_channel && p.src_port_id
                    == e.packet.destination_port && is_chain_behind_channel(
                    src_chain,
                    p.src_port_id,
                    p.src_channel_id,
                    p.dst_chain_id,
                ),
                Err(e) => e is Supervisor,
            },
    {
        packet_of_channel(
            src_chain,
            src_chain_id,
            &e.packet.destination_port,
            &e.packet.destination_channel,
        )
    }

    /// The object of the closing of a channel on `src_chain`, whose name is
    /// `src_chain_id`: the packets of that channel end.
    pub fn for_close_init_channel<C: ChainHandle>(
        e: &ChannelAttributes,
        src_chain: &C,
        src_chain_id: &ChainId,
    ) -> (r: Result<Object, ObjectError>)
        ensures
            e.channel_id is None ==> r matches Err(ObjectError::MissingChannelId),
            match e.channel_id {
                Some(id) => is_packet_made(src_chain, *src_chain_id, e.port_id, id, r),
                None => names_no_channel(*e, r),
            },
            match r {
                Ok(object) => object matches Object::Packet(p) && p.src_chain_id == *src_chain_id
                    && e.channel_id == Some(p.src_channel_id) && p.src_port_id == e.port_id
                    && is_chain_behind_channel(
                    src_chain,
                    p.src_port_id,
                    p.src_channel_id,
                    p.dst_chain_id,
                ),
                Err(e) => e is MissingChannelId || e is Supervisor,
            },
    {
        match &e.channel_id {
            Some(channel_id) => packet_of_channel(src_chain, src_chain_id, &e.port_id, channel_id),
            None => Err(ObjectError::MissingChannelId),
        }
    }
}

} // verus!
