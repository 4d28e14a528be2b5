//! The filter on clients: the relayer acts for an object only where the
//! clients under it trust as the rules say.

use crate::chain::handle::ChainHandle;
use crate::chain::state::ClientState;
use crate::chain::state::ConnectionEnd;
use crate::chain::state::TrustThreshold;
use crate::config::Config;
use crate::error::Error as RelayerError;
use crate::identifier::ChainId;
use crate::identifier::ChannelId;
use crate::identifier::ClientId;
use crate::identifier::Height;
use crate::identifier::PortId;
use crate::object::Channel;
use crate::object::Client;
use crate::object::Connection;
use crate::object::Packet;
use crate::chain::state::ChannelEnd;
use crate::identifier::ConnectionId;
use crate::registry::grows_within;
use crate::registry::handles_kept;
use crate::registry::is_handle_of;
use crate::registry::lemma_grows_twice;
use crate::registry::lemma_handle_stays;
use crate::registry::lemma_handles_kept_twice;
use crate::registry::Registry;
use crate::registry::SpawnError;
use vstd::prelude::*;

verus! {

#[derive(Clone, Copy, Debug, PartialEq, Eq, Structural)]
pub enum Permission {
    Allow,
    Deny,
}

impl Permission {
    pub open spec fn spec_and(self, other: Permission) -> Permission {
        if self == Permission::Allow && other == Permission::Allow {
            Permission::Allow
        } else {
            Permission::Deny
        }
    }

    /// Allowed where both are.
    #[verifier::when_used_as_spec(spec_and)]
    pub fn and(self, other: Permission) -> (r: Permission)
        ensures
            r == self.spec_and(other),
    {
        match (self, other) {
            (Permission::Allow, Permission::Allow) => Permission::Allow,
            _ => Permission::Deny,
        }
    }
}

/// Why the filter could not decide.
#[derive(Debug, PartialEq, Eq)]
pub enum FilterError {
    /// No handle for a chain could be had.
    Spawn(SpawnError),
    /// A chain did not answer.
    Relayer(RelayerError),
    /// The channel end names no connection.
    MissingConnectionHops(ChannelId, ChainId),
}

/// What the rules say of a client that trusts as `threshold` says: it is
/// allowed where it trusts one third of the voting power, and denied where
/// it trusts another fraction or states none.
pub open spec fn spec_trust_permission(threshold: Option<TrustThreshold>) -> Permission {
    match threshold {
        Some(t) => if t.numerator == 1 && t.denominator == 3 {
            Permission::Allow
        } else {
            Permission::Deny
        },
        None => Permission::Deny,
    }
}

pub fn trust_permission(threshold: Option<TrustThreshold>) -> (r: Permission)
    ensures
        r == spec_trust_permission(threshold),
{
    match threshold {
        Some(t) => if t.numerator == 1 && t.denominator == 3 {
            Permission::Allow
        } else {
            Permission::Deny
        },
        None => Permission::Deny,
    }
}

/// A client by the names of its chain and of itself.
pub type ClientKey = (Seq<char>, Seq<char>);

/// What was decided of the clients met so far. A decision, once taken, stays.
pub struct FilterPolicy {
    chains: Vec<ChainId>,
    clients: Vec<ClientId>,
    permissions: Vec<Permission>,
}

impl FilterPolicy {
    /// Each decision has its client, and no client has two decisions. This
    /// holds of every policy that `default` made, after any calls.
    pub closed spec fn wf(&self) -> bool {
        &&& self.chains@.len() == self.clients@.len()
        &&& self.chains@.len() == self.permissions@.len()
        &&& forall|i: int, j: int|
            0 <= i < j < self.chains@.len() ==> !(self.chains@[i]@ == self.chains@[j]@
                && self.clients@[i]@ == self.clients@[j]@)
    }

    /// The decisions taken so far, by client.
    pub closed spec fn cache(&self) -> Map<ClientKey, Permission> {
        Map::new(
            |key: ClientKey|
                exists|i: int|
                    0 <= i < self.chains@.len() && self.chains@[i]@ == key.0
                        && #[trigger] self.clients@[i]@ == key.1,
            |key: ClientKey|
                self.permissions@[choose|i: int|
                    0 <= i < self.chains@.len() && self.chains@[i]@ == key.0
                        && #[trigger] self.clients@[i]@ == key.1],
        )
    }

    fn position(&self, chain_id: &ChainId, client_id: &ClientId) -> (r: Option<usize>)
        requires
            self.wf(),
        ensures
            match r {
                Some(i) => i < self.chains@.len() && self.cache().contains_key(
                    (chain_id@, client_id@),
                ) && self.cache()[(chain_id@, client_id@)] == self.permissions@[i as int],
                None => !self.cache().contains_key((chain_id@, client_id@)),
            },
    {
        let mut i: usize = 0;
        while i < self.chains.len()
            invariant
                i <= self.chains.len(),
                self.wf(),
                forall|j: int|
                    0 <= j < i ==> !(self.chains@[j]@ == chain_id@ && #[trigger] self.clients@[j]@
                        == client_id@),
            decreases self.chains.len() - i,
        {
            if self.chains[i] == *chain_id && self.clients[i] == *client_id {
                proof {
                    let key = (chain_id@, client_id@);
                    assert(self.chains@[i as int]@ == key.0 && self.clients@[i as int]@ == key.1);
                    let k = choose|k: int|
                        0 <= k < self.chains@.len() && self.chains@[k]@ == key.0
                            && #[trigger] self.clients@[k]@ == key.1;
                    assert(k == i) by {
                        if k < i {
                            assert(!(self.chains@[k]@ == self.chains@[i as int]@ && self.clients@[k]@
                                == self.clients@[i as int]@));
                        }
                        if i < k {
                            assert(!(self.chains@[i as int]@ == self.chains@[k]@
                                && self.clients@[i as int]@ == self.clients@[k]@));
                        }
                    }
                }
                return Some(i);
            }
            i = i + 1;
        }
        None
    }

    /// Whether the client is allowed, as decided before or as the rules say
    /// of `state`; the decision is kept.
    ///
    /// A client that was decided of before gets the same decision again,
    /// whatever `state` says. No other decision changes.
    pub fn control_client(&mut self, host_chain: &ChainId, client_id: &ClientId, state: &ClientState) -> (r:
        Permission)
        requires
            old(self).wf(),
        ensures
            final(self).wf(),
            r == if old(self).cache().contains_key((host_chain@, client_id@)) {
                old(self).cache()[(host_chain@, client_id@)]
            } else {
                spec_trust_permission(state.trust_threshold)
            },
            final(self).cache() == old(self).cache().insert((host_chain@, client_id@), r),
    {
        match self.position(host_chain, client_id) {
            Some(i) => {
                let r = self.permissions[i];
                assert(self.cache() =~= self.cache().insert((host_chain@, client_id@), r));
                r
            },
            None => {
                let permission = trust_permission(state.trust_threshold);
                let ghost before = *self;
                self.chains.push(host_chain.clone());
                self.clients.push(client_id.clone());
                self.permissions.push(permission);
                proof {
                    let key = (host_chain@, client_id@);
                    let n = before.chains@.len() as int;
                    assert forall|i: int, j: int| 0 <= i < j < self.chains@.len() implies !(
                    self.chains@[i]@ == self.chains@[j]@ && self.clients@[i]@
                        == self.clients@[j]@) by {
                        if j == n {
                            if self.chains@[i]@ == key.0 && self.clients@[i]@ == key.1 {
                                assert(before.chains@[i]@ == key.0 && before.clients@[i]@ == key.1);
                                assert(before.cache().contains_key(key));
                            }
                        } else {
                            assert(!(before.chains@[i]@ == before.chains@[j]@ && before.clients@[i]@
                                == before.clients@[j]@));
                        }
                    }
                    assert forall|k: ClientKey| #[trigger]
                        self.cache().contains_key(k) == before.cache().insert(
                            key,
                            permission,
                        ).contains_key(k) by {
                        if before.cache().contains_key(k) {
                            let i = choose|i: int|
                                0 <= i < before.chains@.len() && before.chains@[i]@ == k.0
                                    && #[trigger] before.clients@[i]@ == k.1;
                            assert(self.chains@[i]@ == k.0 && self.clients@[i]@ == k.1);
                        }
                        if k == key {
                            assert(self.chains@[n]@ == k.0 && self.clients@[n]@ == k.1);
                        }
                        if self.cache().contains_key(k) {
                            let i = choose|i: int|
                                0 <= i < self.chains@.len() && self.chains@[i]@ == k.0
                                    && #[trigger] self.clients@[i]@ == k.1;
                            if i < n {
                                assert(before.chains@[i]@ == k.0 && before.clients@[i]@ == k.1);
                            }
                        }
                    }
                    assert forall|k: ClientKey| #[trigger]
                        self.cache().contains_key(k) implies self.cache()[k] == before.cache().insert(
                        key,
                        permission,
                    )[k] by {
                        let i = choose|i: int|
                            0 <= i < self.chains@.len() && self.chains@[i]@ == k.0
                                && #[trigger] self.clients@[i]@ == k.1;
                        if k == key {
                            assert(self.chains@[n]@ == k.0 && self.clients@[n]@ == k.1);
                            if i < n {
                                assert(!(self.chains@[i]@ == self.chains@[n]@ && self.clients@[i]@
                                    == self.clients@[n]@));
                            }
                        } else {
                            assert(i < n);
                            let j = choose|j: int|
                                0 <= j < before.chains@.len() && before.chains@[j]@ == k.0
                                    && #[trigger] before.clients@[j]@ == k.1;
                            assert(before.chains@[i]@ == k.0 && before.clients@[i]@ == k.1);
                            if i < j {
                                assert(!(before.chains@[i]@ == before.chains@[j]@
                                    && before.clients@[i]@ == before.clients@[j]@));
                            }
                            if j < i {
                                assert(!(before.chains@[j]@ == before.chains@[i]@
                                    && before.clients@[j]@ == before.clients@[i]@));
                            }
                        }
                    }
                    assert(self.cache() =~= before.cache().insert(key, permission));
                }
                permission
            },
        }
    }
}

impl Default for FilterPolicy {
    fn default() -> (r: Self)
        ensures
            r.wf(),
            r.cache() == Map::<ClientKey, Permission>::empty(),
    {
        let r = FilterPolicy { chains: Vec::new(), clients: Vec::new(), permissions: Vec::new() };
        assert(r.cache() =~= Map::<ClientKey, Permission>::empty());
        r
    }
}

/// Whether `state` is what the chain `chain` answered for the state of its
/// client `client`, at the latest height: a clone of the handle held for the
/// chain, one of `handles`, each under its name in `ids`, was asked.
pub open spec fn is_client_state_on<Chain: ChainHandle>(
    ids: Seq<Seq<char>>,
    handles: Seq<Chain>,
    chain: Seq<char>,
    client: ClientId,
    state: ClientState,
) -> bool {
    exists|handle: Chain|
        is_handle_of(ids, handles, chain, handle) && #[trigger] call_ensures(
            Chain::query_client_state,
            (&handle, &client, Height::zero()),
            Ok(state),
        )
}

/// Whether `end` is what the chain `chain` answered for its connection
/// `connection`, at the latest height.
pub open spec fn is_connection_on<Chain: ChainHandle>(
    ids: Seq<Seq<char>>,
    handles: Seq<Chain>,
    chain: Seq<char>,
    connection: ConnectionId,
    end: ConnectionEnd,
) -> bool {
    exists|handle: Chain|
        is_handle_of(ids, handles, chain, handle) && #[trigger] call_ensures(
            Chain::query_connection,
            (&handle, &connection, Height::zero()),
            Ok(end),
        )
}

/// Whether `end` is what the chain `chain` answered for its channel end
/// `(port, channel)`, at the latest height.
pub open spec fn is_channel_on<Chain: ChainHandle>(
    ids: Seq<Seq<char>>,
    handles: Seq<Chain>,
    chain: Seq<char>,
    port: PortId,
    channel: ChannelId,
    end: ChannelEnd,
) -> bool {
    exists|handle: Chain|
        is_handle_of(ids, handles, chain, handle) && #[trigger] call_ensures(
            Chain::query_channel,
            (&handle, &port, &channel, Height::zero()),
            Ok(end),
        )
}

/// What is decided of the client `key` whose state is `state`, with the
/// decisions `cache` taken before: the decision taken before where there is
/// one, else what the rules say of the state.
pub open spec fn decided(
    cache: Map<ClientKey, Permission>,
    key: ClientKey,
    state: ClientState,
) -> Permission {
    if cache.contains_key(key) {
        cache[key]
    } else {
        spec_trust_permission(state.trust_threshold)
    }
}

/// Whether `p` and the decisions `after` are what comes of deciding, with
/// the decisions `before`, of the connection end `connection` on `chain`:
/// first of its client, whose state is `state`, then of the client under its
/// other end, on the chain that `state` names, whose state is `other`. The
/// relayer acts where both are allowed, and both decisions are kept.
pub open spec fn is_connection_verdict(
    before: Map<ClientKey, Permission>,
    after: Map<ClientKey, Permission>,
    chain: Seq<char>,
    state: ClientState,
    connection: ConnectionEnd,
    other: ClientState,
    p: Permission,
) -> bool {
    let here = (chain, connection.client_id@);
    let there = (state.chain_id@, connection.counterparty.client_id@);
    let first = decided(before, here, state);
    let between = before.insert(here, first);
    let second = decided(between, there, other);
    p == first.spec_and(second) && after == between.insert(there, second)
}

/// Whether `p` and the decisions `after` are what comes of deciding of the
/// connection `connection` of `chain`: the chain answered for the connection
/// and for the state of its client, the chain that the state names answered
/// for the state of the client under the other end, and the verdict is as
/// `is_connection_verdict` says.
pub open spec fn is_connection_controlled<Chain: ChainHandle>(
    ids: Seq<Seq<char>>,
    handles: Seq<Chain>,
    before: Map<ClientKey, Permission>,
    after: Map<ClientKey, Permission>,
    chain: Seq<char>,
    connection: ConnectionId,
    p: Permission,
) -> bool {
    exists|end: ConnectionEnd, state: ClientState, other: ClientState|
        {
            &&& is_connection_on(ids, handles, chain, connection, end)
            &&& is_client_state_on(ids, handles, chain, end.client_id, state)
            &&& is_client_state_on(
                ids,
                handles,
                state.chain_id@,
                end.counterparty.client_id,
                other,
            )
            &&& #[trigger] is_connection_verdict(before, after, chain, state, end, other, p)
        }
}

/// Whether `p` and the decisions `after` are what comes of deciding of the
/// channel end `(port, channel)` of `chain`: the chain answered for the end,
/// and the first connection that the end names was decided of as
/// `is_connection_controlled` says.
pub open spec fn is_channel_controlled<Chain: ChainHandle>(
    ids: Seq<Seq<char>>,
    handles: Seq<Chain>,
    before: Map<ClientKey, Permission>,
    after: Map<ClientKey, Permission>,
    chain: Seq<char>,
    port: PortId,
    channel: ChannelId,
    p: Permission,
) -> bool {
    exists|end: ChannelEnd|
        {
            &&& #[trigger] is_channel_on(ids, handles, chain, port, channel, end)
            &&& end.connection_hops@.len() > 0
            &&& is_connection_controlled(
                ids,
                handles,
                before,
                after,
                chain,
                end.connection_hops@[0],
                p,
            )
        }
}

/// Whether every decision of `before` stands in `after`.
pub open spec fn cache_extends(
    before: Map<ClientKey, Permission>,
    after: Map<ClientKey, Permission>,
) -> bool {
    forall|key: ClientKey| #[trigger]
        before.contains_key(key) ==> after.contains_key(key) && after[key] == before[key]
}

/// Decisions that stand after each of two steps stand after both.
pub proof fn lemma_cache_extends_twice(
    first: Map<ClientKey, Permission>,
    second: Map<ClientKey, Permission>,
    third: Map<ClientKey, Permission>,
)
    requires
        cache_extends(first, second),
        cache_extends(second, third),
    ensures
        cache_extends(first, third),
{
    assert forall|key: ClientKey| #[trigger] first.contains_key(key) implies third.contains_key(key)
        && third[key] == first[key] by {
        assert(second.contains_key(key));
    }
}

impl FilterPolicy {
    /// Whether the relayer acts for the client `obj`.
    ///
    /// A client that was decided of before gets the same decision, and no
    /// chain is asked. Else the chain that hosts the client is asked for the
    /// client's state, and the rules decide.
    pub fn control_client_object<Chain: ChainHandle>(
        &mut self,
        registry: &mut Registry<Chain>,
        config: &Config,
        obj: &Client,
    ) -> (r: Result<Permission, FilterError>)
        requires
            old(self).wf(),
            old(registry).wf(),
        ensures
            final(self).wf(),
            final(registry).wf(),
            cache_extends(old(self).cache(), final(self).cache()),
            grows_within(old(registry).ids(), final(registry).ids(), config.chain_ids()),
            old(self).cache().contains_key((obj.dst_chain_id@, obj.dst_client_id@)) ==> {
                &&& r == Ok::<Permission, FilterError>(
                    old(self).cache()[(obj.dst_chain_id@, obj.dst_client_id@)],
                )
                &&& final(self).cache() == old(self).cache()
                &&& final(registry).ids() == old(registry).ids()
            },
            r matches Ok(p) ==> final(self).cache().contains_key(
                (obj.dst_chain_id@, obj.dst_client_id@),
            ) && final(self).cache()[(obj.dst_chain_id@, obj.dst_client_id@)] == p,
            r is Ok && !old(self).cache().contains_key((obj.dst_chain_id@, obj.dst_client_id@))
                ==> exists|state: ClientState|
                {
                    &&& #[trigger] is_client_state_on(
                        final(registry).ids(),
                        final(registry).handles(),
                        obj.dst_chain_id@,
                        obj.dst_client_id,
                        state,
                    )
                    &&& r->Ok_0 == spec_trust_permission(state.trust_threshold)
                    &&& final(self).cache() == old(self).cache().insert(
                        (obj.dst_chain_id@, obj.dst_client_id@),
                        r->Ok_0,
                    )
                },
            handles_kept(old(registry).handles(), final(registry).handles()),
            r matches Err(e) ==> (e is Spawn || e is Relayer) && final(self).cache() == old(self).cache(),
    {
        assert(registry.ids().take(registry.ids().len() as int) =~= registry.ids());
        assert(registry.handles().take(registry.handles().len() as int) =~= registry.handles());
        match self.position(&obj.dst_chain_id, &obj.dst_client_id) {
            Some(i) => {
                return Ok(self.permissions[i]);
            },
            None => {},
        }
        let chain = match registry.get_or_spawn(config, &obj.dst_chain_id) {
            Ok(chain) => chain,
            Err(e) => {
                return Err(FilterError::Spawn(e));
            },
        };
        let client_state = match chain.query_client_state(&obj.dst_client_id, Height::zero()) {
            Ok(state) => state,
            Err(e) => {
                return Err(FilterError::Relayer(e));
            },
        };
        assert(is_client_state_on(
            registry.ids(),
            registry.handles(),
            obj.dst_chain_id@,
            obj.dst_client_id,
            client_state,
        ));
        Ok(self.control_client(&obj.dst_chain_id, &obj.dst_client_id, &client_state))
    }

    /// Whether the relayer acts for a connection end on `chain_id` whose
    /// client has the state `client_state`: where both the client under the
    /// connection and the client under its other end are allowed. The other
    /// chain is asked for the state of its client.
    pub fn control_connection_end_and_client<Chain: ChainHandle>(
        &mut self,
        registry: &mut Registry<Chain>,
        config: &Config,
        chain_id: &ChainId,
        client_state: &ClientState,
        connection: &ConnectionEnd,
    ) -> (r: Result<Permission, FilterError>)
        requires
            old(self).wf(),
            old(registry).wf(),
        ensures
            final(self).wf(),
            final(registry).wf(),
            cache_extends(old(self).cache(), final(self).cache()),
            grows_within(old(registry).ids(), final(registry).ids(), config.chain_ids()),
            r matches Ok(p) ==> {
                &&& final(self).cache().contains_key((chain_id@, connection.client_id@))
                &&& final(self).cache().contains_key(
                    (client_state.chain_id@, connection.counterparty.client_id@),
                )
                &&& p == final(self).cache()[(chain_id@, connection.client_id@)].spec_and(
                    final(self).cache()[(
                        client_state.chain_id@,
                        connection.counterparty.client_id@,
                    )],
                )
                &&& exists|other: ClientState|
                    {
                        &&& is_client_state_on(
                            final(registry).ids(),
                            final(registry).handles(),
                            client_state.chain_id@,
                            connection.counterparty.client_id,
                            other,
                        )
                        &&& #[trigger] is_connection_verdict(
                            old(self).cache(),
                            final(self).cache(),
                            chain_id@,
                            *client_state,
                            *connection,
                            other,
                            p,
                        )
                    }
            },
            handles_kept(old(registry).handles(), final(registry).handles()),
            r matches Err(e) ==> (e is Spawn || e is Relayer) && final(self).cache() == old(self).cache(),
    {
        let counterparty_chain = match registry.get_or_spawn(config, &client_state.chain_id) {
            Ok(chain) => chain,
            Err(e) => {
                return Err(FilterError::Spawn(e));
            },
        };
        let counterparty_client_state = match counterparty_chain.query_client_state(
            &connection.counterparty.client_id,
            Height::zero(),
        ) {
            Ok(state) => state,
            Err(e) => {
                return Err(FilterError::Relayer(e));
            },
        };
        assert(is_client_state_on(
            registry.ids(),
            registry.handles(),
            client_state.chain_id@,
            connection.counterparty.client_id,
            counterparty_client_state,
        ));
        let client_permission = self.control_client(chain_id, &connection.client_id, client_state);
        let counterparty_client_permission = self.control_client(
            &client_state.chain_id,
            &connection.counterparty.client_id,
            &counterparty_client_state,
        );
        let p = client_permission.and(counterparty_client_permission);
        assert(is_connection_verdict(
            old(self).cache(),
            self.cache(),
            chain_id@,
            *client_state,
            *connection,
            counterparty_client_state,
            p,
        ));
        Ok(p)
    }

    /// Whether the relayer acts for the connection `obj`: its end and its
    /// client are queried on the source, then see
    /// `control_connection_end_and_client`.
    pub fn control_conn_object<Chain: ChainHandle>(
        &mut self,
        registry: &mut Registry<Chain>,
        config: &Config,
        obj: &Connection,
    ) -> (r: Result<Permission, FilterError>)
        requires
            old(self).wf(),
            old(registry).wf(),
        ensures
            final(self).wf(),
            final(registry).wf(),
            cache_extends(old(self).cache(), final(self).cache()),
            grows_within(old(registry).ids(), final(registry).ids(), config.chain_ids()),
            handles_kept(old(registry).handles(), final(registry).handles()),
            r matches Ok(p) ==> is_connection_controlled(
                final(registry).ids(),
                final(registry).handles(),
                old(self).cache(),
                final(self).cache(),
                obj.src_chain_id@,
                obj.src_connection_id,
                p,
            ),
            r matches Err(e) ==> (e is Spawn || e is Relayer) && final(self).cache() == old(self).cache(),
    {
        let ghost ids0 = registry.ids();
        let ghost handles0 = registry.handles();
        assert(ids0.take(ids0.len() as int) =~= ids0);
        assert(handles0.take(handles0.len() as int) =~= handles0);
        let src_chain = match registry.get_or_spawn(config, &obj.src_chain_id) {
            Ok(chain) => chain,
            Err(e) => {
                return Err(FilterError::Spawn(e));
            },
        };
        let connection_end = match src_chain.query_connection(
            &obj.src_connection_id,
            Height::zero(),
        ) {
            Ok(end) => end,
            Err(e) => {
                return Err(FilterError::Relayer(e));
            },
        };
        let client_state = match src_chain.query_client_state(
            &connection_end.client_id,
            Height::zero(),
        ) {
            Ok(state) => state,
            Err(e) => {
                return Err(FilterError::Relayer(e));
            },
        };
        let ghost ids1 = registry.ids();
        let ghost handles1 = registry.handles();
        let r = self.control_connection_end_and_client(
            registry,
            config,
            &obj.src_chain_id,
            &client_state,
            &connection_end,
        );
        proof {
            lemma_grows_twice(ids0, ids1, registry.ids(), config.chain_ids());
            lemma_handles_kept_twice(handles0, handles1, registry.handles());
            lemma_handle_stays(
                ids1,
                handles1,
                registry.ids(),
                registry.handles(),
                obj.src_chain_id@,
                src_chain,
            );
            if r is Ok {
                assert(is_connection_on(
                    registry.ids(),
                    registry.handles(),
                    obj.src_chain_id@,
                    obj.src_connection_id,
                    connection_end,
                ));
                assert(is_client_state_on(
                    registry.ids(),
                    registry.handles(),
                    obj.src_chain_id@,
                    connection_end.client_id,
                    client_state,
                ));
            }
        }
        r
    }

    /// Whether the relayer acts for the channel end `(port_id, channel_id)`
    /// of `chain_id`: the end, its connection and its client are queried on
    /// that chain, then see `control_connection_end_and_client`.
    pub fn control_channel<Chain: ChainHandle>(
        &mut self,
        registry: &mut Registry<Chain>,
        config: &Config,
        chain_id: &ChainId,
        port_id: &PortId,
        channel_id: &ChannelId,
    ) -> (r: Result<Permission, FilterError>)
        requires
            old(self).wf(),
            old(registry).wf(),
        ensures
            final(self).wf(),
            final(registry).wf(),
            cache_extends(old(self).cache(), final(self).cache()),
            grows_within(old(registry).ids(), final(registry).ids(), config.chain_ids()),
            handles_kept(old(registry).handles(), final(registry).handles()),
            r matches Ok(p) ==> is_channel_controlled(
                final(registry).ids(),
                final(registry).handles(),
                old(self).cache(),
                final(self).cache(),
                chain_id@,
                *port_id,
                *channel_id,
                p,
            ),
            r matches Err(FilterError::MissingConnectionHops(channel, chain)) ==> {
                &&& channel == *channel_id
                &&& chain == *chain_id
                &&& exists|end: ChannelEnd| #[trigger]
                    is_channel_on(
                        final(registry).ids(),
                        final(registry).handles(),
                        chain_id@,
                        *port_id,
                        *channel_id,
                        end,
                    ) && end.connection_hops@.len() == 0
            },
            r matches Err(e) ==> final(self).cache() == old(self).cache(),
    {
        let ghost ids0 = registry.ids();
        let ghost handles0 = registry.handles();
        assert(ids0.take(ids0.len() as int) =~= ids0);
        assert(handles0.take(handles0.len() as int) =~= handles0);
        let src_chain = match registry.get_or_spawn(config, chain_id) {
            Ok(chain) => chain,
            Err(e) => {
                return Err(FilterError::Spawn(e));
            },
        };
        let channel_end = match src_chain.query_channel(port_id, channel_id, Height::zero()) {
            Ok(end) => end,
            Err(e) => {
                return Err(FilterError::Relayer(e));
            },
        };
        if channel_end.connection_hops.len() == 0 {
            assert(is_channel_on(
                registry.ids(),
                registry.handles(),
                chain_id@,
                *port_id,
                *channel_id,
                channel_end,
            ));
            return Err(FilterError::MissingConnectionHops(channel_id.clone(), chain_id.clone()));
        }
        let connection_end = match src_chain.query_connection(
            &channel_end.connection_hops[0],
            Height::zero(),
        ) {
            Ok(end) => end,
            Err(e) => {
                return Err(FilterError::Relayer(e));
            },
        };
        let client_state = match src_chain.query_client_state(
            &connection_end.client_id,
            Height::zero(),
        ) {
            Ok(state) => state,
            Err(e) => {
                return Err(FilterError::Relayer(e));
            },
        };
        let ghost ids1 = registry.ids();
        let ghost handles1 = registry.handles();
        let r = self.control_connection_end_and_client(
            registry,
            config,
            chain_id,
            &client_state,
            &connection_end,
        );
        proof {
            lemma_grows_twice(ids0, ids1, registry.ids(), config.chain_ids());
            lemma_handles_kept_twice(handles0, handles1, registry.handles());
            lemma_handle_stays(
                ids1,
                handles1,
                registry.ids(),
                registry.handles(),
                chain_id@,
                src_chain,
            );
            if r is Ok {
                let p = r->Ok_0;
                assert(is_channel_on(
                    registry.ids(),
                    registry.handles(),
                    chain_id@,
                    *port_id,
                    *channel_id,
                    channel_end,
                ));
                assert(is_connection_on(
                    registry.ids(),
                    registry.handles(),
                    chain_id@,
                    channel_end.connection_hops@[0],
                    connection_end,
                ));
                assert(is_client_state_on(
                    registry.ids(),
                    registry.handles(),
                    chain_id@,
                    connection_end.client_id,
                    client_state,
                ));
                assert(is_connection_controlled(
                    registry.ids(),
                    registry.handles(),
                    old(self).cache(),
                    self.cache(),
                    chain_id@,
                    channel_end.connection_hops@[0],
                    p,
                ));
            }
        }
        r
    }

    /// Whether the relayer acts for the channel `obj`.
    pub fn control_chan_object<Chain: ChainHandle>(
        &mut self,
        registry: &mut Registry<Chain>,
        config: &Config,
        obj: &Channel,
    ) -> (r: Result<Permission, FilterError>)
        requires
            old(self).wf(),
            old(registry).wf(),
        ensures
            final(self).wf(),
            final(registry).wf(),
            cache_extends(old(self).cache(), final(self).cache()),
            grows_within(old(registry).ids(), final(registry).ids(), config.chain_ids()),
            handles_kept(old(registry).handles(), final(registry).handles()),
            r matches Ok(p) ==> is_channel_controlled(
                final(registry).ids(),
                final(registry).handles(),
                old(self).cache(),
                final(self).cache(),
                obj.src_chain_id@,
                obj.src_port_id,
                obj.src_channel_id,
                p,
            ),
            r matches Err(e) ==> final(self).cache() == old(self).cache(),
    {
        self.control_channel(
            registry,
            config,
            &obj.src_chain_id,
            &obj.src_port_id,
            &obj.src_channel_id,
        )
    }

    /// Whether the relayer acts for the packets `obj`.
    pub fn control_packet_object<Chain: ChainHandle>(
        &mut self,
        registry: &mut Registry<Chain>,
        config: &Config,
        obj: &Packet,
    ) -> (r: Result<Permission, FilterError>)
        requires
            old(self).wf(),
            old(registry).wf(),
        ensures
            final(self).wf(),
            final(registry).wf(),
            cache_extends(old(self).cache(), final(self).cache()),
            grows_within(old(registry).ids(), final(registry).ids(), config.chain_ids()),
            handles_kept(old(registry).handles(), final(registry).handles()),
            r matches Ok(p) ==> is_channel_controlled(
                final(registry).ids(),
                final(registry).handles(),
                old(self).cache(),
                final(self).cache(),
                obj.src_chain_id@,
                obj.src_port_id,
                obj.src_channel_id,
                p,
            ),
            r matches Err(e) ==> final(self).cache() == old(self).cache(),
    {
        self.control_channel(
            registry,
            config,
            &obj.src_chain_id,
            &obj.src_port_id,
            &obj.src_channel_id,
        )
    }
}

} // verus!
