//! The relayer's configuration: the chains it serves and what it relays.

use crate::identifier::ChainId;
use crate::identifier::ChannelId;
use crate::identifier::PortId;
use crate::registry::without_name;
use vstd::prelude::*;

verus! {

#[derive(Clone, Copy, Debug, PartialEq, Eq, Structural)]
pub struct Clients {
    pub enabled: bool,
    pub refresh: bool,
    pub misbehaviour: bool,
}

#[derive(Clone, Copy, Debug, PartialEq, Eq, Structural)]
pub struct Connections {
    pub enabled: bool,
}

#[derive(Clone, Copy, Debug, PartialEq, Eq, Structural)]
pub struct Channels {
    pub enabled: bool,
}

#[derive(Clone, Copy, Debug, PartialEq, Eq, Structural)]
pub struct Packets {
    pub enabled: bool,
    pub clear_interval: u64,
    pub clear_on_start: bool,
    /// Whether the channel allowlists and the client filter apply.
    pub filter: bool,
    pub tx_confirmation: bool,
}

/// What the relayer relays, one switch per kind of object.
#[derive(Clone, Copy, Debug, PartialEq, Eq, Structural)]
pub struct ModeConfig {
    pub clients: Clients,
    pub connections: Connections,
    pub channels: Channels,
    pub packets: Packets,
}

impl ModeConfig {
    /// Every kind of object relayed, and no filter.
    pub fn all_enabled() -> (r: Self)
        ensures
            r.clients.enabled,
            r.connections.enabled,
            r.channels.enabled,
            r.packets.enabled,
            !r.packets.filter,
    {
        ModeConfig {
            clients: Clients { enabled: true, refresh: true, misbehaviour: true },
            connections: Connections { enabled: true },
            channels: Channels { enabled: true },
            packets: Packets {
                enabled: true,
                clear_interval: 100,
                clear_on_start: true,
                filter: false,
                tx_confirmation: true,
            },
        }
    }
}

/// The channels of one chain on which packets are relayed.
#[derive(Clone, Debug, PartialEq, Eq)]
pub enum PacketFilter {
    /// Only the channels listed.
    Allow(Vec<(PortId, ChannelId)>),
    /// Every channel but those listed.
    Deny(Vec<(PortId, ChannelId)>),
    AllowAll,
}

/// Whether `(port, channel)` spells the same as an entry of `list`.
pub open spec fn lists_channel(
    list: Seq<(PortId, ChannelId)>,
    port: Seq<char>,
    channel: Seq<char>,
) -> bool {
    exists|i: int| 0 <= i < list.len() && (#[trigger] list[i]).0@ == port && list[i].1@ == channel
}

fn list_has_channel(list: &Vec<(PortId, ChannelId)>, port_id: &PortId, channel_id: &ChannelId) -> (r:
    bool)
    ensures
        r == lists_channel(list@, port_id@, channel_id@),
{
    let mut i: usize = 0;
    while i < list.len()
        invariant
            i <= list.len(),
            forall|j: int| 0 <= j < i ==> !((#[trigger] list@[j]).0@ == port_id@ && list@[j].1@ == channel_id@),
        decreases list.len() - i,
    {
        if list[i].0 == *port_id && list[i].1 == *channel_id {
            return true;
        }
        i = i + 1;
    }
    false
}

impl PacketFilter {
    pub open spec fn spec_is_allowed(&self, port: Seq<char>, channel: Seq<char>) -> bool {
        match *self {
            PacketFilter::Allow(list) => lists_channel(list@, port, channel),
            PacketFilter::Deny(list) => !lists_channel(list@, port, channel),
            PacketFilter::AllowAll => true,
        }
    }

    /// Whether packets on the channel are relayed.
    pub fn is_allowed(&self, port_id: &PortId, channel_id: &ChannelId) -> (r: bool)
        ensures
            r == self.spec_is_allowed(port_id@, channel_id@),
    {
        match self {
            PacketFilter::Allow(list) => list_has_channel(list, port_id, channel_id),
            PacketFilter::Deny(list) => !list_has_channel(list, port_id, channel_id),
            PacketFilter::AllowAll => true,
        }
    }
}

/// What the relayer knows of one chain.
#[derive(Clone, Debug, PartialEq, Eq)]
pub struct ChainConfig {
    pub id: ChainId,
    pub rpc_addr: String,
    pub packet_filter: PacketFilter,
}

/// The configuration of the whole process.
#[derive(Clone, Debug, PartialEq, Eq)]
pub struct Config {
    pub mode: ModeConfig,
    /// The chains served, in the order in which they were configured.
    pub chains: Vec<ChainConfig>,
}

/// The names of the chains of `chains`, in order.
pub open spec fn ids_of(chains: Seq<ChainConfig>) -> Seq<Seq<char>> {
    Seq::new(chains.len(), |i: int| chains[i].id@)
}

impl Config {
    /// The names of the configured chains, in order.
    pub open spec fn chain_ids(&self) -> Seq<Seq<char>> {
        ids_of(self.chains@)
    }

    /// The place of the first chain named `id`, if there is one.
    pub fn position(&self, id: &ChainId) -> (r: Option<usize>)
        ensures
            match r {
                Some(i) => i < self.chains.len() && self.chains@[i as int].id@ == id@ && forall|j: int|
                    0 <= j < i ==> (#[trigger] self.chains@[j]).id@ != id@,
                None => !self.chain_ids().contains(id@),
            },
    {
        let mut i: usize = 0;
        while i < self.chains.len()
            invariant
                i <= self.chains.len(),
                forall|j: int| 0 <= j < i ==> (#[trigger] self.chains@[j]).id@ != id@,
            decreases self.chains.len() - i,
        {
            if self.chains[i].id == *id {
                return Some(i);
            }
            i = i + 1;
        }
        assert(!self.chain_ids().contains(id@)) by {
            if self.chain_ids().contains(id@) {
                let k = choose|k: int| 0 <= k < self.chain_ids().len() && self.chain_ids()[k] == id@;
                assert(self.chains@[k].id@ == id@);
            }
        }
        None
    }

    /// Whether a chain named `id` is configured.
    pub fn has_chain(&self, id: &ChainId) -> (r: bool)
        ensures
            r == self.chain_ids().contains(id@),
    {
        match self.position(id) {
            Some(i) => {
                assert(self.chain_ids()[i as int] == id@);
                true
            },
            None => false,
        }
    }

    /// The configuration of the first chain named `id`.
    pub fn find_chain(&self, id: &ChainId) -> (r: Option<&ChainConfig>)
        ensures
            r is Some == self.chain_ids().contains(id@),
            r matches Some(c) ==> c.id@ == id@ && exists|i: int|
                0 <= i < self.chains.len() && self.chains@[i] == *c,
    {
        match self.position(id) {
            Some(i) => {
                assert(self.chain_ids()[i as int] == id@);
                Some(&self.chains[i])
            },
            None => None,
        }
    }

    pub open spec fn spec_packets_on_channel_allowed(
        &self,
        chain: Seq<char>,
        port: Seq<char>,
        channel: Seq<char>,
    ) -> bool {
        exists|i: int|
            0 <= i < self.chains.len() && (#[trigger] self.chains@[i]).id@ == chain && (forall|j: int|
                0 <= j < i ==> (#[trigger] self.chains@[j]).id@ != chain)
                && self.chains@[i].packet_filter.spec_is_allowed(port, channel)
    }

    /// Whether packets on the channel are relayed: the chain is configured and
    /// its filter allows the channel.
    pub fn packets_on_channel_allowed(
        &self,
        chain_id: &ChainId,
        port_id: &PortId,
        channel_id: &ChannelId,
    ) -> (r: bool)
        ensures
            r == self.spec_packets_on_channel_allowed(chain_id@, port_id@, channel_id@),
            !self.chain_ids().contains(chain_id@) ==> !r,
    {
        match self.position(chain_id) {
            Some(i) => {
                let r = self.chains[i].packet_filter.is_allowed(port_id, channel_id);
                proof {
                    if self.spec_packets_on_channel_allowed(chain_id@, port_id@, channel_id@) {
                        let k = choose|k: int|
                            0 <= k < self.chains.len() && (#[trigger] self.chains@[k]).id@
                                == chain_id@ && (forall|j: int|
                                0 <= j < k ==> (#[trigger] self.chains@[j]).id@ != chain_id@)
                                && self.chains@[k].packet_filter.spec_is_allowed(
                                port_id@,
                                channel_id@,
                            );
                        assert(k == i) by {
                            if k < i {
                                assert(self.chains@[k].id@ != chain_id@);
                            }
                            if i < k {
                                assert(self.chains@[i as int].id@ != chain_id@);
                            }
                        }
                    }
                    assert(self.chain_ids()[i as int] == chain_id@);
                }
                r
            },
            None => {
                proof {
                    if self.spec_packets_on_channel_allowed(chain_id@, port_id@, channel_id@) {
                        let k = choose|k: int|
                            0 <= k < self.chains.len() && (#[trigger] self.chains@[k]).id@
                                == chain_id@ && (forall|j: int|
                                0 <= j < k ==> (#[trigger] self.chains@[j]).id@ != chain_id@)
                                && self.chains@[k].packet_filter.spec_is_allowed(
                                port_id@,
                                channel_id@,
                            );
                        assert(self.chain_ids()[k] == chain_id@);
                    }
                }
                false
            },
        }
    }

    /// Whether the handshakes of connections and channels are relayed.
    pub fn handshake_enabled(&self) -> (r: bool)
        ensures
            r == (self.mode.connections.enabled || self.mode.channels.enabled),
    {
        self.mode.connections.enabled || self.mode.channels.enabled
    }
}

/// `chains` without every chain named `id`, the rest in order.
pub open spec fn chains_without(chains: Seq<ChainConfig>, id: Seq<char>) -> Seq<ChainConfig>
    decreases chains.len(),
{
    if chains.len() == 0 {
        chains
    } else {
        let rest = chains_without(chains.drop_last(), id);
        if chains.last().id@ == id {
            rest
        } else {
            rest.push(chains.last())
        }
    }
}

/// The names of the chains that are left without a chain are the names
/// without that of the chain.
pub proof fn lemma_ids_of_chains_without(chains: Seq<ChainConfig>, id: Seq<char>)
    ensures
        ids_of(chains_without(chains, id)) == without_name(ids_of(chains), id),
    decreases chains.len(),
{
    if chains.len() == 0 {
        assert(ids_of(chains) =~= Seq::<Seq<char>>::empty());
        assert(ids_of(chains_without(chains, id)) =~= without_name(ids_of(chains), id));
    } else {
        lemma_ids_of_chains_without(chains.drop_last(), id);
        assert(ids_of(chains).drop_last() =~= ids_of(chains.drop_last()));
        assert(ids_of(chains).last() == chains.last().id@);
        let rest = chains_without(chains.drop_last(), id);
        if chains.last().id@ != id {
            assert(ids_of(rest.push(chains.last())) =~= ids_of(rest).push(chains.last().id@));
        }
    }
}

/// Chains of which none is named `id` stay as they are without it.
pub proof fn lemma_chains_without_absent(chains: Seq<ChainConfig>, id: Seq<char>)
    requires
        !ids_of(chains).contains(id),
    ensures
        chains_without(chains, id) == chains,
    decreases chains.len(),
{
    if chains.len() > 0 {
        assert(ids_of(chains)[chains.len() - 1] == chains.last().id@);
        assert(!ids_of(chains.drop_last()).contains(id)) by {
            if ids_of(chains.drop_last()).contains(id) {
                let k = choose|k: int|
                    0 <= k < ids_of(chains.drop_last()).len() && ids_of(chains.drop_last())[k] == id;
                assert(ids_of(chains)[k] == id);
            }
        }
        lemma_chains_without_absent(chains.drop_last(), id);
        assert(chains == chains.drop_last().push(chains.last()));
    }
}

/// A chain that was added last to chains of which none had its name leaves
/// them as they were when it is taken out again.
pub proof fn lemma_push_then_chains_without(chains: Seq<ChainConfig>, chain: ChainConfig)
    requires
        !ids_of(chains).contains(chain.id@),
    ensures
        chains_without(chains.push(chain), chain.id@) == chains,
{
    assert(chains.push(chain).drop_last() == chains);
    lemma_chains_without_absent(chains, chain.id@);
}

impl Config {
    /// Takes every chain named `id` out of the configuration.
    pub fn remove_chain(&mut self, id: &ChainId)
        ensures
            final(self).mode == old(self).mode,
            final(self).chains@ == chains_without(old(self).chains@, id@),
            final(self).chain_ids() == without_name(old(self).chain_ids(), id@),
    {
        let ghost all = self.chains@;
        let mut kept: Vec<ChainConfig> = Vec::new();
        let mut i: usize = 0;
        let n = self.chains.len();
        while self.chains.len() > 0
            invariant
                i + self.chains@.len() == n,
                n == all.len(),
                self.chains@ == all.skip(i as int),
                self.mode == old(self).mode,
                kept@ == chains_without(all.take(i as int), id@),
            decreases self.chains.len(),
        {
            let chain = self.chains.remove(0);
            proof {
                assert(chain == all[i as int]);
                assert(self.chains@ =~= all.skip(i + 1));
                assert(all.take(i + 1).drop_last() == all.take(i as int));
                assert(all.take(i + 1).last() == chain);
            }
            if chain.id != *id {
                kept.push(chain);
            }
            i = i + 1;
        }
        proof {
            assert(all.take(all.len() as int) == all);
            lemma_ids_of_chains_without(all, id@);
        }
        self.chains = kept;
    }
}

} // verus!
