//! The handles of the chains in use, by chain.

use crate::chain::handle::ChainHandle;
use crate::config::Config;
use crate::error::Error as RelayerError;
use crate::identifier::ChainId;
use vstd::prelude::*;

verus! {

/// Why no handle for a chain could be had.
#[derive(Debug, PartialEq, Eq)]
pub enum SpawnError {
    /// The chain is not configured.
    MissingChainConfig(ChainId),
    /// The session with the chain could not be started.
    RuntimeFailed(ChainId, RelayerError),
}

/// `names` without every entry that spells `name`, the rest in order.
pub open spec fn without_name(names: Seq<Seq<char>>, name: Seq<char>) -> Seq<Seq<char>>
    decreases names.len(),
{
    if names.len() == 0 {
        names
    } else {
        let rest = without_name(names.drop_last(), name);
        if names.last() == name {
            rest
        } else {
            rest.push(names.last())
        }
    }
}

/// Those of `items` whose name, at the same place of `names`, is not
/// `name`, in order.
pub open spec fn held_beside<T>(names: Seq<Seq<char>>, items: Seq<T>, name: Seq<char>) -> Seq<T>
    decreases names.len(),
{
    if names.len() == 0 || items.len() != names.len() {
        Seq::empty()
    } else {
        let rest = held_beside(names.drop_last(), items.drop_last(), name);
        if names.last() == name {
            rest
        } else {
            rest.push(items.last())
        }
    }
}

/// Whether `handle` is a session that was started for the chain `chain` as
/// `config` describes it.
pub open spec fn is_started_for<Chain: ChainHandle>(
    config: Config,
    chain: Seq<char>,
    handle: Chain,
) -> bool {
    exists|i: int|
        0 <= i < config.chains@.len() && config.chains@[i].id@ == chain && #[trigger] call_ensures(
            Chain::spawn,
            (&config.chains@[i],),
            Ok(handle),
        )
}

/// Whether no session could be started for the chain `chain` as `config`
/// describes it, with `cause` as the failure.
pub open spec fn is_refused_for<Chain: ChainHandle>(
    config: Config,
    chain: Seq<char>,
    cause: RelayerError,
) -> bool {
    exists|i: int|
        0 <= i < config.chains@.len() && config.chains@[i].id@ == chain && #[trigger] call_ensures(
            Chain::spawn,
            (&config.chains@[i],),
            Err::<Chain, RelayerError>(cause),
        )
}

/// Whether `after` are the handles `before`, with one that was started for
/// `chain` added at the end where `started` says so.
pub open spec fn handles_after<Chain: ChainHandle>(
    before: Seq<Chain>,
    after: Seq<Chain>,
    config: Config,
    chain: Seq<char>,
    started: bool,
) -> bool {
    if started {
        exists|handle: Chain| #[trigger]
            is_started_for(config, chain, handle) && after == before.push(handle)
    } else {
        after == before
    }
}

/// Whether `handle` is a clone of the handle held for the chain `chain`,
/// one of `handles`, each under its name in `ids`.
pub open spec fn is_handle_of<Chain: ChainHandle>(
    ids: Seq<Seq<char>>,
    handles: Seq<Chain>,
    chain: Seq<char>,
    handle: Chain,
) -> bool {
    exists|at: int|
        0 <= at < ids.len() && at < handles.len() && ids[at] == chain && cloned(
            #[trigger] handles[at],
            handle,
        )
}

/// Whether the handles `before` are the first of `after`, in order.
pub open spec fn handles_kept<Chain>(before: Seq<Chain>, after: Seq<Chain>) -> bool {
    before.len() <= after.len() && after.take(before.len() as int) == before
}

/// A handle that is held stays held while names and handles are only added
/// at the end.
pub proof fn lemma_handle_stays<Chain: ChainHandle>(
    ids: Seq<Seq<char>>,
    handles: Seq<Chain>,
    more_ids: Seq<Seq<char>>,
    more_handles: Seq<Chain>,
    chain: Seq<char>,
    handle: Chain,
)
    requires
        is_handle_of(ids, handles, chain, handle),
        ids.len() <= more_ids.len(),
        more_ids.take(ids.len() as int) == ids,
        handles_kept(handles, more_handles),
    ensures
        is_handle_of(more_ids, more_handles, chain, handle),
{
    let at = choose|at: int|
        0 <= at < ids.len() && at < handles.len() && ids[at] == chain && cloned(
            #[trigger] handles[at],
            handle,
        );
    assert(more_ids.take(ids.len() as int)[at] == ids[at]);
    assert(more_handles.take(handles.len() as int)[at] == handles[at]);
    assert(cloned(more_handles[at], handle));
}

/// Handles that are kept over each of two steps are kept over both.
pub proof fn lemma_handles_kept_twice<Chain>(first: Seq<Chain>, second: Seq<Chain>, third: Seq<Chain>)
    requires
        handles_kept(first, second),
        handles_kept(second, third),
    ensures
        handles_kept(first, third),
{
    assert(third.take(first.len() as int) =~= third.take(second.len() as int).take(
        first.len() as int,
    ));
}

/// Whether the chain behind `handle` was told to shut down.
pub open spec fn is_shut_down<Chain: ChainHandle>(handle: Chain) -> bool {
    exists|answer: Result<(), RelayerError>| #[trigger]
        call_ensures(Chain::shutdown, (&handle,), answer)
}

/// Whether no two entries of `names` spell the same.
pub open spec fn distinct_names(names: Seq<Seq<char>>) -> bool {
    forall|i: int, j: int| 0 <= i < j < names.len() ==> names[i] != names[j]
}

/// What is left without a name does not hold it, and holds every other
/// entry that was there.
pub proof fn lemma_without_name_contains(names: Seq<Seq<char>>, name: Seq<char>, other: Seq<char>)
    ensures
        without_name(names, name).contains(other) <==> names.contains(other) && other != name,
    decreases names.len(),
{
    if names.len() > 0 {
        lemma_without_name_contains(names.drop_last(), name, other);
        let rest = without_name(names.drop_last(), name);
        assert(names == names.drop_last().push(names.last()));
        if names.contains(other) {
            let k = choose|k: int| 0 <= k < names.len() && names[k] == other;
            if k < names.len() - 1 {
                assert(names.drop_last()[k] == other);
            }
        }
        if names.drop_last().contains(other) {
            let k = choose|k: int| 0 <= k < names.drop_last().len() && names.drop_last()[k] == other;
            assert(names[k] == other);
        }
        if names.last() != name {
            if rest.push(names.last()).contains(other) {
                let k = choose|k: int|
                    0 <= k < rest.push(names.last()).len() && rest.push(names.last())[k] == other;
                if k < rest.len() {
                    assert(rest[k] == other);
                } else {
                    assert(names[names.len() - 1] == other);
                }
            }
            if rest.contains(other) {
                let k = choose|k: int| 0 <= k < rest.len() && rest[k] == other;
                assert(rest.push(names.last())[k] == other);
            }
            if other == names.last() {
                assert(rest.push(names.last())[rest.len() as int] == other);
                assert(names[names.len() - 1] == other);
            }
        }
    }
}

/// Names that do not hold `name` stay as they are without it.
pub proof fn lemma_without_absent_name(names: Seq<Seq<char>>, name: Seq<char>)
    requires
        !names.contains(name),
    ensures
        without_name(names, name) == names,
    decreases names.len(),
{
    if names.len() > 0 {
        assert(names[names.len() - 1] != name);
        assert(!names.drop_last().contains(name)) by {
            if names.drop_last().contains(name) {
                let k = choose|k: int| 0 <= k < names.drop_last().len() && names.drop_last()[k] == name;
                assert(names[k] == name);
            }
        }
        lemma_without_absent_name(names.drop_last(), name);
        assert(names == names.drop_last().push(names.last()));
    }
}

/// A name that was added last to names that did not hold it leaves them as
/// they were when it is taken out again.
pub proof fn lemma_push_then_without(names: Seq<Seq<char>>, name: Seq<char>)
    requires
        !names.contains(name),
    ensures
        without_name(names.push(name), name) == names,
{
    assert(names.push(name).drop_last() == names);
    lemma_without_absent_name(names, name);
}

/// Whether `after` is `before` with names added at the end, each one of
/// `allowed`.
pub open spec fn grows_within(
    before: Seq<Seq<char>>,
    after: Seq<Seq<char>>,
    allowed: Seq<Seq<char>>,
) -> bool {
    &&& before.len() <= after.len()
    &&& after.take(before.len() as int) == before
    &&& forall|i: int| before.len() <= i < after.len() ==> allowed.contains(#[trigger] after[i])
}

/// Whether each of `names` is one of `allowed`.
pub open spec fn names_within(names: Seq<Seq<char>>, allowed: Seq<Seq<char>>) -> bool {
    forall|i: int| 0 <= i < names.len() ==> allowed.contains(#[trigger] names[i])
}

/// Names within bounds that grow within them stay within them, and keep
/// what they held.
pub proof fn lemma_grows_keeps(
    before: Seq<Seq<char>>,
    after: Seq<Seq<char>>,
    allowed: Seq<Seq<char>>,
)
    requires
        grows_within(before, after, allowed),
    ensures
        names_within(before, allowed) ==> names_within(after, allowed),
        forall|name: Seq<char>| before.contains(name) ==> after.contains(name),
{
    if names_within(before, allowed) {
        assert forall|i: int| 0 <= i < after.len() implies allowed.contains(#[trigger] after[i]) by {
            if i < before.len() {
                assert(after.take(before.len() as int)[i] == before[i]);
            }
        }
    }
    assert forall|name: Seq<char>| before.contains(name) implies after.contains(name) by {
        let k = choose|k: int| 0 <= k < before.len() && before[k] == name;
        assert(after.take(before.len() as int)[k] == name);
        assert(after[k] == name);
    }
}

/// Names that grow twice within the same bounds have grown within them.
pub proof fn lemma_grows_twice(
    first: Seq<Seq<char>>,
    second: Seq<Seq<char>>,
    third: Seq<Seq<char>>,
    allowed: Seq<Seq<char>>,
)
    requires
        grows_within(first, second, allowed),
        grows_within(second, third, allowed),
    ensures
        grows_within(first, third, allowed),
{
    assert(third.take(first.len() as int) =~= third.take(second.len() as int).take(
        first.len() as int,
    ));
    assert forall|i: int| first.len() <= i < third.len() implies allowed.contains(
        #[trigger] third[i],
    ) by {
        if i < second.len() {
            assert(third.take(second.len() as int)[i] == second[i]);
        }
    }
}

/// The handles of the chains in use, each under the name of its chain, in
/// the order in which they were started. No chain has two handles.
pub struct Registry<Chain: ChainHandle> {
    names: Vec<ChainId>,
    handles: Vec<Chain>,
}

impl<Chain: ChainHandle> Registry<Chain> {
    /// Each handle has a name, and no chain has two handles. This holds of
    /// every registry that `new` made, after any calls.
    pub closed spec fn wf(&self) -> bool {
        &&& self.names@.len() == self.handles@.len()
        &&& distinct_names(self.names.deep_view())
    }

    /// In a well-formed registry no two names spell the same.
    pub proof fn lemma_distinct(&self)
        requires
            self.wf(),
        ensures
            distinct_names(self.ids()),
            self.handles().len() == self.ids().len(),
    {
    }

    /// The names of the chains that have a handle, in the order in which the
    /// handles were started.
    pub closed spec fn ids(&self) -> Seq<Seq<char>> {
        self.names.deep_view()
    }

    /// The handles, in the order in which they were started.
    pub closed spec fn handles(&self) -> Seq<Chain> {
        self.handles@
    }

    pub fn new() -> (r: Self)
        ensures
            r.wf(),
            r.ids() == Seq::<Seq<char>>::empty(),
    {
        let r = Registry { names: Vec::new(), handles: Vec::new() };
        assert(r.names.deep_view() =~= Seq::<Seq<char>>::empty());
        r
    }

    /// How many chains have a handle.
    pub fn size(&self) -> (r: usize)
        ensures
            r == self.ids().len(),
    {
        self.names.len()
    }

    fn position(&self, chain_id: &ChainId) -> (r: Option<usize>)
        ensures
            match r {
                Some(i) => i < self.names@.len() && self.names@[i as int]@ == chain_id@,
                None => !self.ids().contains(chain_id@),
            },
    {
        let mut i: usize = 0;
        while i < self.names.len()
            invariant
                i <= self.names.len(),
                forall|j: int| 0 <= j < i ==> (#[trigger] self.names@[j])@ != chain_id@,
            decreases self.names.len() - i,
        {
            if self.names[i] == *chain_id {
                return Some(i);
            }
            i = i + 1;
        }
        assert(!self.ids().contains(chain_id@)) by {
            if self.ids().contains(chain_id@) {
                let k = choose|k: int| 0 <= k < self.ids().len() && self.ids()[k] == chain_id@;
                assert(self.names@[k]@ == chain_id@);
            }
        }
        None
    }

    /// Whether the chain has a handle.
    pub fn contains(&self, chain_id: &ChainId) -> (r: bool)
        ensures
            r == self.ids().contains(chain_id@),
    {
        match self.position(chain_id) {
            Some(i) => {
                assert(self.ids()[i as int] == chain_id@);
                true
            },
            None => false,
        }
    }

    /// The names of the chains that have a handle.
    pub fn chains(&self) -> (r: Vec<ChainId>)
        ensures
            r.deep_view() == self.ids(),
    {
        let mut out: Vec<ChainId> = Vec::new();
        let mut i: usize = 0;
        while i < self.names.len()
            invariant
                i <= self.names.len(),
                out@.len() == i,
                forall|j: int| 0 <= j < i ==> out@[j] == self.names@[j],
            decreases self.names.len() - i,
        {
            out.push(self.names[i].clone());
            i = i + 1;
        }
        assert(out.deep_view() =~= self.names.deep_view());
        out
    }

    /// Starts a handle for the chain, unless it has one; `true` where one
    /// was started.
    ///
    /// A chain that has a handle keeps it. A chain without one gets one
    /// where it is configured and its session starts; the handle is then the
    /// last. Fails with `MissingChainConfig` for a chain that has no handle
    /// and is not configured, and with `RuntimeFailed` where the session
    /// does not start; the registry is then as before.
    pub fn spawn(&mut self, config: &Config, chain_id: &ChainId) -> (r: Result<bool, SpawnError>)
        requires
            old(self).wf(),
        ensures
            final(self).wf(),
            grows_within(old(self).ids(), final(self).ids(), config.chain_ids()),
            old(self).ids().contains(chain_id@) ==> r matches Ok(false),
            !old(self).ids().contains(chain_id@) && !config.chain_ids().contains(chain_id@)
                ==> r matches Err(SpawnError::MissingChainConfig(_)),
            final(self).handles().len() == final(self).ids().len(),
            handles_kept(old(self).handles(), final(self).handles()),
            match r {
                Ok(started) => {
                    &&& started == !old(self).ids().contains(chain_id@)
                    &&& started ==> config.chain_ids().contains(chain_id@)
                    &&& final(self).ids() == if started {
                        old(self).ids().push(chain_id@)
                    } else {
                        old(self).ids()
                    }
                    &&& handles_after(
                        old(self).handles(),
                        final(self).handles(),
                        *config,
                        chain_id@,
                        started,
                    )
                },
                Err(e) => {
                    &&& final(self).ids() == old(self).ids()
                    &&& final(self).handles() == old(self).handles()
                    &&& !old(self).ids().contains(chain_id@)
                    &&& e is RuntimeFailed ==> config.chain_ids().contains(chain_id@)
                    &&& e is MissingChainConfig ==> !config.chain_ids().contains(chain_id@)
                    &&& e matches SpawnError::RuntimeFailed(id, cause) ==> id@ == chain_id@
                        && is_refused_for::<Chain>(*config, chain_id@, cause)
                    &&& e matches SpawnError::MissingChainConfig(id) ==> id@ == chain_id@
                },
            },
    {
        assert(self.ids().take(self.ids().len() as int) =~= self.ids());
        assert(self.handles().take(self.handles().len() as int) =~= self.handles());
        let ghost held = self.handles();
        if self.contains(chain_id) {
            return Ok(false);
        }
        let chain_config = match config.find_chain(chain_id) {
            Some(chain_config) => chain_config,
            None => {
                return Err(SpawnError::MissingChainConfig(chain_id.clone()));
            },
        };
        let handle = match Chain::spawn(chain_config) {
            Ok(handle) => handle,
            Err(e) => {
                assert(is_refused_for::<Chain>(*config, chain_id@, e));
                return Err(SpawnError::RuntimeFailed(chain_id.clone(), e));
            },
        };
        let ghost before = self.names.deep_view();
        assert(is_started_for(*config, chain_id@, handle));
        self.names.push(chain_id.clone());
        self.handles.push(handle);
        proof {
            assert(self.names.deep_view() =~= before.push(chain_id@));
            assert(before.push(chain_id@).take(before.len() as int) =~= before);
            assert(held.push(handle).take(held.len() as int) =~= held);
            assert(distinct_names(self.names.deep_view())) by {
                assert forall|i: int, j: int| 0 <= i < j < self.names.deep_view().len() implies
                    self.names.deep_view()[i] != self.names.deep_view()[j] by {
                    if j == before.len() {
                        assert(before[i] != chain_id@) by {
                            if before[i] == chain_id@ {
                                assert(before.contains(chain_id@));
                            }
                        }
                    } else {
                        assert(before[i] != before[j]);
                    }
                }
            }
        }
        Ok(true)
    }

    /// The handle of the chain, started where the chain has none.
    ///
    /// See `spawn` for what becomes of the registry, and for the errors.
    pub fn get_or_spawn(&mut self, config: &Config, chain_id: &ChainId) -> (r: Result<
        Chain,
        SpawnError,
    >)
        requires
            old(self).wf(),
        ensures
            final(self).wf(),
            grows_within(old(self).ids(), final(self).ids(), config.chain_ids()),
            old(self).ids().contains(chain_id@) ==> r is Ok,
            !old(self).ids().contains(chain_id@) && !config.chain_ids().contains(chain_id@)
                ==> r matches Err(SpawnError::MissingChainConfig(_)),
            final(self).handles().len() == final(self).ids().len(),
            handles_kept(old(self).handles(), final(self).handles()),
            match r {
                Ok(handle) => {
                    &&& final(self).ids().contains(chain_id@)
                    &&& is_handle_of(final(self).ids(), final(self).handles(), chain_id@, handle)
                    &&& exists|i: int|
                        0 <= i < final(self).ids().len() && final(self).ids()[i] == chain_id@
                            && cloned(#[trigger] final(self).handles()[i], handle)
                    &&& !old(self).ids().contains(chain_id@) ==> config.chain_ids().contains(
                        chain_id@,
                    )
                    &&& final(self).ids() == if old(self).ids().contains(chain_id@) {
                        old(self).ids()
                    } else {
                        old(self).ids().push(chain_id@)
                    }
                    &&& handles_after(
                        old(self).handles(),
                        final(self).handles(),
                        *config,
                        chain_id@,
                        !old(self).ids().contains(chain_id@),
                    )
                },
                Err(e) => {
                    &&& final(self).ids() == old(self).ids()
                    &&& final(self).handles() == old(self).handles()
                    &&& !old(self).ids().contains(chain_id@)
                    &&& e is RuntimeFailed ==> config.chain_ids().contains(chain_id@)
                    &&& e is MissingChainConfig ==> !config.chain_ids().contains(chain_id@)
                    &&& e matches SpawnError::RuntimeFailed(id, cause) ==> id@ == chain_id@
                        && is_refused_for::<Chain>(*config, chain_id@, cause)
                },
            },
    {
        match self.spawn(config, chain_id) {
            Ok(_) => {},
            Err(e) => {
                return Err(e);
            },
        }
        proof {
            if old(self).ids().contains(chain_id@) {
            } else {
                assert(self.ids()[self.ids().len() - 1] == chain_id@);
            }
        }
        match self.position(chain_id) {
            Some(i) => {
                let handle = self.handles[i].clone();
                assert(self.ids()[i as int] == chain_id@);
                assert(cloned(self.handles()[i as int], handle));
                Ok(handle)
            },
            None => Err(SpawnError::MissingChainConfig(chain_id.clone())),
        }
    }

    /// Ends the session with the chain and forgets its handle. A chain
    /// without a handle is left alone.
    pub fn shutdown(&mut self, chain_id: &ChainId)
        requires
            old(self).wf(),
        ensures
            final(self).wf(),
            final(self).ids() == without_name(old(self).ids(), chain_id@),
            final(self).handles() == held_beside(old(self).ids(), old(self).handles(), chain_id@),
            !final(self).ids().contains(chain_id@),
            forall|i: int|
                0 <= i < old(self).ids().len() && #[trigger] old(self).ids()[i] == chain_id@
                    ==> is_shut_down(old(self).handles()[i]),
    {
        proof {
            lemma_without_name_contains(old(self).ids(), chain_id@, chain_id@);
        }
        match self.position(chain_id) {
            Some(i) => {
                let ghost before = self.names.deep_view();
                let ghost held = self.handles@;
                let name = self.names.remove(i);
                let handle = self.handles.remove(i);
                let answer = handle.shutdown();
                proof {
                    let after = self.names.deep_view();
                    assert(after =~= before.remove(i as int));
                    lemma_without_one(before, chain_id@, i as int);
                    lemma_held_beside_one(before, held, chain_id@, i as int);
                    assert(call_ensures(Chain::shutdown, (&held[i as int],), answer));
                    assert(is_shut_down(held[i as int]));
                    assert forall|k: int| 0 <= k < before.len() && before[k] == chain_id@ implies k
                        == i by {
                        if k < i {
                            assert(before[k] != before[i as int]);
                        } else if k > i {
                            assert(before[i as int] != before[k]);
                        }
                    }
                    assert(distinct_names(after)) by {
                        assert forall|a: int, b: int| 0 <= a < b < after.len() implies after[a]
                            != after[b] by {
                            let a0 = if a < i { a } else { a + 1 };
                            let b0 = if b < i { b } else { b + 1 };
                            assert(before[a0] != before[b0]);
                        }
                    }
                }
            },
            None => {
                proof {
                    lemma_without_absent_name(self.ids(), chain_id@);
                    lemma_held_beside_absent(self.ids(), self.handles(), chain_id@);
                    assert forall|k: int| 0 <= k < self.ids().len() implies #[trigger] self.ids()[k]
                        != chain_id@ by {
                        if self.ids()[k] == chain_id@ {
                            assert(self.ids().contains(chain_id@));
                        }
                    }
                }
            },
        }
    }
}

/// Where no two names spell the same, taking out a name is taking out the
/// one entry that spells it.
pub proof fn lemma_without_one(names: Seq<Seq<char>>, name: Seq<char>, i: int)
    requires
        distinct_names(names),
        0 <= i < names.len(),
        names[i] == name,
    ensures
        without_name(names, name) == names.remove(i),
    decreases names.len(),
{
    let shorter = names.drop_last();
    if i == names.len() - 1 {
        assert(!shorter.contains(name)) by {
            if shorter.contains(name) {
                let k = choose|k: int| 0 <= k < shorter.len() && shorter[k] == name;
                assert(names[k] != names[i]);
            }
        }
        lemma_without_absent_name(shorter, name);
        assert(names.remove(i) =~= shorter);
    } else {
        assert(names[i] != names[names.len() - 1]);
        assert(distinct_names(shorter)) by {
            assert forall|a: int, b: int| 0 <= a < b < shorter.len() implies shorter[a]
                != shorter[b] by {
                assert(names[a] != names[b]);
            }
        }
        lemma_without_one(shorter, name, i);
        assert(names.remove(i) =~= shorter.remove(i).push(names.last()));
    }
}

/// Where no entry spells the name, every item is held beside it.
pub proof fn lemma_held_beside_absent<T>(names: Seq<Seq<char>>, items: Seq<T>, name: Seq<char>)
    requires
        !names.contains(name),
        items.len() == names.len(),
    ensures
        held_beside(names, items, name) == items,
    decreases names.len(),
{
    if names.len() > 0 {
        assert(names[names.len() - 1] != name);
        assert(!names.drop_last().contains(name)) by {
            if names.drop_last().contains(name) {
                let k = choose|k: int| 0 <= k < names.drop_last().len() && names.drop_last()[k] == name;
                assert(names[k] == name);
            }
        }
        lemma_held_beside_absent(names.drop_last(), items.drop_last(), name);
        assert(items == items.drop_last().push(items.last()));
    } else {
        assert(items =~= Seq::<T>::empty());
    }
}

/// Where no two names spell the same, the items held beside a name are
/// all but the one at the place of the entry that spells it.
pub proof fn lemma_held_beside_one<T>(names: Seq<Seq<char>>, items: Seq<T>, name: Seq<char>, i: int)
    requires
        distinct_names(names),
        items.len() == names.len(),
        0 <= i < names.len(),
        names[i] == name,
    ensures
        held_beside(names, items, name) == items.remove(i),
    decreases names.len(),
{
    let shorter = names.drop_last();
    if i == names.len() - 1 {
        assert(!shorter.contains(name)) by {
            if shorter.contains(name) {
                let k = choose|k: int| 0 <= k < shorter.len() && shorter[k] == name;
                assert(names[k] != names[i]);
            }
        }
        lemma_held_beside_absent(shorter, items.drop_last(), name);
        assert(items.remove(i) =~= items.drop_last());
    } else {
        assert(names[i] != names[names.len() - 1]);
        assert(distinct_names(shorter)) by {
            assert forall|a: int, b: int| 0 <= a < b < shorter.len() implies shorter[a]
                != shorter[b] by {
                assert(names[a] != names[b]);
            }
        }
        lemma_held_beside_one(shorter, items.drop_last(), name, i);
        assert(items.remove(i) =~= items.drop_last().remove(i).push(items.last()));
    }
}

} // verus!
