//! The workers, one for each object that is relayed.

use crate::chain::handle::ChainHandle;
use crate::config::Config;
use crate::event::IbcEvent;
use crate::event::NewBlock;
use crate::identifier::ChainId;
use crate::identifier::Height;
use crate::object::Object;
use crate::object::ObjectView;
use vstd::prelude::*;

verus! {

/// Why a worker did not take what was sent to it.
#[derive(Debug, PartialEq, Eq)]
pub enum WorkerError {
    /// The worker is gone.
    ChannelDisconnected(String),
    /// The worker's queue is full.
    ChannelFull(String),
}

/// What the supervisor knows of a worker: how to start it, what to send to
/// it, and how to stop it. A worker relays on its own; nothing is promised
/// of what it does with what it is sent.
pub trait Worker: Sized {
    /// Starts the worker of `object`. It begins from the state of the
    /// chains as it is now.
    fn spawn<Chain: ChainHandle>(object: &Object, src: Chain, dst: Chain, config: &Config) -> Self;

    /// Hands the worker the events of one batch that concern its object, in
    /// the order in which the chain emitted them.
    fn send_events(&self, height: Height, events: Vec<IbcEvent>, chain_id: ChainId) -> Result<
        (),
        WorkerError,
    >;

    /// Tells the worker of a new block of its source chain.
    fn send_new_block(&self, height: Height, new_block: NewBlock) -> Result<(), WorkerError>;

    /// Tells the worker to forget the packets that it has not relayed yet.
    fn clear_pending_packets(&self) -> Result<(), WorkerError>;

    /// Stops the worker, after it has done what it had taken on.
    fn shutdown(&self);
}

/// Whether no two of `objects` are the same.
pub open spec fn distinct_objects(objects: Seq<ObjectView>) -> bool {
    forall|i: int, j: int| 0 <= i < j < objects.len() ==> objects[i] != objects[j]
}

/// Whether an object concerns the chain `chain`: the chain is its source.
/// With `notify`, whether its worker is told of the chain's new blocks,
/// which a client's worker is not.
pub open spec fn concerns(object: ObjectView, chain: Seq<char>, notify: bool) -> bool {
    object.src_chain_id() == chain && (notify ==> !(object is Client))
}

/// Those of `workers` whose object concerns the chain, in order.
pub open spec fn select<W>(
    objects: Seq<ObjectView>,
    workers: Seq<W>,
    chain: Seq<char>,
    notify: bool,
) -> Seq<W>
    decreases objects.len(),
{
    if objects.len() == 0 || workers.len() != objects.len() {
        Seq::empty()
    } else {
        let rest = select(objects.drop_last(), workers.drop_last(), chain, notify);
        if concerns(objects.last(), chain, notify) {
            rest.push(workers.last())
        } else {
            rest
        }
    }
}

/// Those of `objects` whose source is not the chain, in order.
pub open spec fn without_chain(objects: Seq<ObjectView>, chain: Seq<char>) -> Seq<ObjectView>
    decreases objects.len(),
{
    if objects.len() == 0 {
        objects
    } else {
        let rest = without_chain(objects.drop_last(), chain);
        if objects.last().src_chain_id() == chain {
            rest
        } else {
            rest.push(objects.last())
        }
    }
}

/// Those of `workers` whose object, at the same place of `objects`, has
/// another source than the chain, in order.
pub open spec fn workers_without_chain<W>(
    objects: Seq<ObjectView>,
    workers: Seq<W>,
    chain: Seq<char>,
) -> Seq<W>
    decreases objects.len(),
{
    if objects.len() == 0 || workers.len() != objects.len() {
        Seq::empty()
    } else {
        let rest = workers_without_chain(objects.drop_last(), workers.drop_last(), chain);
        if objects.last().src_chain_id() == chain {
            rest
        } else {
            rest.push(workers.last())
        }
    }
}

/// Whether `worker` was told to stop.
pub open spec fn is_stopped<W: Worker>(worker: W) -> bool {
    call_ensures(W::shutdown, (&worker,), ())
}

/// Whether the source of each of `objects` is one of `chains`.
pub open spec fn sources_within(objects: Seq<ObjectView>, chains: Seq<Seq<char>>) -> bool {
    forall|i: int| 0 <= i < objects.len() ==> chains.contains((#[trigger] objects[i]).src_chain_id())
}

/// No worker is selected for a chain that is the source of no object.
pub proof fn lemma_select_none<W>(
    objects: Seq<ObjectView>,
    workers: Seq<W>,
    chain: Seq<char>,
    notify: bool,
)
    requires
        forall|i: int| 0 <= i < objects.len() ==> (#[trigger] objects[i]).src_chain_id() != chain,
    ensures
        select(objects, workers, chain, notify).len() == 0,
    decreases objects.len(),
{
    if objects.len() > 0 && workers.len() == objects.len() {
        assert(objects[objects.len() - 1].src_chain_id() != chain);
        assert forall|i: int| 0 <= i < objects.drop_last().len() implies (
        #[trigger] objects.drop_last()[i]).src_chain_id() != chain by {
            assert(objects[i].src_chain_id() != chain);
        }
        lemma_select_none(objects.drop_last(), workers.drop_last(), chain, notify);
    }
}

/// What is left without a chain holds an object exactly where the object
/// was there and has another source.
pub proof fn lemma_without_chain_contains(
    objects: Seq<ObjectView>,
    chain: Seq<char>,
    object: ObjectView,
)
    ensures
        without_chain(objects, chain).contains(object) <==> objects.contains(object)
            && object.src_chain_id() != chain,
    decreases objects.len(),
{
    if objects.len() > 0 {
        let shorter = objects.drop_last();
        let rest = without_chain(shorter, chain);
        lemma_without_chain_contains(shorter, chain, object);
        if objects.contains(object) {
            let k = choose|k: int| 0 <= k < objects.len() && objects[k] == object;
            if k < objects.len() - 1 {
                assert(shorter[k] == object);
            }
        }
        if shorter.contains(object) {
            let k = choose|k: int| 0 <= k < shorter.len() && shorter[k] == object;
            assert(objects[k] == object);
        }
        if objects.last().src_chain_id() != chain {
            let longer = rest.push(objects.last());
            if longer.contains(object) {
                let k = choose|k: int| 0 <= k < longer.len() && longer[k] == object;
                if k < rest.len() {
                    assert(rest[k] == object);
                } else {
                    assert(objects[objects.len() - 1] == object);
                }
            }
            if rest.contains(object) {
                let k = choose|k: int| 0 <= k < rest.len() && rest[k] == object;
                assert(longer[k] == object);
            }
            if object == objects.last() {
                assert(longer[rest.len() as int] == object);
                assert(objects[objects.len() - 1] == object);
            }
        }
    }
}

/// Objects of which none has the chain as its source stay as they are
/// without it.
pub proof fn lemma_without_absent_chain(objects: Seq<ObjectView>, chain: Seq<char>)
    requires
        forall|i: int| 0 <= i < objects.len() ==> (#[trigger] objects[i]).src_chain_id() != chain,
    ensures
        without_chain(objects, chain) == objects,
    decreases objects.len(),
{
    if objects.len() > 0 {
        assert(objects[objects.len() - 1].src_chain_id() != chain);
        assert forall|i: int| 0 <= i < objects.drop_last().len() implies (
        #[trigger] objects.drop_last()[i]).src_chain_id() != chain by {
            assert(objects[i].src_chain_id() != chain);
        }
        lemma_without_absent_chain(objects.drop_last(), chain);
        assert(objects == objects.drop_last().push(objects.last()));
    }
}

/// Objects that were added after others, all with the chain as their
/// source, are gone without the chain, and the others are as without it.
pub proof fn lemma_without_chain_added(
    before: Seq<ObjectView>,
    after: Seq<ObjectView>,
    chain: Seq<char>,
)
    requires
        before.len() <= after.len(),
        after.take(before.len() as int) == before,
        forall|i: int| before.len() <= i < after.len() ==> (#[trigger] after[i]).src_chain_id() == chain,
    ensures
        without_chain(after, chain) == without_chain(before, chain),
    decreases after.len(),
{
    if after.len() > before.len() {
        let shorter = after.drop_last();
        assert(shorter.take(before.len() as int) == before);
        assert(after[after.len() - 1].src_chain_id() == chain);
        assert forall|i: int| before.len() <= i < shorter.len() implies (
        #[trigger] shorter[i]).src_chain_id() == chain by {
            assert(after[i].src_chain_id() == chain);
        }
        lemma_without_chain_added(before, shorter, chain);
    } else {
        assert(after.take(after.len() as int) == after);
    }
}

/// The workers, each under its object, in the order in which they were
/// started. No object has two workers.
pub struct WorkerMap<W: Worker> {
    objects: Vec<Object>,
    workers: Vec<W>,
}

impl<W: Worker> WorkerMap<W> {
    /// Each worker has its object, and no object has two workers. This
    /// holds of every map that `new` made, after any calls.
    pub closed spec fn wf(&self) -> bool {
        &&& self.objects@.len() == self.workers@.len()
        &&& distinct_objects(self.objects.deep_view())
    }

    /// The objects that have a worker, in the order in which the workers
    /// were started.
    pub closed spec fn object_views(&self) -> Seq<ObjectView> {
        self.objects.deep_view()
    }

    /// The workers, in the order in which they were started.
    pub closed spec fn worker_seq(&self) -> Seq<W> {
        self.workers@
    }

    /// In a well-formed map no object has two workers.
    pub proof fn lemma_distinct(&self)
        requires
            self.wf(),
        ensures
            distinct_objects(self.object_views()),
            self.worker_seq().len() == self.object_views().len(),
    {
    }

    pub fn new() -> (r: Self)
        ensures
            r.wf(),
            r.object_views() == Seq::<ObjectView>::empty(),
    {
        let r = WorkerMap { objects: Vec::new(), workers: Vec::new() };
        assert(r.objects.deep_view() =~= Seq::<ObjectView>::empty());
        r
    }

    fn position(&self, object: &Object) -> (r: Option<usize>)
        ensures
            match r {
                Some(i) => i < self.objects@.len() && self.objects@[i as int]@ == object@,
                None => !self.object_views().contains(object@),
            },
    {
        let mut i: usize = 0;
        while i < self.objects.len()
            invariant
                i <= self.objects.len(),
                forall|j: int| 0 <= j < i ==> (#[trigger] self.objects@[j])@ != object@,
            decreases self.objects.len() - i,
        {
            if self.objects[i] == *object {
                return Some(i);
            }
            i = i + 1;
        }
        assert(!self.object_views().contains(object@)) by {
            if self.object_views().contains(object@) {
                let k = choose|k: int|
                    0 <= k < self.object_views().len() && self.object_views()[k] == object@;
                assert(self.objects@[k]@ == object@);
            }
        }
        None
    }

    /// Whether the object has a worker.
    pub fn contains(&self, object: &Object) -> (r: bool)
        ensures
            r == self.object_views().contains(object@),
    {
        match self.position(object) {
            Some(i) => {
                assert(self.object_views()[i as int] == object@);
                true
            },
            None => false,
        }
    }

    /// How many workers there are.
    pub fn len(&self) -> (r: usize)
        ensures
            r == self.object_views().len(),
    {
        self.objects.len()
    }

    /// The objects that have a worker.
    pub fn objects(&self) -> (r: Vec<Object>)
        ensures
            r.deep_view() == self.object_views(),
    {
        let mut out: Vec<Object> = Vec::new();
        let mut i: usize = 0;
        while i < self.objects.len()
            invariant
                i <= self.objects.len(),
                out@.len() == i,
                forall|j: int| 0 <= j < i ==> out@[j] == self.objects@[j],
            decreases self.objects.len() - i,
        {
            out.push(self.objects[i].clone());
            i = i + 1;
        }
        assert(out.deep_view() =~= self.objects.deep_view());
        out
    }

    /// The worker of `object`, started where the object has none.
    ///
    /// An object that has a worker keeps it, and the map stays as it is. For
    /// an object without one a worker is started, from the state of the
    /// chains as it is now, and is then the last.
    pub fn get_or_spawn<Chain: ChainHandle>(
        &mut self,
        object: Object,
        src: Chain,
        dst: Chain,
        config: &Config,
    ) -> (r: usize)
        requires
            old(self).wf(),
        ensures
            final(self).wf(),
            final(self).object_views() == if old(self).object_views().contains(object@) {
                old(self).object_views()
            } else {
                old(self).object_views().push(object@)
            },
            r < final(self).object_views().len(),
            final(self).object_views()[r as int] == object@,
            final(self).worker_seq().len() == final(self).object_views().len(),
            if old(self).object_views().contains(object@) {
                final(self).worker_seq() == old(self).worker_seq()
            } else {
                exists|started: W| #[trigger]
                    call_ensures(W::spawn::<Chain>, (&object, src, dst, config), started)
                        && final(self).worker_seq() == old(self).worker_seq().push(started)
            },
    {
        match self.position(&object) {
            Some(i) => {
                assert(self.object_views()[i as int] == object@);
                i
            },
            None => {
                let worker = W::spawn(&object, src, dst, config);
                let ghost before = self.objects.deep_view();
                assert(call_ensures(W::spawn::<Chain>, (&object, src, dst, config), worker));
                self.objects.push(object);
                self.workers.push(worker);
                proof {
                    assert(self.objects.deep_view() =~= before.push(object@));
                    assert forall|i: int, j: int|
                        0 <= i < j < self.objects.deep_view().len() implies self.objects.deep_view()[i]
                        != self.objects.deep_view()[j] by {
                        if j == before.len() {
                            if before[i] == object@ {
                                assert(before.contains(object@));
                            }
                        } else {
                            assert(before[i] != before[j]);
                        }
                    }
                }
                self.objects.len() - 1
            },
        }
    }

    /// The worker at place `i`.
    pub fn worker(&self, i: usize) -> (r: &W)
        requires
            self.wf(),
            i < self.object_views().len(),
        ensures
            *r == self.worker_seq()[i as int],
    {
        &self.workers[i]
    }

    fn selection(&self, chain_id: &ChainId, notify: bool) -> (r: Vec<&W>)
        requires
            self.wf(),
        ensures
            r@.len() == select(self.object_views(), self.worker_seq(), chain_id@, notify).len(),
            forall|k: int|
                0 <= k < r@.len() ==> *(#[trigger] r@[k]) == select(
                    self.object_views(),
                    self.worker_seq(),
                    chain_id@,
                    notify,
                )[k],
    {
        let mut out: Vec<&W> = Vec::new();
        let mut i: usize = 0;
        let ghost objects = self.object_views();
        let ghost workers = self.worker_seq();
        while i < self.objects.len()
            invariant
                i <= self.objects.len(),
                self.objects@.len() == self.workers@.len(),
                objects == self.objects.deep_view(),
                workers == self.workers@,
                out@.len() == select(objects.take(i as int), workers.take(i as int), chain_id@, notify).len(),
                forall|k: int|
                    0 <= k < out@.len() ==> *(#[trigger] out@[k]) == select(
                        objects.take(i as int),
                        workers.take(i as int),
                        chain_id@,
                        notify,
                    )[k],
            decreases self.objects.len() - i,
        {
            let wanted = if notify {
                self.objects[i].notify_new_block(chain_id)
            } else {
                self.objects[i].for_chain(chain_id)
            };
            proof {
                assert(objects.take(i + 1).drop_last() == objects.take(i as int));
                assert(workers.take(i + 1).drop_last() == workers.take(i as int));
                assert(objects.take(i + 1).last() == self.objects@[i as int]@);
                assert(wanted == concerns(objects.take(i + 1).last(), chain_id@, notify));
            }
            if wanted {
                out.push(&self.workers[i]);
            }
            i = i + 1;
        }
        proof {
            assert(objects.take(objects.len() as int) == objects);
            assert(workers.take(workers.len() as int) == workers);
        }
        out
    }

    /// The workers whose object has the chain as its source, in the order in
    /// which they were started.
    pub fn workers_for_chain(&self, chain_id: &ChainId) -> (r: Vec<&W>)
        requires
            self.wf(),
        ensures
            r@.len() == select(self.object_views(), self.worker_seq(), chain_id@, false).len(),
            forall|k: int|
                0 <= k < r@.len() ==> *(#[trigger] r@[k]) == select(
                    self.object_views(),
                    self.worker_seq(),
                    chain_id@,
                    false,
                )[k],
    {
        self.selection(chain_id, false)
    }

    /// The workers that are told of the new blocks of the chain: those whose
    /// object has the chain as its source, but for the workers of clients.
    pub fn to_notify(&self, src_chain_id: &ChainId) -> (r: Vec<&W>)
        requires
            self.wf(),
        ensures
            r@.len() == select(self.object_views(), self.worker_seq(), src_chain_id@, true).len(),
            forall|k: int|
                0 <= k < r@.len() ==> *(#[trigger] r@[k]) == select(
                    self.object_views(),
                    self.worker_seq(),
                    src_chain_id@,
                    true,
                )[k],
    {
        self.selection(src_chain_id, true)
    }

    /// Stops the workers whose object has the chain as its source, and
    /// forgets them. The others stay, in their order.
    pub fn shutdown_workers_for_chain(&mut self, chain_id: &ChainId)
        requires
            old(self).wf(),
        ensures
            final(self).wf(),
            final(self).object_views() == without_chain(old(self).object_views(), chain_id@),
            final(self).worker_seq() == workers_without_chain(
                old(self).object_views(),
                old(self).worker_seq(),
                chain_id@,
            ),
            forall|k: int|
                0 <= k < old(self).object_views().len() && (
                #[trigger] old(self).object_views()[k]).src_chain_id() == chain_id@ ==> is_stopped(
                    old(self).worker_seq()[k],
                ),
    {
        let ghost all = self.objects.deep_view();
        let ghost held = self.workers@;
        let mut kept_objects: Vec<Object> = Vec::new();
        let mut kept_workers: Vec<W> = Vec::new();
        let mut i: usize = 0;
        let n = self.objects.len();
        while self.objects.len() > 0
            invariant
                self.objects@.len() == self.workers@.len(),
                kept_objects@.len() == kept_workers@.len(),
                i + self.objects@.len() == n,
                n == all.len(),
                self.objects.deep_view() == all.skip(i as int),
                self.workers@ == held.skip(i as int),
                held.len() == all.len(),
                kept_objects.deep_view() == without_chain(all.take(i as int), chain_id@),
                kept_workers@ == workers_without_chain(
                    all.take(i as int),
                    held.take(i as int),
                    chain_id@,
                ),
                forall|k: int|
                    0 <= k < i && (#[trigger] all[k]).src_chain_id() == chain_id@ ==> is_stopped(
                        held[k],
                    ),
            decreases self.objects.len(),
        {
            let ghost left = self.objects@;
            let ghost left_views = self.objects.deep_view();
            let object = self.objects.remove(0);
            let worker = self.workers.remove(0);
            proof {
                assert(worker == held[i as int]);
                assert(self.workers@ =~= held.skip(i + 1));
                assert(held.take(i + 1).drop_last() == held.take(i as int));
                assert(held.take(i + 1).last() == worker);
                assert(object@ == left_views[0]);
                assert(object@ == all.skip(i as int)[0]);
                assert(self.objects@ == left.remove(0));
                assert forall|k: int| 0 <= k < self.objects@.len() implies self.objects.deep_view()[k]
                    == all.skip(i + 1)[k] by {
                    assert(self.objects@[k] == left[k + 1]);
                    assert(left_views[k + 1] == left[k + 1]@);
                }
                assert(self.objects.deep_view() =~= all.skip(i + 1));
                assert(all.take(i + 1).drop_last() == all.take(i as int));
                assert(all.take(i + 1).last() == object@);
            }
            let ghost before = kept_objects.deep_view();
            if object.for_chain(chain_id) {
                worker.shutdown();
            } else {
                kept_objects.push(object);
                kept_workers.push(worker);
                assert(kept_objects.deep_view() =~= before.push(object@));
            }
            i = i + 1;
        }
        proof {
            assert(all.take(all.len() as int) == all);
            assert(held.take(held.len() as int) == held);
            assert forall|a: int, b: int|
                0 <= a < b < kept_objects.deep_view().len() implies kept_objects.deep_view()[a]
                != kept_objects.deep_view()[b] by {
                lemma_without_chain_distinct(all, chain_id@);
            }
        }
        self.objects = kept_objects;
        self.workers = kept_workers;
    }

    /// Stops every worker, and forgets them all.
    pub fn shutdown(&mut self)
        requires
            old(self).wf(),
        ensures
            final(self).wf(),
            final(self).object_views() == Seq::<ObjectView>::empty(),
            final(self).worker_seq() == Seq::<W>::empty(),
            forall|k: int|
                0 <= k < old(self).worker_seq().len() ==> is_stopped(
                    #[trigger] old(self).worker_seq()[k],
                ),
    {
        let ghost held = self.workers@;
        let ghost mut i: int = 0;
        while self.workers.len() > 0
            invariant
                0 <= i <= held.len(),
                self.workers@ == held.skip(i),
                forall|k: int| 0 <= k < i ==> is_stopped(#[trigger] held[k]),
            decreases self.workers.len(),
        {
            let worker = self.workers.remove(0);
            worker.shutdown();
            proof {
                assert(worker == held[i]);
                assert(self.workers@ =~= held.skip(i + 1));
                i = i + 1;
            }
        }
        assert(self.workers@ =~= Seq::<W>::empty());
        self.objects = Vec::new();
        assert(self.objects.deep_view() =~= Seq::<ObjectView>::empty());
    }
}

/// Where no two objects are the same, no two of those left without a chain
/// are.
pub proof fn lemma_without_chain_distinct(objects: Seq<ObjectView>, chain: Seq<char>)
    requires
        distinct_objects(objects),
    ensures
        distinct_objects(without_chain(objects, chain)),
    decreases objects.len(),
{
    if objects.len() > 0 {
        let shorter = objects.drop_last();
        assert(distinct_objects(shorter)) by {
            assert forall|a: int, b: int| 0 <= a < b < shorter.len() implies shorter[a]
                != shorter[b] by {
                assert(objects[a] != objects[b]);
            }
        }
        lemma_without_chain_distinct(shorter, chain);
        let rest = without_chain(shorter, chain);
        if objects.last().src_chain_id() != chain {
            let longer = rest.push(objects.last());
            assert forall|a: int, b: int| 0 <= a < b < longer.len() implies longer[a]
                != longer[b] by {
                if b == rest.len() {
                    if rest[a] == objects.last() {
                        assert(rest.contains(objects.last()));
                        lemma_without_chain_contains(shorter, chain, objects.last());
                        let k = choose|k: int| 0 <= k < shorter.len() && shorter[k] == objects.last();
                        assert(objects[k] != objects[objects.len() - 1]);
                    }
                } else {
                    assert(rest[a] != rest[b]);
                }
            }
        }
    }
}

} // verus!
