//! Fan-out of one message to every sink registered when its round began.

use crate::registry::{
    deliver, deliver_to, delivery_of, has_id, ids_unique, lemma_deliver_to_at, sinks_wf,
    Delivery, RegistryView, SinkKind, SinkRegistry, SinkView, take_from,
};
use vstd::prelude::*;

verus! {

/// Every sink takes `m` by its own rule.
pub open spec fn deliver_all(sinks: Seq<SinkView>, m: String) -> Seq<SinkView> {
    sinks.map_values(|s: SinkView| deliver(s, m))
}

/// Identities of the storage sinks that found their queue full, in order.
pub open spec fn full_storage_ids(sinks: Seq<SinkView>) -> Seq<u64>
    decreases sinks.len(),
{
    if sinks.len() == 0 {
        Seq::empty()
    } else {
        let rest = full_storage_ids(sinks.drop_last());
        if delivery_of(sinks.last()) == Delivery::StorageFull {
            rest.push(sinks.last().id)
        } else {
            rest
        }
    }
}

/// The first `k` sinks have taken `m`, the others not yet.
pub open spec fn delivered_up_to(sinks: Seq<SinkView>, m: String, k: int) -> Seq<SinkView> {
    Seq::new(sinks.len(), |j: int| if j < k { deliver(sinks[j], m) } else { sinks[j] })
}

pub struct RoundView {
    pub message: String,
    /// The registry's identities when the round began.
    pub targets: Seq<u64>,
    /// How many targets have had their turn.
    pub next: nat,
    /// Storage sinks that were full on their turn.
    pub waiting: Seq<u64>,
}

/// One dispatch round in progress. The registry may change between steps.
pub struct DispatchRound {
    message: String,
    targets: Vec<u64>,
    next: usize,
    waiting: Vec<u64>,
}

impl View for DispatchRound {
    type V = RoundView;

    closed spec fn view(&self) -> RoundView {
        RoundView {
            message: self.message,
            targets: self.targets@,
            next: self.next as nat,
            waiting: self.waiting@,
        }
    }
}

impl DispatchRound {
    pub open spec fn wf(&self) -> bool {
        self@.next <= self@.targets.len()
    }

    /// Starts a round for `m` over a snapshot of the registry.
    pub fn begin(reg: &SinkRegistry, m: String) -> (r: DispatchRound)
        ensures
            r.wf(),
            r@ == (RoundView {
                message: m,
                targets: reg@.sinks.map_values(|s: SinkView| s.id),
                next: 0,
                waiting: Seq::empty(),
            }),
    {
        let r = DispatchRound { message: m, targets: reg.snapshot(), next: 0, waiting: Vec::new() };
        assert(r@.waiting =~= Seq::<u64>::empty());
        r
    }

    pub fn is_done(&self) -> (r: bool)
        ensures
            r == (self@.next >= self@.targets.len()),
    {
        self.next >= self.targets.len()
    }

    /// Storage sinks that were full on their turn, in turn order.
    pub fn waiting(&self) -> (r: Vec<u64>)
        ensures
            r@ == self@.waiting,
    {
        self.waiting.clone()
    }

    /// Gives the next target its turn: a non-blocking delivery to it if it is
    /// still registered, nothing at all if it has left.
    pub fn step(&mut self, reg: &mut SinkRegistry) -> (r: Delivery)
        requires
            old(self).wf(),
            old(reg).wf(),
            old(self)@.next < old(self)@.targets.len(),
        ensures
            final(self).wf(),
            final(reg).wf(),
            ({
                let t = old(self)@.targets[old(self)@.next as int];
                &&& final(reg)@ == (RegistryView {
                    sinks: deliver_to(old(reg)@.sinks, t, old(self)@.message),
                    ..old(reg)@
                })
                &&& !has_id(old(reg)@.sinks, t) ==> r == Delivery::NotRegistered
                &&& forall|i: int|
                    0 <= i < old(reg)@.sinks.len() && old(reg)@.sinks[i].id == t ==> r
                        == delivery_of(#[trigger] old(reg)@.sinks[i])
                &&& final(self)@ == (RoundView {
                    next: old(self)@.next + 1,
                    waiting: if r == Delivery::StorageFull {
                        old(self)@.waiting.push(t)
                    } else {
                        old(self)@.waiting
                    },
                    ..old(self)@
                })
            }),
    {
        let ghost len = self.targets.len();
        assert(self.next < len);
        let t = self.targets[self.next];
        let r = reg.deliver(t, &self.message);
        if r == Delivery::StorageFull {
            self.waiting.push(t);
        }
        self.next = self.next + 1;
        r
    }
}

proof fn lemma_step_round(sinks: Seq<SinkView>, m: String, k: int)
    requires
        ids_unique(sinks),
        0 <= k < sinks.len(),
    ensures
        ids_unique(delivered_up_to(sinks, m, k)),
        delivered_up_to(sinks, m, k)[k] == sinks[k],
        deliver_to(delivered_up_to(sinks, m, k), sinks[k].id, m) == delivered_up_to(
            sinks,
            m,
            k + 1,
        ),
{
    let p = delivered_up_to(sinks, m, k);
    assert forall|a: int, b: int|
        0 <= a < p.len() && 0 <= b < p.len() && a != b implies p[a].id != p[b].id by {
        assert(p[a].id == sinks[a].id && p[b].id == sinks[b].id);
    }
    lemma_deliver_to_at(p, k, m);
    assert(p.update(k, deliver(p[k], m)) =~= delivered_up_to(sinks, m, k + 1));
}

/// Dispatches `m` to every registered sink, in registration order. Returns
/// the storage sinks that were full, which the caller waits on and then
/// settles with `resolve_storage_wait`.
pub fn dispatch(reg: &mut SinkRegistry, m: String) -> (waiting: Vec<u64>)
    requires
        old(reg).wf(),
    ensures
        final(reg).wf(),
        final(reg)@ == (RegistryView { sinks: deliver_all(old(reg)@.sinks, m), ..old(reg)@ }),
        waiting@ == full_storage_ids(old(reg)@.sinks),
{
    let ghost s0 = reg@.sinks;
    let mut round = DispatchRound::begin(reg, m);
    proof {
        assert(delivered_up_to(s0, m, 0) =~= s0);
        assert(s0.subrange(0, 0) =~= Seq::<SinkView>::empty());
    }
    while !round.is_done()
        invariant
            round.wf(),
            reg.wf(),
            round@.message == m,
            round@.targets == s0.map_values(|s: SinkView| s.id),
            reg@ == (RegistryView { sinks: delivered_up_to(s0, m, round@.next as int), ..old(reg)@ }),
            round@.waiting == full_storage_ids(s0.subrange(0, round@.next as int)),
            ids_unique(s0),
        decreases round@.targets.len() - round@.next,
    {
        let ghost k = round@.next as int;
        proof {
            lemma_step_round(s0, m, k);
        }
        let r = round.step(reg);
        proof {
            let p = delivered_up_to(s0, m, k);
            assert(p[k].id == s0[k].id);
            assert(r == delivery_of(s0[k]));
            assert(s0.subrange(0, k + 1).drop_last() =~= s0.subrange(0, k));
        }
    }
    proof {
        assert(delivered_up_to(s0, m, s0.len() as int) =~= deliver_all(s0, m));
        assert(s0.subrange(0, s0.len() as int) =~= s0);
    }
    round.waiting
}

/// One thing that happens to the registered sinks: a dispatch round, or a
/// sink's consumer taking its oldest queued message.
pub enum FanOutStep {
    Dispatch { m: String },
    Take { id: u64 },
}

pub open spec fn apply_step(sinks: Seq<SinkView>, st: FanOutStep) -> Seq<SinkView> {
    match st {
        FanOutStep::Dispatch { m } => deliver_all(sinks, m),
        FanOutStep::Take { id } => take_from(sinks, id),
    }
}

/// `sinks` after each step of `steps`, in order.
pub open spec fn run(sinks: Seq<SinkView>, steps: Seq<FanOutStep>) -> Seq<SinkView>
    decreases steps.len(),
{
    if steps.len() == 0 {
        sinks
    } else {
        apply_step(run(sinks, steps.drop_last()), steps.last())
    }
}

/// The messages dispatched by `steps`, in order.
pub open spec fn dispatched(steps: Seq<FanOutStep>) -> Seq<String>
    decreases steps.len(),
{
    if steps.len() == 0 {
        Seq::empty()
    } else {
        let rest = dispatched(steps.drop_last());
        match steps.last() {
            FanOutStep::Dispatch { m } => rest.push(m),
            FanOutStep::Take { .. } => rest,
        }
    }
}

/// The sink at position `i` has room in its queue at every dispatch of
/// `steps`: its consumer keeps pace.
pub open spec fn keeps_room(sinks: Seq<SinkView>, steps: Seq<FanOutStep>, i: int) -> bool {
    forall|k: int|
        0 <= k < steps.len() && (#[trigger] steps[k]) is Dispatch ==> !run(
            sinks,
            steps.take(k),
        )[i].queue.is_full()
}

proof fn lemma_run_with_room(sinks: Seq<SinkView>, steps: Seq<FanOutStep>, i: int)
    requires
        0 <= i < sinks.len(),
        sinks[i].queue.wf(),
        keeps_room(sinks, steps, i),
    ensures
        run(sinks, steps).len() == sinks.len(),
        run(sinks, steps)[i].id == sinks[i].id,
        run(sinks, steps)[i].kind == sinks[i].kind,
        run(sinks, steps)[i].queue.wf(),
        run(sinks, steps)[i].queue.dropped == sinks[i].queue.dropped,
        run(sinks, steps)[i].queue.accepted == sinks[i].queue.accepted + dispatched(steps),
    decreases steps.len(),
{
    if steps.len() == 0 {
        assert(sinks[i].queue.accepted + dispatched(steps) =~= sinks[i].queue.accepted);
    } else {
        let init = steps.drop_last();
        assert forall|k: int|
            0 <= k < init.len() && (#[trigger] init[k]) is Dispatch implies !run(
                sinks,
                init.take(k),
            )[i].queue.is_full() by {
            assert(init.take(k) =~= steps.take(k));
            assert(steps[k] == init[k]);
        }
        lemma_run_with_room(sinks, init, i);
        let prev = run(sinks, init);
        let q = prev[i].queue;
        match steps.last() {
            FanOutStep::Dispatch { m } => {
                let k = steps.len() - 1;
                assert(steps.take(k) =~= init);
                assert(steps[k] is Dispatch);
                assert(!q.is_full());
                assert(q.accepted.push(m) =~= sinks[i].queue.accepted + dispatched(steps));
                if q.dropped == 0 {
                    assert(q.taken + q.items.push(m) =~= (q.taken + q.items).push(m));
                }
            },
            FanOutStep::Take { id } => {
                if prev[i].id == id && q.items.len() > 0 {
                    if q.dropped == 0 {
                        assert(q.taken.push(q.items[0]) + q.items.drop_first() =~= q.taken
                            + q.items);
                    }
                }
            },
        }
    }
}

/// Completeness of storage: a storage sink whose consumer keeps pace is
/// handed every dispatched message, in dispatch order, and what its
/// consumer has taken followed by what is still queued is exactly
/// everything dispatched since it registered.
pub proof fn lemma_storage_receives_every_message(
    sinks: Seq<SinkView>,
    steps: Seq<FanOutStep>,
    i: int,
)
    requires
        sinks_wf(sinks),
        0 <= i < sinks.len(),
        sinks[i].kind == SinkKind::Storage,
        keeps_room(sinks, steps, i),
    ensures
        run(sinks, steps)[i].queue.accepted == sinks[i].queue.accepted + dispatched(steps),
        run(sinks, steps)[i].queue.dropped == 0,
        run(sinks, steps)[i].queue.taken + run(sinks, steps)[i].queue.items
            == sinks[i].queue.taken + sinks[i].queue.items + dispatched(steps),
{
    lemma_run_with_room(sinks, steps, i);
}

/// A live viewer whose consumer keeps pace receives exactly the messages
/// dispatched while it is registered, in order, and none is dropped.
pub proof fn lemma_viewer_keeping_pace_misses_nothing(
    sinks: Seq<SinkView>,
    steps: Seq<FanOutStep>,
    i: int,
)
    requires
        sinks_wf(sinks),
        0 <= i < sinks.len(),
        sinks[i].kind == SinkKind::LiveViewer,
        sinks[i].queue.dropped == 0,
        keeps_room(sinks, steps, i),
    ensures
        run(sinks, steps)[i].queue.dropped == 0,
        run(sinks, steps)[i].queue.taken + run(sinks, steps)[i].queue.items
            == sinks[i].queue.taken + sinks[i].queue.items + dispatched(steps),
{
    lemma_run_with_room(sinks, steps, i);
}

/// A live viewer with a full queue: the next message pushes out exactly the
/// oldest queued one, the queue stays at capacity, and the drop counter goes
/// up by one.
pub proof fn lemma_full_viewer_drops_oldest(s: SinkView, m: String)
    requires
        s.queue.wf(),
        s.kind == SinkKind::LiveViewer,
        s.queue.is_full(),
        s.queue.dropped < u64::MAX,
    ensures
        deliver(s, m).queue.items == s.queue.items.drop_first().push(m),
        deliver(s, m).queue.items.len() == s.queue.capacity,
        deliver(s, m).queue.dropped == s.queue.dropped + 1,
        deliver(s, m).queue.accepted == s.queue.accepted.push(m),
        delivery_of(s) == Delivery::EnqueuedDroppingOldest,
{
}

/// A sink deregistered while a round is in progress: its later turn in the
/// round delivers nothing and changes nothing, and every other sink's turn
/// delivers to it exactly what it would have delivered with the removed sink
/// still there.
pub proof fn lemma_deregistered_sink_skipped(sinks: Seq<SinkView>, i: int, m: String, t: u64)
    requires
        sinks_wf(sinks),
        0 <= i < sinks.len(),
    ensures
        !has_id(sinks.remove(i), sinks[i].id),
        deliver_to(sinks.remove(i), sinks[i].id, m) == sinks.remove(i),
        t != sinks[i].id ==> deliver_to(sinks.remove(i), t, m) == deliver_to(sinks, t, m).remove(
            i,
        ),
{
    let rest = sinks.remove(i);
    assert forall|j: int| 0 <= j < rest.len() implies rest[j].id != sinks[i].id by {
        let j2 = if j < i { j } else { j + 1 };
        assert(rest[j] == sinks[j2]);
    }
    assert(deliver_to(rest, sinks[i].id, m) =~= rest);
    assert(deliver_to(rest, t, m) =~= deliver_to(sinks, t, m).remove(i));
}

} // verus!
