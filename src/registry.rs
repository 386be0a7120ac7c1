//! Registry of the sinks that dispatched messages go to, and the fan-out
//! rules applied to each of them.

use crate::queue::{QueueView, SinkQueue};
use vstd::prelude::*;

verus! {

#[derive(Clone, Copy, Debug, PartialEq, Eq, Structural)]
pub enum SinkKind {
    /// A live viewer: wants fresh data over complete data.
    LiveViewer,
    /// The durable store: must see every message.
    Storage,
}

#[derive(Clone, Copy, Debug, PartialEq, Eq, Structural)]
pub enum SinkState {
    Active,
    /// A storage sink whose queue was full; the dispatcher waits on it.
    Draining,
    /// Left the registry; the registry never holds a closed sink.
    Closed,
}

#[derive(Clone, Copy, Debug, PartialEq, Eq, Structural)]
pub enum RegistryError {
    ShuttingDown,
}

/// What one delivery attempt did to a sink.
#[derive(Clone, Copy, Debug, PartialEq, Eq, Structural)]
pub enum Delivery {
    Enqueued,
    /// A live viewer's full queue dropped its oldest message for the new one.
    EnqueuedDroppingOldest,
    /// A storage sink's queue was full: the message waits for
    /// `resolve_storage_wait`.
    StorageFull,
    /// The sink left the registry before its turn came.
    NotRegistered,
}

/// Outcome of the bounded wait on a full storage sink.
#[derive(Clone, Copy, Debug, PartialEq, Eq, Structural)]
pub enum WaitOutcome {
    Enqueued,
    /// Still full when the wait ended: the sink was closed and removed.
    Closed,
    NotRegistered,
}

/// A copy of one sink's bookkeeping.
#[derive(Clone, Copy, Debug, PartialEq, Eq, Structural)]
pub struct SinkStatus {
    pub kind: SinkKind,
    pub state: SinkState,
    pub queued: usize,
    pub capacity: usize,
    pub dropped: u64,
}

pub struct SinkView {
    pub id: u64,
    pub kind: SinkKind,
    pub state: SinkState,
    pub queue: QueueView,
}

pub struct Sink {
    id: u64,
    kind: SinkKind,
    state: SinkState,
    queue: SinkQueue,
}

impl View for Sink {
    type V = SinkView;

    closed spec fn view(&self) -> SinkView {
        SinkView { id: self.id, kind: self.kind, state: self.state, queue: self.queue@ }
    }
}

/// The fan-out rule for one sink and one message.
pub open spec fn deliver(s: SinkView, m: String) -> SinkView {
    if !s.queue.is_full() {
        SinkView { queue: s.queue.enqueue(m), ..s }
    } else if s.kind == SinkKind::LiveViewer {
        SinkView { queue: s.queue.evict_and_enqueue(m), ..s }
    } else {
        SinkView { state: SinkState::Draining, ..s }
    }
}

pub open spec fn delivery_of(s: SinkView) -> Delivery {
    if !s.queue.is_full() {
        Delivery::Enqueued
    } else if s.kind == SinkKind::LiveViewer {
        Delivery::EnqueuedDroppingOldest
    } else {
        Delivery::StorageFull
    }
}

/// Delivers `m` to the sink called `id`, if it is registered.
pub open spec fn deliver_to(sinks: Seq<SinkView>, id: u64, m: String) -> Seq<SinkView> {
    sinks.map_values(|s: SinkView| if s.id == id { deliver(s, m) } else { s })
}

pub open spec fn has_id(sinks: Seq<SinkView>, id: u64) -> bool {
    exists|i: int| 0 <= i < sinks.len() && sinks[i].id == id
}

pub open spec fn ids_unique(sinks: Seq<SinkView>) -> bool {
    forall|i: int, j: int| 0 <= i < sinks.len() && 0 <= j < sinks.len() && i != j
        ==> sinks[i].id != sinks[j].id
}

pub open spec fn sinks_wf(sinks: Seq<SinkView>) -> bool {
    &&& ids_unique(sinks)
    &&& forall|i: int| 0 <= i < sinks.len() ==> (#[trigger] sinks[i]).queue.wf()
    &&& forall|i: int| 0 <= i < sinks.len() ==> (#[trigger] sinks[i]).state != SinkState::Closed
    &&& forall|i: int|
        0 <= i < sinks.len() && (#[trigger] sinks[i]).kind == SinkKind::Storage
            ==> sinks[i].queue.dropped == 0
}

/// Delivering to a registered sink changes that sink alone.
pub proof fn lemma_deliver_to_at(sinks: Seq<SinkView>, i: int, m: String)
    requires
        ids_unique(sinks),
        0 <= i < sinks.len(),
    ensures
        deliver_to(sinks, sinks[i].id, m) == sinks.update(i, deliver(sinks[i], m)),
{
    assert(deliver_to(sinks, sinks[i].id, m) =~= sinks.update(i, deliver(sinks[i], m)));
}

/// Delivering to an identity that is not registered changes nothing.
pub proof fn lemma_deliver_to_absent(sinks: Seq<SinkView>, id: u64, m: String)
    requires
        !has_id(sinks, id),
    ensures
        deliver_to(sinks, id, m) == sinks,
{
    assert forall|j: int| 0 <= j < sinks.len() implies sinks[j].id != id by {
        if sinks[j].id == id {
            assert(has_id(sinks, id));
        }
    }
    assert(deliver_to(sinks, id, m) =~= sinks);
}

/// The consumer of the sink called `id` takes its oldest queued message.
pub open spec fn take_from(sinks: Seq<SinkView>, id: u64) -> Seq<SinkView> {
    sinks.map_values(
        |s: SinkView| if s.id == id { SinkView { queue: s.queue.take_front(), ..s } } else { s },
    )
}

/// A storage sink that was waited on: it takes the message if there is room
/// now, and leaves the registry otherwise.
pub open spec fn wait_resolved(s: SinkView, m: String) -> SinkView {
    SinkView { queue: s.queue.enqueue(m), state: SinkState::Active, ..s }
}

proof fn lemma_update_keeps_wf(o: Seq<SinkView>, i: int, v: SinkView, next_id: nat)
    requires
        sinks_wf(o),
        forall|j: int| 0 <= j < o.len() ==> (#[trigger] o[j]).id < next_id,
        0 <= i < o.len(),
        v.id == o[i].id,
        v.queue.wf(),
        v.state != SinkState::Closed,
        v.kind == SinkKind::Storage ==> v.queue.dropped == 0,
    ensures
        sinks_wf(o.update(i, v)),
        forall|j: int| 0 <= j < o.len() ==> (#[trigger] o.update(i, v)[j]).id < next_id,
{
    let n = o.update(i, v);
    assert forall|a: int, b: int|
        0 <= a < n.len() && 0 <= b < n.len() && a != b implies n[a].id != n[b].id by {
        assert(n[a].id == o[a].id && n[b].id == o[b].id);
    }
    assert forall|j: int| 0 <= j < n.len() implies (#[trigger] n[j]).id < next_id by {
        assert(n[j].id == o[j].id);
    }
}

pub struct RegistryView {
    pub sinks: Seq<SinkView>,
    pub next_id: nat,
    pub shutting_down: bool,
}

pub struct SinkRegistry {
    sinks: Vec<Sink>,
    next_id: u64,
    shutting_down: bool,
}

impl View for SinkRegistry {
    type V = RegistryView;

    closed spec fn view(&self) -> RegistryView {
        RegistryView {
            sinks: self.sinks@.map_values(|s: Sink| s@),
            next_id: self.next_id as nat,
            shutting_down: self.shutting_down,
        }
    }
}

impl SinkRegistry {
    pub open spec fn wf(&self) -> bool {
        &&& sinks_wf(self@.sinks)
        &&& forall|i: int| 0 <= i < self@.sinks.len() ==> (#[trigger] self@.sinks[i]).id
            < self@.next_id
    }

    pub fn new() -> (r: SinkRegistry)
        ensures
            r.wf(),
            r@.sinks == Seq::<SinkView>::empty(),
            r@.next_id == 0,
            !r@.shutting_down,
    {
        let r = SinkRegistry { sinks: Vec::new(), next_id: 0, shutting_down: false };
        assert(r@.sinks =~= Seq::<SinkView>::empty());
        r
    }

    /// Identity that the next registered sink gets.
    pub fn next_id(&self) -> (r: u64)
        ensures
            r == self@.next_id,
    {
        self.next_id
    }

    pub fn len(&self) -> (r: usize)
        ensures
            r == self@.sinks.len(),
    {
        self.sinks.len()
    }

    /// Adds an `Active` sink with an empty queue of the given capacity.
    /// Fails only once the registry is shutting down.
    pub fn register(&mut self, kind: SinkKind, capacity: usize) -> (r: Result<u64, RegistryError>)
        requires
            old(self).wf(),
            capacity > 0,
            old(self)@.next_id < u64::MAX,
        ensures
            final(self).wf(),
            old(self)@.shutting_down <==> r == Err::<u64, RegistryError>(RegistryError::ShuttingDown),
            old(self)@.shutting_down ==> final(self)@ == old(self)@,
            !old(self)@.shutting_down ==> r == Ok::<u64, RegistryError>(old(self)@.next_id as u64)
                && final(self)@ == (RegistryView {
                sinks: old(self)@.sinks.push(
                    SinkView {
                        id: old(self)@.next_id as u64,
                        kind,
                        state: SinkState::Active,
                        queue: QueueView {
                            items: Seq::empty(),
                            capacity: capacity as nat,
                            dropped: 0,
                            accepted: Seq::empty(),
                            taken: Seq::empty(),
                        },
                    },
                ),
                next_id: old(self)@.next_id + 1,
                shutting_down: false,
            }),
    {
        if self.shutting_down {
            return Err(RegistryError::ShuttingDown);
        }
        let id = self.next_id;
        let queue = SinkQueue::new(capacity);
        let sink = Sink { id, kind, state: SinkState::Active, queue };
        self.sinks.push(sink);
        self.next_id = id + 1;
        proof {
            let o = old(self)@.sinks;
            let n = self@.sinks;
            assert(n =~= o.push(sink@));
            assert forall|i: int| 0 <= i < n.len() implies (#[trigger] n[i]).id < self@.next_id by {
                if i < o.len() {
                    assert(n[i] == o[i]);
                }
            }
        }
        Ok(id)
    }

    /// Position of the sink called `id`.
    fn find(&self, id: u64) -> (r: Option<usize>)
        requires
            self.wf(),
        ensures
            r is None <==> !has_id(self@.sinks, id),
            r matches Some(i) ==> i < self@.sinks.len() && self@.sinks[i as int].id == id,
    {
        let mut i: usize = 0;
        while i < self.sinks.len()
            invariant
                self.wf(),
                i <= self.sinks.len(),
                forall|j: int| 0 <= j < i ==> self@.sinks[j].id != id,
            decreases self.sinks.len() - i,
        {
            if self.sinks[i].id == id {
                return Some(i);
            }
            i = i + 1;
        }
        None
    }

    pub fn contains(&self, id: u64) -> (r: bool)
        requires
            self.wf(),
        ensures
            r == has_id(self@.sinks, id),
    {
        self.find(id).is_some()
    }

    /// Removes the sink called `id`; removing an absent sink does nothing.
    pub fn deregister(&mut self, id: u64) -> (r: bool)
        requires
            old(self).wf(),
        ensures
            final(self).wf(),
            r == has_id(old(self)@.sinks, id),
            !r ==> final(self)@ == old(self)@,
            r ==> exists|i: int|
                0 <= i < old(self)@.sinks.len() && old(self)@.sinks[i].id == id && final(self)@
                    == (RegistryView { sinks: old(self)@.sinks.remove(i), ..old(self)@ }),
            !has_id(final(self)@.sinks, id),
    {
        match self.find(id) {
            None => false,
            Some(i) => {
                self.sinks.remove(i);
                proof {
                    let o = old(self)@.sinks;
                    let n = self@.sinks;
                    assert(n =~= o.remove(i as int));
                    assert forall|a: int, b: int|
                        0 <= a < n.len() && 0 <= b < n.len() && a != b implies n[a].id
                        != n[b].id by {
                        let a2 = if a < i { a } else { a + 1 };
                        let b2 = if b < i { b } else { b + 1 };
                        assert(n[a] == o[a2] && n[b] == o[b2]);
                    }
                    assert forall|j: int| 0 <= j < n.len() implies (#[trigger] n[j]).queue.wf()
                        && n[j].state != SinkState::Closed && n[j].id < self@.next_id by {
                        let j2 = if j < i { j } else { j + 1 };
                        assert(n[j] == o[j2]);
                    }
                    assert forall|j: int| 0 <= j < n.len() implies n[j].id != id by {
                        let j2 = if j < i { j } else { j + 1 };
                        assert(n[j] == o[j2]);
                    }
                    assert(self@ =~= RegistryView { sinks: o.remove(i as int), ..old(self)@ });
                }
                true
            },
        }
    }

    /// Point-in-time copy of the registered identities, in registration order.
    pub fn snapshot(&self) -> (r: Vec<u64>)
        ensures
            r@ == self@.sinks.map_values(|s: SinkView| s.id),
    {
        let mut r: Vec<u64> = Vec::new();
        let mut i: usize = 0;
        while i < self.sinks.len()
            invariant
                i <= self.sinks.len(),
                r@ == self@.sinks.subrange(0, i as int).map_values(|s: SinkView| s.id),
            decreases self.sinks.len() - i,
        {
            r.push(self.sinks[i].id);
            i = i + 1;
            assert(self@.sinks.subrange(0, i as int).map_values(|s: SinkView| s.id)
                =~= r@);
        }
        assert(self@.sinks.subrange(0, i as int) =~= self@.sinks);
        r
    }

    /// Stops further registrations.
    pub fn shutdown(&mut self)
        requires
            old(self).wf(),
        ensures
            final(self).wf(),
            final(self)@ == (RegistryView { shutting_down: true, ..old(self)@ }),
    {
        self.shutting_down = true;
        assert(self@.sinks =~= old(self)@.sinks);
    }
}


impl SinkRegistry {
    /// Takes the sink at `i` out; `put_back` returns it to its place.
    fn take_out(&mut self, i: usize) -> (r: Sink)
        requires
            i < old(self)@.sinks.len(),
        ensures
            r@ == old(self)@.sinks[i as int],
            final(self)@ == (RegistryView {
                sinks: old(self)@.sinks.remove(i as int),
                ..old(self)@
            }),
    {
        let r = self.sinks.remove(i);
        assert(self@.sinks =~= old(self)@.sinks.remove(i as int));
        r
    }

    fn put_back(&mut self, i: usize, s: Sink, Ghost(o): Ghost<Seq<SinkView>>)
        requires
            i <= old(self)@.sinks.len(),
            i < o.len(),
            old(self)@.sinks == o.remove(i as int),
            s@.id == o[i as int].id,
        ensures
            final(self)@ == (RegistryView { sinks: o.update(i as int, s@), ..old(self)@ }),
    {
        let ghost before = self.sinks@;
        self.sinks.insert(i, s);
        assert(self.sinks@ == before.insert(i as int, s));
        assert forall|j: int| 0 <= j < o.len() implies #[trigger] self@.sinks[j] == o.update(
            i as int,
            s@,
        )[j] by {
            if j < i {
                assert(self@.sinks[j] == old(self)@.sinks[j]);
            } else if j > i {
                assert(self@.sinks[j] == old(self)@.sinks[j - 1]);
            }
        }
        assert(self@.sinks =~= o.update(i as int, s@));
    }

    /// One non-blocking delivery of `m` to the sink called `id`.
    pub fn deliver(&mut self, id: u64, m: &String) -> (r: Delivery)
        requires
            old(self).wf(),
        ensures
            final(self).wf(),
            final(self)@ == (RegistryView {
                sinks: deliver_to(old(self)@.sinks, id, *m),
                ..old(self)@
            }),
            !has_id(old(self)@.sinks, id) ==> r == Delivery::NotRegistered,
            forall|i: int|
                0 <= i < old(self)@.sinks.len() && old(self)@.sinks[i].id == id ==> r
                    == delivery_of(#[trigger] old(self)@.sinks[i]),
    {
        match self.find(id) {
            None => {
                proof {
                    lemma_deliver_to_absent(self@.sinks, id, *m);
                    assert(self@ =~= RegistryView { sinks: deliver_to(self@.sinks, id, *m), ..self@ });
                }
                Delivery::NotRegistered
            },
            Some(i) => {
                let ghost o = self@.sinks;
                let mut s = self.take_out(i);
                let r = if !s.queue.is_full() {
                    s.queue.try_push(m.clone());
                    Delivery::Enqueued
                } else if s.kind == SinkKind::LiveViewer {
                    s.queue.push_evicting(m.clone());
                    Delivery::EnqueuedDroppingOldest
                } else {
                    s.state = SinkState::Draining;
                    Delivery::StorageFull
                };
                assert(s@ == deliver(o[i as int], *m));
                self.put_back(i, s, Ghost(o));
                proof {
                    lemma_update_keeps_wf(o, i as int, deliver(o[i as int], *m), self@.next_id);
                    lemma_deliver_to_at(o, i as int, *m);
                    assert forall|j: int|
                        0 <= j < o.len() && o[j].id == id implies j == i by {}
                }
                r
            },
        }
    }

    /// Ends the bounded wait on a storage sink that `deliver` found full:
    /// the message goes in if there is room now; otherwise the sink is
    /// closed and leaves the registry.
    pub fn resolve_storage_wait(&mut self, id: u64, m: &String) -> (r: WaitOutcome)
        requires
            old(self).wf(),
        ensures
            final(self).wf(),
            !has_id(old(self)@.sinks, id) ==> r == WaitOutcome::NotRegistered && final(self)@
                == old(self)@,
            forall|i: int|
                0 <= i < old(self)@.sinks.len() && old(self)@.sinks[i].id == id ==> if !(
                #[trigger] old(self)@.sinks[i]).queue.is_full() {
                    r == WaitOutcome::Enqueued && final(self)@ == (RegistryView {
                        sinks: old(self)@.sinks.update(i, wait_resolved(old(self)@.sinks[i], *m)),
                        ..old(self)@
                    })
                } else {
                    r == WaitOutcome::Closed && final(self)@ == (RegistryView {
                        sinks: old(self)@.sinks.remove(i),
                        ..old(self)@
                    })
                },
    {
        match self.find(id) {
            None => WaitOutcome::NotRegistered,
            Some(i) => {
                let ghost o = self@.sinks;
                if self.sinks[i].queue.is_full() {
                    let removed = self.deregister(id);
                    proof {
                        let k = choose|k: int|
                            0 <= k < o.len() && o[k].id == id && self@ == (RegistryView {
                                sinks: o.remove(k),
                                ..old(self)@
                            });
                        assert(k == i);
                        assert forall|j: int| 0 <= j < o.len() && o[j].id == id implies j
                            == i by {}
                    }
                    WaitOutcome::Closed
                } else {
                    let mut s = self.take_out(i);
                    s.queue.try_push(m.clone());
                    s.state = SinkState::Active;
                    assert(s@ == wait_resolved(o[i as int], *m));
                    self.put_back(i, s, Ghost(o));
                    proof {
                        lemma_update_keeps_wf(o, i as int, s@, self@.next_id);
                        assert forall|j: int| 0 <= j < o.len() && o[j].id == id implies j
                            == i by {}
                    }
                    WaitOutcome::Enqueued
                }
            },
        }
    }

    /// The consumer of the sink called `id` takes its oldest queued message.
    pub fn take_next(&mut self, id: u64) -> (r: Option<String>)
        requires
            old(self).wf(),
        ensures
            final(self).wf(),
            final(self)@ == (RegistryView { sinks: take_from(old(self)@.sinks, id), ..old(self)@ }),
            !has_id(old(self)@.sinks, id) ==> r is None,
            forall|i: int|
                0 <= i < old(self)@.sinks.len() && old(self)@.sinks[i].id == id ==> {
                    let s = #[trigger] old(self)@.sinks[i];
                    &&& s.queue.items.len() == 0 ==> r is None
                    &&& s.queue.items.len() > 0 ==> r == Some(s.queue.items[0])
                },
    {
        match self.find(id) {
            None => {
                proof {
                    let o = self@.sinks;
                    assert forall|j: int| 0 <= j < o.len() implies o[j].id != id by {
                        if o[j].id == id {
                            assert(has_id(o, id));
                        }
                    }
                    assert(take_from(o, id) =~= o);
                    assert(self@ =~= RegistryView { sinks: take_from(o, id), ..self@ });
                }
                None
            },
            Some(i) => {
                let ghost o = self@.sinks;
                let mut s = self.take_out(i);
                let r = s.queue.pop();
                self.put_back(i, s, Ghost(o));
                proof {
                    lemma_update_keeps_wf(o, i as int, s@, self@.next_id);
                    assert(take_from(o, id) =~= o.update(i as int, s@));
                    assert forall|j: int| 0 <= j < o.len() && o[j].id == id implies j == i by {}
                }
                r
            },
        }
    }

    /// What the registry knows of the sink called `id`.
    pub fn status(&self, id: u64) -> (r: Option<SinkStatus>)
        requires
            self.wf(),
        ensures
            !has_id(self@.sinks, id) ==> r is None,
            forall|i: int|
                0 <= i < self@.sinks.len() && self@.sinks[i].id == id ==> {
                    let s = #[trigger] self@.sinks[i];
                    r == Some(
                        SinkStatus {
                            kind: s.kind,
                            state: s.state,
                            queued: s.queue.items.len() as usize,
                            capacity: s.queue.capacity as usize,
                            dropped: s.queue.dropped as u64,
                        },
                    )
                },
    {
        match self.find(id) {
            None => None,
            Some(i) => {
                let s = &self.sinks[i];
                let r = SinkStatus {
                    kind: s.kind,
                    state: s.state,
                    queued: s.queue.len(),
                    capacity: s.queue.capacity(),
                    dropped: s.queue.dropped_count(),
                };
                proof {
                    assert forall|j: int|
                        0 <= j < self@.sinks.len() && self@.sinks[j].id == id implies j == i by {}
                }
                Some(r)
            },
        }
    }
}

} // verus!
