//! Bounded outbound queue of one sink.

use std::collections::VecDeque;
use vstd::prelude::*;

verus! {

/// What the queue looks like to a proof.
pub struct QueueView {
    /// Messages waiting to be sent, oldest first.
    pub items: Seq<String>,
    pub capacity: nat,
    /// Messages dropped to make room (saturates at `u64::MAX`).
    pub dropped: nat,
    /// Every message ever enqueued, in order, including dropped ones.
    pub accepted: Seq<String>,
    /// Every message handed to the sink's consumer, in order.
    pub taken: Seq<String>,
}

impl QueueView {
    pub open spec fn len(self) -> nat {
        self.items.len()
    }

    pub open spec fn is_full(self) -> bool {
        self.items.len() >= self.capacity
    }

    /// The consumer has seen, or still has queued, every message ever enqueued.
    pub open spec fn complete(self) -> bool {
        self.taken + self.items == self.accepted
    }

    pub open spec fn wf(self) -> bool {
        &&& self.capacity > 0
        &&& self.items.len() <= self.capacity
        &&& self.dropped <= u64::MAX
        &&& (self.dropped == 0 ==> self.complete())
    }

    /// Non-blocking enqueue of a message that fits.
    pub open spec fn enqueue(self, m: String) -> QueueView {
        QueueView { items: self.items.push(m), accepted: self.accepted.push(m), ..self }
    }

    /// The consumer takes the oldest queued message.
    pub open spec fn take_front(self) -> QueueView {
        if self.items.len() == 0 {
            self
        } else {
            QueueView {
                items: self.items.drop_first(),
                taken: self.taken.push(self.items[0]),
                ..self
            }
        }
    }

    /// Enqueue onto a full queue: the oldest message leaves to make room.
    pub open spec fn evict_and_enqueue(self, m: String) -> QueueView {
        QueueView {
            items: self.items.drop_first().push(m),
            accepted: self.accepted.push(m),
            dropped: if self.dropped < u64::MAX { self.dropped + 1 } else { self.dropped },
            ..self
        }
    }
}

pub struct SinkQueue {
    items: VecDeque<String>,
    capacity: usize,
    dropped: u64,
    accepted: Ghost<Seq<String>>,
    taken: Ghost<Seq<String>>,
}

impl View for SinkQueue {
    type V = QueueView;

    closed spec fn view(&self) -> QueueView {
        QueueView {
            items: self.items@,
            capacity: self.capacity as nat,
            dropped: self.dropped as nat,
            accepted: self.accepted@,
            taken: self.taken@,
        }
    }
}

impl SinkQueue {
    pub open spec fn wf(&self) -> bool {
        self@.wf()
    }

    /// An empty queue that holds at most `capacity` messages.
    pub fn new(capacity: usize) -> (r: SinkQueue)
        requires
            capacity > 0,
        ensures
            r.wf(),
            r@.items == Seq::<String>::empty(),
            r@.capacity == capacity,
            r@.dropped == 0,
            r@.accepted == Seq::<String>::empty(),
            r@.taken == Seq::<String>::empty(),
    {
        let r = SinkQueue {
            items: VecDeque::new(),
            capacity,
            dropped: 0,
            accepted: Ghost(Seq::empty()),
            taken: Ghost(Seq::empty()),
        };
        proof {
            assert(r@.taken + r@.items =~= r@.accepted);
        }
        r
    }

    pub fn len(&self) -> (r: usize)
        ensures
            r == self@.len(),
    {
        self.items.len()
    }

    pub fn capacity(&self) -> (r: usize)
        ensures
            r == self@.capacity,
    {
        self.capacity
    }

    pub fn dropped_count(&self) -> (r: u64)
        ensures
            r == self@.dropped,
    {
        self.dropped
    }

    pub fn is_full(&self) -> (r: bool)
        ensures
            r == self@.is_full(),
    {
        self.items.len() >= self.capacity
    }

    /// Enqueues `m` if there is room; a full queue is left as it was.
    pub fn try_push(&mut self, m: String) -> (r: bool)
        requires
            old(self).wf(),
        ensures
            final(self).wf(),
            r == !old(self)@.is_full(),
            r ==> final(self)@ == old(self)@.enqueue(m),
            !r ==> final(self)@ == old(self)@,
    {
        if self.items.len() >= self.capacity {
            return false;
        }
        self.push_unchecked(m);
        true
    }

    /// Enqueues `m`, dropping the oldest queued message first when full.
    /// Returns the dropped message.
    pub fn push_evicting(&mut self, m: String) -> (r: Option<String>)
        requires
            old(self).wf(),
        ensures
            final(self).wf(),
            !old(self)@.is_full() ==> r is None && final(self)@ == old(self)@.enqueue(m),
            old(self)@.is_full() ==> r == Some(old(self)@.items[0]) && final(self)@
                == old(self)@.evict_and_enqueue(m),
    {
        if self.items.len() < self.capacity {
            self.push_unchecked(m);
            return None;
        }
        let oldest = self.items.pop_front();
        self.items.push_back(m);
        self.accepted = Ghost(self.accepted@.push(m));
        if self.dropped < u64::MAX {
            self.dropped = self.dropped + 1;
        }
        proof {
            assert(self@.items =~= old(self)@.items.drop_first().push(m));
        }
        oldest
    }

    fn push_unchecked(&mut self, m: String)
        requires
            old(self).wf(),
            !old(self)@.is_full(),
        ensures
            final(self).wf(),
            final(self)@ == old(self)@.enqueue(m),
    {
        self.items.push_back(m);
        self.accepted = Ghost(self.accepted@.push(m));
        proof {
            if self@.dropped == 0 {
                assert(self@.taken + self@.items =~= (old(self)@.taken + old(self)@.items).push(m));
            }
            assert(self@ =~= old(self)@.enqueue(m));
        }
    }

    /// Hands the oldest queued message to the sink's consumer.
    pub fn pop(&mut self) -> (r: Option<String>)
        requires
            old(self).wf(),
        ensures
            final(self).wf(),
            final(self)@ == old(self)@.take_front(),
            old(self)@.items.len() == 0 ==> r is None,
            old(self)@.items.len() > 0 ==> r == Some(old(self)@.items[0]),
    {
        let r = self.items.pop_front();
        match &r {
            Some(x) => {
                self.taken = Ghost(self.taken@.push(*x));
                proof {
                    let o = old(self)@;
                    assert(self@.items =~= o.items.drop_first());
                    if o.dropped == 0 {
                        assert(o.taken + o.items =~= o.taken.push(o.items[0]) + o.items.drop_first());
                    }
                }
            },
            None => {},
        }
        r
    }
}

} // verus!
