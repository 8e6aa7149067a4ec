//! Bounded FIFO queue: the model of the channels that carry user intents
//! and device-select commands from the UI thread into the worker.
//!
//! The process around the library realises these queues as inter-thread
//! channels; the library states the backpressure policy: an offer to a
//! full queue is refused and handed back (never dropped silently), and a
//! drain frees exactly one slot.
use vstd::prelude::*;

verus! {

/// A first-in first-out queue that never holds more than its capacity.
pub struct BoundedQueue<T> {
    items: Vec<T>,
    capacity: usize,
}

impl<T> BoundedQueue<T> {
    /// The queued elements, oldest first.
    pub closed spec fn contents(self) -> Seq<T> {
        self.items@
    }

    /// The fixed capacity the queue was created with.
    pub closed spec fn cap(self) -> nat {
        self.capacity as nat
    }

    /// Well-formed: never over capacity, and the capacity is positive.
    pub open spec fn wf(self) -> bool {
        self.contents().len() <= self.cap() && self.cap() > 0
    }

    /// An empty queue of the given capacity.
    pub fn new(capacity: usize) -> (q: Self)
        requires
            capacity > 0,
        ensures
            q.wf(),
            q.cap() == capacity,
            q.contents() == Seq::<T>::empty(),
    {
        BoundedQueue { items: Vec::new(), capacity }
    }

    /// How many elements are queued.
    pub fn len(&self) -> (n: usize)
        ensures
            n == self.contents().len(),
    {
        self.items.len()
    }

    /// Offer an element. It is accepted (appended at the back) exactly
    /// when a slot is free; a full queue hands the element back unchanged,
    /// so the producer can block and retry rather than lose it.
    pub fn try_push(&mut self, item: T) -> (rejected: Option<T>)
        requires
            old(self).wf(),
        ensures
            final(self).wf(),
            final(self).cap() == old(self).cap(),
            rejected is None <==> old(self).contents().len() < old(self).cap(),
            rejected is None ==> final(self).contents() == old(self).contents().push(item),
            rejected is Some ==> final(self).contents() == old(self).contents()
                && rejected == Some(item),
    {
        if self.items.len() < self.capacity {
            self.items.push(item);
            None
        } else {
            Some(item)
        }
    }

    /// Take the oldest element, if any; the rest keep their order.
    pub fn pop(&mut self) -> (r: Option<T>)
        requires
            old(self).wf(),
        ensures
            final(self).wf(),
            final(self).cap() == old(self).cap(),
            r is Some <==> old(self).contents().len() > 0,
            r is Some ==> r == Some(old(self).contents()[0])
                && final(self).contents() == old(self).contents().drop_first(),
            r is None ==> final(self).contents() == old(self).contents(),
    {
        if self.items.len() > 0 {
            Some(self.items.remove(0))
        } else {
            None
        }
    }
}

/// Backpressure law: a queue at capacity refuses an offer, and after a
/// single drain one slot is free, so the next offer is accepted. Together
/// with the contracts of `try_push` and `pop` this says a producer that
/// outruns the consumer is blocked at the capacity bound and resumes as
/// soon as a slot frees, with nothing dropped.
pub proof fn lemma_backpressure<T>(q: BoundedQueue<T>)
    requires
        q.wf(),
        q.contents().len() == q.cap(),
    ensures
        !(q.contents().len() < q.cap()),
        q.contents().len() > 0,
        q.contents().drop_first().len() < q.cap(),
{
}

} // verus!
