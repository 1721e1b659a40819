//! Capacity-bounded FIFO that discards its oldest item on overflow.
use vstd::prelude::*;
use std::collections::VecDeque;

verus! {

/// Bounded FIFO queue. Pushing onto a full queue removes the front item
/// and hands it back to the caller, so the newest items always survive.
pub struct FixedSizeQueue<T> {
    items: VecDeque<T>,
    capacity: usize,
}

/// What pushing onto a queue of capacity `cap` holding `q` leaves behind.
pub open spec fn spec_push<T>(q: Seq<T>, cap: nat, item: T) -> Seq<T> {
    if q.len() >= cap {
        q.drop_first().push(item)
    } else {
        q.push(item)
    }
}

/// What a queue holding `q` holds after `items` are sent in order.
pub open spec fn spec_push_all<T>(q: Seq<T>, cap: nat, items: Seq<T>) -> Seq<T>
    decreases items.len(),
{
    if items.len() == 0 {
        q
    } else {
        spec_push(spec_push_all(q, cap, items.drop_last()), cap, items.last())
    }
}

/// Sending `items` in order to an empty queue of capacity `cap` leaves
/// exactly the newest `min(|items|, cap)` of them, oldest first: overflow
/// always discards the oldest items.
pub proof fn lemma_queue_keeps_newest<T>(cap: nat, items: Seq<T>)
    requires
        cap >= 1,
    ensures
        spec_push_all(Seq::<T>::empty(), cap, items)
            == items.skip(if items.len() > cap { items.len() - cap } else { 0 }),
    decreases items.len(),
{
    if items.len() == 0 {
        assert(items.skip(0) =~= Seq::<T>::empty());
    } else {
        let prev = items.drop_last();
        lemma_queue_keeps_newest(cap, prev);
        let k_prev: int = if prev.len() > cap { prev.len() - cap } else { 0 };
        let r_prev = prev.skip(k_prev);
        if r_prev.len() >= cap {
            assert(r_prev.drop_first().push(items.last()) =~= items.skip(k_prev + 1));
        } else {
            assert(k_prev == 0);
            assert(r_prev.push(items.last()) =~= items.skip(0));
        }
    }
}

impl<T> FixedSizeQueue<T> {
    pub closed spec fn view(&self) -> Seq<T> {
        self.items@
    }

    pub closed spec fn spec_capacity(&self) -> nat {
        self.capacity as nat
    }

    pub open spec fn wf(&self) -> bool {
        &&& self.spec_capacity() >= 1
        &&& self.view().len() <= self.spec_capacity()
    }

    /// An empty queue that holds at most `capacity` items.
    pub fn new(capacity: usize) -> (r: Self)
        requires
            capacity >= 1,
        ensures
            r.wf(),
            r.view() == Seq::<T>::empty(),
            r.spec_capacity() == capacity,
    {
        FixedSizeQueue { items: VecDeque::new(), capacity }
    }

    pub fn capacity(&self) -> (r: usize)
        ensures
            r == self.spec_capacity(),
    {
        self.capacity
    }

    pub fn len(&self) -> (r: usize)
        ensures
            r == self.view().len(),
    {
        self.items.len()
    }

    /// Appends `item`. When the queue is full its oldest item is removed
    /// first and returned; otherwise `None` is returned.
    pub fn send_sync(&mut self, item: T) -> (dropped: Option<T>)
        requires
            old(self).wf(),
        ensures
            final(self).wf(),
            final(self).spec_capacity() == old(self).spec_capacity(),
            final(self).view() == spec_push(old(self).view(), old(self).spec_capacity(), item),
            old(self).view().len() >= old(self).spec_capacity() ==> dropped == Some(old(self).view()[0]),
            old(self).view().len() < old(self).spec_capacity() ==> dropped.is_none(),
    {
        let mut dropped: Option<T> = None;
        if self.items.len() >= self.capacity {
            dropped = self.items.pop_front();
        }
        self.items.push_back(item);
        dropped
    }

    /// Removes and returns the oldest item, if any; a consumer that finds
    /// the queue empty waits for the next `send_sync` and asks again.
    pub fn recv(&mut self) -> (r: Option<T>)
        requires
            old(self).wf(),
        ensures
            final(self).wf(),
            final(self).spec_capacity() == old(self).spec_capacity(),
            old(self).view().len() == 0 ==> r.is_none() && final(self).view() == old(self).view(),
            old(self).view().len() > 0 ==> r == Some(old(self).view()[0])
                && final(self).view() == old(self).view().drop_first(),
    {
        self.items.pop_front()
    }
}

} // verus!
