//! The dispatch queue: a bounded first-in, first-out queue between the
//! reassembler, which fills it, and the controller, which empties it.
//!
//! A full queue refuses the next item and hands it back, so that the
//! producer waits and tries again; nothing is ever dropped or reordered.

use vstd::prelude::*;
use std::collections::VecDeque;

verus! {

/// Commands that the queue of a session holds.
pub const DISPATCH_CAPACITY: usize = 8;

/// A bounded first-in, first-out queue.
pub struct DispatchQueue<T> {
    items: VecDeque<T>,
    limit: usize,
}

impl<T> DispatchQueue<T> {
    /// The items held, oldest first.
    pub closed spec fn contents(self) -> Seq<T> {
        self.items@
    }

    /// The number of items that the queue can hold.
    pub closed spec fn spec_capacity(self) -> nat {
        self.limit as nat
    }

    /// The queue holds no more than its capacity. Every constructor gives
    /// such a queue and every method keeps it so.
    pub closed spec fn well_formed(self) -> bool {
        self.items@.len() <= self.limit
    }

    /// An empty queue that holds up to `capacity` items.
    pub fn new(capacity: usize) -> (q: Self)
        ensures
            q.well_formed(),
            q.contents() == Seq::<T>::empty(),
            q.spec_capacity() == capacity,
    {
        DispatchQueue { items: VecDeque::new(), limit: capacity }
    }

    /// The number of items that the queue can hold.
    pub fn capacity(&self) -> (n: usize)
        ensures
            n == self.spec_capacity(),
    {
        self.limit
    }

    /// The number of items held.
    pub fn len(&self) -> (n: usize)
        ensures
            n == self.contents().len(),
    {
        self.items.len()
    }

    /// Whether nothing is held, so that the consumer has to wait.
    pub fn is_empty(&self) -> (b: bool)
        ensures
            b == (self.contents().len() == 0),
    {
        self.items.len() == 0
    }

    /// Whether the queue is at capacity, so that the producer has to wait.
    pub fn is_full(&self) -> (b: bool)
        ensures
            b == (self.contents().len() >= self.spec_capacity()),
    {
        self.items.len() >= self.limit
    }

    /// Adds `item` behind the items held. A full queue stays as it is and
    /// hands the item back.
    pub fn try_enqueue(&mut self, item: T) -> (r: Result<(), T>)
        requires
            old(self).well_formed(),
        ensures
            final(self).well_formed(),
            final(self).spec_capacity() == old(self).spec_capacity(),
            old(self).contents().len() < old(self).spec_capacity() ==> r.is_ok() && final(self).contents() == old(self).contents().push(item),
            old(self).contents().len() >= old(self).spec_capacity() ==> r == Err::<(), T>(item)
                && final(self).contents() == old(self).contents(),
    {
        if self.items.len() >= self.limit {
            return Err(item);
        }
        self.items.push_back(item);
        Ok(())
    }

    /// Takes the oldest item, if there is one.
    pub fn try_dequeue(&mut self) -> (r: Option<T>)
        requires
            old(self).well_formed(),
        ensures
            final(self).well_formed(),
            final(self).spec_capacity() == old(self).spec_capacity(),
            old(self).contents().len() == 0 ==> r.is_none() && final(self).contents() == old(self).contents(),
            old(self).contents().len() > 0 ==> r == Some(old(self).contents()[0]) && final(self).contents() == old(self).contents().drop_first(),
    {
        let r = self.items.pop_front();
        proof {
            if old(self).contents().len() > 0 {
                assert(self.items@ =~= old(self).contents().drop_first());
            }
        }
        r
    }
}

} // verus!
