//! Bounded single-producer/single-consumer hand-off of spectrum
//! snapshots.
//!
//! The producer is the real-time analysis path, so a send never
//! blocks: when the queue is full the oldest snapshot is dropped.
//! Freshness matters more than completeness for a live display.

use vstd::prelude::*;
use crate::engine::Collected;

verus! {

/// Bounded drop-oldest queue of spectrum snapshots, oldest first.
pub struct SnapshotChannel {
    items: Vec<Collected>,
    capacity: usize,
}

impl SnapshotChannel {
    /// Pending snapshots, oldest first.
    pub closed spec fn view(&self) -> Seq<Collected> {
        self.items@
    }

    /// The bound the channel was created with.
    pub closed spec fn cap(&self) -> int {
        self.capacity as int
    }

    pub closed spec fn wf(&self) -> bool {
        1 <= self.capacity && self.items@.len() <= self.capacity
    }

    /// A well-formed channel never holds more than its bound.
    pub proof fn lemma_wf_len(&self)
        requires
            self.wf(),
        ensures
            self@.len() <= self.cap(),
            1 <= self.cap(),
    {
    }

    /// An empty channel holding at most `capacity` snapshots.
    pub fn new(capacity: usize) -> (r: SnapshotChannel)
        requires
            1 <= capacity,
        ensures
            r.wf(),
            r.cap() == capacity,
            r@ == Seq::<Collected>::empty(),
    {
        SnapshotChannel { items: Vec::new(), capacity }
    }

    /// Non-blocking send: appends the snapshot, dropping the oldest
    /// one first if the channel is full.
    pub fn send(&mut self, c: Collected)
        requires
            old(self).wf(),
        ensures
            final(self).wf(),
            final(self).cap() == old(self).cap(),
            old(self)@.len() < old(self).cap() ==> final(self)@ == old(self)@.push(c),
            old(self)@.len() >= old(self).cap() ==> final(self)@ == old(self)@.subrange(
                1,
                old(self)@.len() as int,
            ).push(c),
    {
        if self.items.len() >= self.capacity {
            self.items.remove(0);
        }
        self.items.push(c);
    }

    /// Takes the oldest pending snapshot, if any.
    pub fn recv(&mut self) -> (r: Option<Collected>)
        requires
            old(self).wf(),
        ensures
            final(self).wf(),
            final(self).cap() == old(self).cap(),
            old(self)@.len() == 0 ==> r is None && final(self)@ == old(self)@,
            old(self)@.len() > 0 ==> r is Some && r->Some_0 == old(self)@[0] && final(self)@
                == old(self)@.subrange(1, old(self)@.len() as int),
    {
        if self.items.len() == 0 {
            None
        } else {
            Some(self.items.remove(0))
        }
    }

    /// Number of pending snapshots.
    pub fn len(&self) -> (r: usize)
        ensures
            r == self@.len(),
    {
        self.items.len()
    }
}

} // verus!
