use vstd::multiset::Multiset;
use vstd::prelude::*;
use vstd::rwlock::{RwLock, RwLockPredicate};

use crate::heap::MinHeap;
use crate::work_item::WorkItem;

verus! {

/// Every item of `m` is valid.
pub open spec fn all_valid(m: Multiset<WorkItem>) -> bool {
    forall|x: WorkItem| m.contains(x) ==> x.valid()
}

/// What the lock guarantees of the heap whenever nobody holds it.
pub struct QueueInvariant {}

impl RwLockPredicate<MinHeap> for QueueInvariant {
    open spec fn inv(self, h: MinHeap) -> bool {
        h.wf() && all_valid(h@)
    }
}

/// A min-priority queue of work items shared among threads.
///
/// Each operation holds the lock for the length of the heap operation only,
/// and hands it back with the heap well formed and every item valid.
pub struct SharedPriorityQueue {
    lock: RwLock<MinHeap, QueueInvariant>,
}

impl SharedPriorityQueue {
    /// An empty queue.
    pub fn new() -> (q: SharedPriorityQueue) {
        let h = MinHeap::new();
        SharedPriorityQueue { lock: RwLock::new(h, Ghost(QueueInvariant {})) }
    }

    /// Adds an item, under the lock.
    pub fn insert(&self, item: WorkItem)
        requires
            item.valid(),
    {
        let (mut h, handle) = self.lock.acquire_write();
        h.push(item);
        handle.release_write(h);
    }

    /// Removes and returns an item of lowest priority among those queued at
    /// the moment the lock is taken, or `None` when there are none then.
    pub fn try_remove_min(&self) -> (r: Option<WorkItem>)
        ensures
            r matches Some(x) ==> x.valid(),
    {
        let (mut h, handle) = self.lock.acquire_write();
        let r = h.pop_min();
        handle.release_write(h);
        r
    }

    /// Takes the heap out once no other thread can reach the queue.
    pub fn into_inner(self) -> (h: MinHeap)
        ensures
            h.wf(),
            all_valid(h@),
    {
        self.lock.into_inner()
    }
}

} // verus!
