use vstd::prelude::*;

use crate::shared_queue::SharedPriorityQueue;
use crate::work_item::{WorkItem, DURATION_LIMIT_MS, MIN_DURATION_MS, PRIORITY_LIMIT};

verus! {

/// Relies on rand::thread_rng and Rng::gen_range: a value drawn from
/// `lo..hi`; gen_range panics only on an empty range.
#[verifier::external_body]
fn draw_in_range(lo: u32, hi: u32) -> (r: u32)
    requires
        lo < hi,
    ensures
        lo <= r < hi,
{
    rand::Rng::gen_range(&mut rand::thread_rng(), lo..hi)
}

/// Generates work items in a fixed number of bursts of a fixed size.
///
/// Ids run from 0 upwards over the whole run, one per item, never reused.
/// The pause between bursts is left to the caller.
pub struct Producer {
    items_per_burst: u32,
    burst_count: u32,
    bursts_done: u32,
    next_id: u64,
}

impl Producer {
    pub closed spec fn spec_items_per_burst(&self) -> nat {
        self.items_per_burst as nat
    }

    pub closed spec fn spec_burst_count(&self) -> nat {
        self.burst_count as nat
    }

    pub closed spec fn spec_bursts_done(&self) -> nat {
        self.bursts_done as nat
    }

    /// The id the next generated item gets.
    pub closed spec fn spec_next_id(&self) -> nat {
        self.next_id as nat
    }

    /// Bursts never exceed their count, and the ids handed out so far are
    /// exactly those of the bursts done.
    pub closed spec fn wf(&self) -> bool {
        &&& self.bursts_done <= self.burst_count
        &&& self.next_id == self.bursts_done as nat * self.items_per_burst as nat
    }

    /// A producer that has run no burst yet.
    pub fn new(items_per_burst: u32, burst_count: u32) -> (p: Producer)
        ensures
            p.wf(),
            p.spec_items_per_burst() == items_per_burst,
            p.spec_burst_count() == burst_count,
            p.spec_bursts_done() == 0,
            p.spec_next_id() == 0,
    {
        Producer { items_per_burst, burst_count, bursts_done: 0, next_id: 0 }
    }

    /// Whether every burst has been run.
    pub fn is_done(&self) -> (b: bool)
        ensures
            b == (self.spec_bursts_done() == self.spec_burst_count()),
    {
        self.bursts_done == self.burst_count
    }

    /// Number of items the whole run generates.
    pub fn total_items(&self) -> (n: u64)
        ensures
            n == self.spec_items_per_burst() * self.spec_burst_count(),
    {
        let a = self.items_per_burst as u64;
        let b = self.burst_count as u64;
        assert(a * b <= (u32::MAX as nat) * (u32::MAX as nat)) by (nonlinear_arith)
            requires
                a <= u32::MAX,
                b <= u32::MAX,
        ;
        a * b
    }

    /// Once every burst has run, exactly `items_per_burst * burst_count` ids
    /// have been handed out.
    pub proof fn lemma_finished_run_generated_all(&self)
        requires
            self.wf(),
            self.spec_bursts_done() == self.spec_burst_count(),
        ensures
            self.spec_next_id() == self.spec_items_per_burst() * self.spec_burst_count(),
    {
        let n = self.items_per_burst as nat;
        let m = self.burst_count as nat;
        assert(m * n == n * m) by (nonlinear_arith);
    }

    /// Generates the items of the next burst, with fresh consecutive ids and
    /// priority and duration drawn from their ranges.
    pub fn next_burst(&mut self) -> (items: Vec<WorkItem>)
        requires
            old(self).wf(),
            old(self).spec_bursts_done() < old(self).spec_burst_count(),
        ensures
            final(self).wf(),
            final(self).spec_items_per_burst() == old(self).spec_items_per_burst(),
            final(self).spec_burst_count() == old(self).spec_burst_count(),
            final(self).spec_bursts_done() == old(self).spec_bursts_done() + 1,
            final(self).spec_next_id() == old(self).spec_next_id() + old(self).spec_items_per_burst(),
            items@.len() == old(self).spec_items_per_burst(),
            forall|i: int|
                0 <= i < items@.len() ==> (#[trigger] items@[i]).id == old(self).spec_next_id() + i
                    && items@[i].valid(),
    {
        let n = self.items_per_burst;
        let ghost start = self.next_id as nat;
        proof {
            let b = self.bursts_done as nat;
            let m = self.burst_count as nat;
            assert((b + 1) * (n as nat) <= m * (n as nat)) by (nonlinear_arith)
                requires
                    b < m,
            ;
            assert(m * (n as nat) <= (u32::MAX as nat) * (u32::MAX as nat)) by (nonlinear_arith)
                requires
                    m <= u32::MAX,
                    n <= u32::MAX,
            ;
            assert((b + 1) * (n as nat) == b * (n as nat) + n) by (nonlinear_arith);
        }
        let mut items: Vec<WorkItem> = Vec::new();
        let mut k: u32 = 0;
        while k < n
            invariant
                0 <= k <= n,
                n == self.items_per_burst,
                self.items_per_burst == old(self).items_per_burst,
                self.burst_count == old(self).burst_count,
                self.bursts_done == old(self).bursts_done,
                start == old(self).next_id,
                start + n <= (u32::MAX as nat) * (u32::MAX as nat),
                self.next_id == start + k,
                items@.len() == k,
                forall|i: int|
                    0 <= i < items@.len() ==> (#[trigger] items@[i]).id == start + i
                        && items@[i].valid(),
            decreases n - k,
        {
            let priority = draw_in_range(0, PRIORITY_LIMIT);
            let duration_ms = draw_in_range(MIN_DURATION_MS, DURATION_LIMIT_MS);
            items.push(WorkItem { id: self.next_id, priority, duration_ms });
            self.next_id = self.next_id + 1;
            k = k + 1;
        }
        self.bursts_done = self.bursts_done + 1;
        items
    }

    /// Runs the next burst: generates its items and inserts them into the
    /// queue one at a time, each insertion taking the lock on its own.
    /// Returns the items inserted.
    pub fn run_burst(&mut self, queue: &SharedPriorityQueue) -> (items: Vec<WorkItem>)
        requires
            old(self).wf(),
            old(self).spec_bursts_done() < old(self).spec_burst_count(),
        ensures
            final(self).wf(),
            final(self).spec_items_per_burst() == old(self).spec_items_per_burst(),
            final(self).spec_burst_count() == old(self).spec_burst_count(),
            final(self).spec_bursts_done() == old(self).spec_bursts_done() + 1,
            final(self).spec_next_id() == old(self).spec_next_id() + old(self).spec_items_per_burst(),
            items@.len() == old(self).spec_items_per_burst(),
            forall|i: int|
                0 <= i < items@.len() ==> (#[trigger] items@[i]).id == old(self).spec_next_id() + i
                    && items@[i].valid(),
    {
        let items = self.next_burst();
        let mut k: usize = 0;
        while k < items.len()
            invariant
                0 <= k <= items@.len(),
                forall|i: int| 0 <= i < items@.len() ==> (#[trigger] items@[i]).valid(),
            decreases items@.len() - k,
        {
            queue.insert(items[k]);
            k = k + 1;
        }
        items
    }
}

} // verus!
