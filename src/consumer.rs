use vstd::prelude::*;

use crate::work_item::WorkItem;

verus! {

/// Where a consumer stands between two events.
#[derive(Clone, Copy, Debug, PartialEq, Eq, Structural)]
pub enum ConsumerState {
    /// About to ask the queue for an item.
    Running,
    /// Holding an item whose simulated execution is under way.
    Executing(WorkItem),
    /// Saw the queue empty; final whatever the queue does later.
    Done,
}

/// What the caller does next on behalf of a consumer.
#[derive(Clone, Copy, Debug, PartialEq, Eq, Structural)]
pub enum ConsumerAction {
    /// Simulate executing this item, then report it with `on_executed`.
    Execute(WorkItem),
    /// Stop: the consumer has finished, having executed this many items.
    Finish(u64),
}

/// The decisions of one consumer, which owns its completion counter.
///
/// The caller polls the shared queue and hands the outcome to `on_poll`;
/// a consumer stops for good the first time it sees the queue empty.
pub struct Consumer {
    state: ConsumerState,
    completed: u64,
}

impl Consumer {
    pub closed spec fn spec_state(&self) -> ConsumerState {
        self.state
    }

    /// Number of items whose execution has been reported.
    pub closed spec fn spec_completed(&self) -> nat {
        self.completed as nat
    }

    /// A running consumer with no item executed.
    pub fn new() -> (c: Consumer)
        ensures
            c.spec_state() == ConsumerState::Running,
            c.spec_completed() == 0,
    {
        Consumer { state: ConsumerState::Running, completed: 0 }
    }

    pub fn state(&self) -> (s: ConsumerState)
        ensures
            s == self.spec_state(),
    {
        self.state
    }

    pub fn completed(&self) -> (n: u64)
        ensures
            n == self.spec_completed(),
    {
        self.completed
    }

    /// Takes the outcome of one poll of the queue: an item is to be
    /// executed; none ends the consumer with its count.
    pub fn on_poll(&mut self, polled: Option<WorkItem>) -> (a: ConsumerAction)
        requires
            old(self).spec_state() == ConsumerState::Running,
        ensures
            final(self).spec_completed() == old(self).spec_completed(),
            match polled {
                Some(x) => {
                    &&& a == ConsumerAction::Execute(x)
                    &&& final(self).spec_state() == ConsumerState::Executing(x)
                },
                None => {
                    &&& a matches ConsumerAction::Finish(n) && n == old(self).spec_completed()
                    &&& final(self).spec_state() == ConsumerState::Done
                },
            },
    {
        match polled {
            Some(x) => {
                self.state = ConsumerState::Executing(x);
                ConsumerAction::Execute(x)
            },
            None => {
                self.state = ConsumerState::Done;
                ConsumerAction::Finish(self.completed)
            },
        }
    }

    /// Reports that the held item has been executed; the consumer counts it
    /// and runs on.
    pub fn on_executed(&mut self)
        requires
            old(self).spec_state() is Executing,
            old(self).spec_completed() < u64::MAX,
        ensures
            final(self).spec_state() == ConsumerState::Running,
            final(self).spec_completed() == old(self).spec_completed() + 1,
    {
        self.state = ConsumerState::Running;
        self.completed = self.completed + 1;
    }
}

} // verus!
