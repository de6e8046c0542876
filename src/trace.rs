use vstd::multiset::Multiset;
use vstd::prelude::*;

use crate::heap::{popped, pushed};
use crate::work_item::WorkItem;

verus! {

broadcast use vstd::multiset::group_multiset_properties;

/// One operation on a queue as seen from outside: an insertion, or a removal
/// with what it handed back.
pub enum QueueEvent {
    Inserted(WorkItem),
    Removed(Option<WorkItem>),
}

/// What one operation does to the queue's contents, as `MinHeap::push` and
/// `MinHeap::pop_min` state it.
pub open spec fn step_ok(before: Multiset<WorkItem>, after: Multiset<WorkItem>, e: QueueEvent) -> bool {
    match e {
        QueueEvent::Inserted(x) => pushed(before, after, x),
        QueueEvent::Removed(r) => popped(before, after, r),
    }
}

/// `events` run one after another on a single queue: `states[i]` holds its
/// contents before `events[i]`, and `states[i + 1]` after it.
pub open spec fn is_run(states: Seq<Multiset<WorkItem>>, events: Seq<QueueEvent>) -> bool {
    &&& states.len() == events.len() + 1
    &&& forall|i: int| 0 <= i < events.len() ==> step_ok(states[i], states[i + 1], #[trigger] events[i])
}

/// Number of times `e` occurs in `events`.
pub open spec fn occurrences(events: Seq<QueueEvent>, e: QueueEvent) -> nat
    decreases events.len(),
{
    if events.len() == 0 {
        0
    } else {
        occurrences(events.drop_last(), e) + if events.last() == e {
            1nat
        } else {
            0nat
        }
    }
}

/// Number of insertions in `events`.
pub open spec fn insertions(events: Seq<QueueEvent>) -> nat
    decreases events.len(),
{
    if events.len() == 0 {
        0
    } else {
        insertions(events.drop_last()) + if events.last() is Inserted {
            1nat
        } else {
            0nat
        }
    }
}

/// Number of removals in `events` that handed back an item.
pub open spec fn removals(events: Seq<QueueEvent>) -> nat
    decreases events.len(),
{
    if events.len() == 0 {
        0
    } else {
        removals(events.drop_last()) + if events.last() matches QueueEvent::Removed(Some(_)) {
            1nat
        } else {
            0nat
        }
    }
}

proof fn lemma_run_prefix(states: Seq<Multiset<WorkItem>>, events: Seq<QueueEvent>)
    requires
        is_run(states, events),
        events.len() > 0,
    ensures
        is_run(states.drop_last(), events.drop_last()),
{
    let s = states.drop_last();
    let e = events.drop_last();
    assert forall|i: int| 0 <= i < e.len() implies step_ok(s[i], s[i + 1], #[trigger] e[i]) by {
        assert(events[i] == e[i]);
    }
}

proof fn lemma_occurs_somewhere(events: Seq<QueueEvent>, e: QueueEvent)
    requires
        occurrences(events, e) > 0,
    ensures
        exists|i: int| 0 <= i < events.len() && events[i] == e,
    decreases events.len(),
{
    let k = events.len() - 1;
    if events.last() != e {
        lemma_occurs_somewhere(events.drop_last(), e);
        let i = choose|i: int| 0 <= i < k && events.drop_last()[i] == e;
        assert(events[i] == e);
    } else {
        assert(events[k] == e);
    }
}

proof fn lemma_occurrence_counted(events: Seq<QueueEvent>, e: QueueEvent, i: int)
    requires
        0 <= i < events.len(),
        events[i] == e,
    ensures
        occurrences(events, e) >= 1,
    decreases events.len(),
{
    if i < events.len() - 1 {
        assert(events.drop_last()[i] == e);
        lemma_occurrence_counted(events.drop_last(), e, i);
    }
}

proof fn lemma_two_occurrences_counted(events: Seq<QueueEvent>, e: QueueEvent, i: int, j: int)
    requires
        0 <= i < j < events.len(),
        events[i] == e,
        events[j] == e,
    ensures
        occurrences(events, e) >= 2,
    decreases events.len(),
{
    assert(events.drop_last()[i] == e);
    if j < events.len() - 1 {
        assert(events.drop_last()[j] == e);
        lemma_two_occurrences_counted(events.drop_last(), e, i, j);
    } else {
        lemma_occurrence_counted(events.drop_last(), e, i);
    }
}

proof fn lemma_at_most_once(events: Seq<QueueEvent>, e: QueueEvent)
    requires
        forall|i: int, j: int|
            0 <= i < j < events.len() && #[trigger] events[i] == e ==> #[trigger] events[j] != e,
    ensures
        occurrences(events, e) <= 1,
    decreases events.len(),
{
    if events.len() > 0 {
        let p = events.drop_last();
        assert forall|i: int, j: int| 0 <= i < j < p.len() && #[trigger] p[i] == e implies #[trigger] p[j]
            != e by {
            assert(events[i] == p[i] && events[j] == p[j]);
        }
        lemma_at_most_once(p, e);
        if events.last() == e && occurrences(p, e) > 0 {
            lemma_occurs_somewhere(p, e);
            let i = choose|i: int| 0 <= i < p.len() && p[i] == e;
            assert(events[i] == e);
            assert(events[events.len() - 1] == e);
        }
    }
}

/// Conservation: over any run of queue operations, what was queued at the
/// start together with what was inserted is exactly what was removed together
/// with what is still queued, item by item and in number.
pub proof fn lemma_conservation(states: Seq<Multiset<WorkItem>>, events: Seq<QueueEvent>)
    requires
        is_run(states, events),
    ensures
        states[0].len() + insertions(events) == removals(events) + states.last().len(),
        forall|x: WorkItem|
            states[0].count(x) + occurrences(events, QueueEvent::Inserted(x)) == occurrences(
                events,
                QueueEvent::Removed(Some(x)),
            ) + #[trigger] states.last().count(x),
    decreases events.len(),
{
    if events.len() > 0 {
        let k = events.len() - 1;
        lemma_run_prefix(states, events);
        lemma_conservation(states.drop_last(), events.drop_last());
        assert(step_ok(states[k], states[k + 1], events[k]));
        assert(states.drop_last().last() == states[k]);
        assert(states.drop_last()[0] == states[0]);
    }
}

/// Items come out in priority order: in a run where no item inserted after a
/// removal has a lower priority than what that removal returned, every
/// removal returns a priority no lower than any earlier removal's.
pub proof fn lemma_removals_in_priority_order(
    states: Seq<Multiset<WorkItem>>,
    events: Seq<QueueEvent>,
)
    requires
        is_run(states, events),
        forall|i: int, j: int|
            #![trigger events[i], events[j]]
            0 <= i < j < events.len() ==> match (events[i], events[j]) {
                (QueueEvent::Removed(Some(a)), QueueEvent::Inserted(x)) => a.priority <= x.priority,
                _ => true,
            },
    ensures
        forall|i: int, j: int|
            #![trigger events[i], events[j]]
            0 <= i < j < events.len() ==> match (events[i], events[j]) {
                (QueueEvent::Removed(Some(a)), QueueEvent::Removed(Some(b))) => a.priority
                    <= b.priority,
                _ => true,
            },
{
    assert forall|i: int, j: int|
        #![trigger events[i], events[j]]
        0 <= i < j < events.len() implies match (events[i], events[j]) {
        (QueueEvent::Removed(Some(a)), QueueEvent::Removed(Some(b))) => a.priority <= b.priority,
        _ => true,
    } by {
        if let (QueueEvent::Removed(Some(a)), QueueEvent::Removed(Some(b))) = (events[i], events[j]) {
            lemma_removal_floor(states, events, j);
            assert(step_ok(states[j], states[j + 1], events[j]));
            assert(states[j].contains(b));
        }
    }
}

/// After the first `k` events, everything still queued has a priority no
/// lower than what any of those events removed.
proof fn lemma_removal_floor(states: Seq<Multiset<WorkItem>>, events: Seq<QueueEvent>, k: int)
    requires
        is_run(states, events),
        0 <= k <= events.len(),
        forall|i: int, j: int|
            #![trigger events[i], events[j]]
            0 <= i < j < events.len() ==> match (events[i], events[j]) {
                (QueueEvent::Removed(Some(a)), QueueEvent::Inserted(x)) => a.priority <= x.priority,
                _ => true,
            },
    ensures
        forall|i: int, y: WorkItem|
            #![trigger events[i], states[k].contains(y)]
            0 <= i < k && states[k].contains(y) ==> match events[i] {
                QueueEvent::Removed(Some(a)) => a.priority <= y.priority,
                _ => true,
            },
    decreases k,
{
    if k > 0 {
        lemma_removal_floor(states, events, k - 1);
        let p = k - 1;
        assert(step_ok(states[p], states[k], events[p]));
        assert forall|i: int, y: WorkItem|
            #![trigger events[i], states[k].contains(y)]
            0 <= i < k && states[k].contains(y) implies match events[i] {
            QueueEvent::Removed(Some(a)) => a.priority <= y.priority,
            _ => true,
        } by {
            if let QueueEvent::Removed(Some(a)) = events[i] {
                match events[p] {
                    QueueEvent::Inserted(x) => {
                        if y != x {
                            assert(states[p].contains(y));
                        }
                    },
                    QueueEvent::Removed(r) => {
                        assert(states[p].contains(y));
                    },
                }
            }
        }
    }
}

/// No duplication or loss: starting from an empty queue, with every inserted
/// item's id distinct, no two removals return items with the same id, and once
/// the queue is empty again every inserted item has been removed.
pub proof fn lemma_no_duplication_or_loss(states: Seq<Multiset<WorkItem>>, events: Seq<QueueEvent>)
    requires
        is_run(states, events),
        states[0].len() == 0,
        forall|i: int, j: int|
            #![trigger events[i], events[j]]
            0 <= i < j < events.len() ==> match (events[i], events[j]) {
                (QueueEvent::Inserted(x), QueueEvent::Inserted(y)) => x.id != y.id,
                _ => true,
            },
    ensures
        forall|i: int, j: int|
            #![trigger events[i], events[j]]
            0 <= i < j < events.len() ==> match (events[i], events[j]) {
                (QueueEvent::Removed(Some(a)), QueueEvent::Removed(Some(b))) => a.id != b.id,
                _ => true,
            },
        states.last().len() == 0 ==> forall|i: int|
            0 <= i < events.len() ==> match #[trigger] events[i] {
                QueueEvent::Inserted(x) => exists|j: int|
                    0 <= j < events.len() && events[j] == QueueEvent::Removed(Some(x)),
                _ => true,
            },
{
    lemma_conservation(states, events);
    assert forall|x: WorkItem| #[trigger] states[0].count(x) == 0 by {}
    assert forall|i: int, j: int|
        #![trigger events[i], events[j]]
        0 <= i < j < events.len() implies match (events[i], events[j]) {
        (QueueEvent::Removed(Some(a)), QueueEvent::Removed(Some(b))) => a.id != b.id,
        _ => true,
    } by {
        if let (QueueEvent::Removed(Some(a)), QueueEvent::Removed(Some(b))) = (events[i], events[j]) {
            if a.id == b.id {
                lemma_inserted_once(states, events, a, i);
                lemma_inserted_once(states, events, b, j);
                let p = choose|p: int| 0 <= p < events.len() && events[p] == QueueEvent::Inserted(a);
                let q = choose|q: int| 0 <= q < events.len() && events[q] == QueueEvent::Inserted(b);
                if p < q {
                    assert(events[p] == QueueEvent::Inserted(a) && events[q] == QueueEvent::Inserted(b));
                } else if q < p {
                    assert(events[q] == QueueEvent::Inserted(b) && events[p] == QueueEvent::Inserted(a));
                }
                assert(a == b);
                lemma_two_occurrences_counted(events, QueueEvent::Removed(Some(a)), i, j);
                assert(states.last().count(a) >= 0);
            }
        }
    }
    if states.last().len() == 0 {
        assert forall|i: int| 0 <= i < events.len() implies match #[trigger] events[i] {
            QueueEvent::Inserted(x) => exists|j: int|
                0 <= j < events.len() && events[j] == QueueEvent::Removed(Some(x)),
            _ => true,
        } by {
            if let QueueEvent::Inserted(x) = events[i] {
                lemma_occurrence_counted(events, QueueEvent::Inserted(x), i);
                assert(states.last().count(x) == 0);
                lemma_occurs_somewhere(events, QueueEvent::Removed(Some(x)));
            }
        }
    }
}

/// An item removed at `i` was inserted exactly once.
proof fn lemma_inserted_once(
    states: Seq<Multiset<WorkItem>>,
    events: Seq<QueueEvent>,
    a: WorkItem,
    i: int,
)
    requires
        is_run(states, events),
        0 <= i < events.len(),
        events[i] == QueueEvent::Removed(Some(a)),
        states[0].count(a) == 0,
        states[0].count(a) + occurrences(events, QueueEvent::Inserted(a)) == occurrences(
            events,
            QueueEvent::Removed(Some(a)),
        ) + states.last().count(a),
        forall|i: int, j: int|
            #![trigger events[i], events[j]]
            0 <= i < j < events.len() ==> match (events[i], events[j]) {
                (QueueEvent::Inserted(x), QueueEvent::Inserted(y)) => x.id != y.id,
                _ => true,
            },
    ensures
        exists|p: int| 0 <= p < events.len() && events[p] == QueueEvent::Inserted(a),
        occurrences(events, QueueEvent::Inserted(a)) == 1,
{
    let e = QueueEvent::Inserted(a);
    lemma_occurrence_counted(events, QueueEvent::Removed(Some(a)), i);
    lemma_occurs_somewhere(events, e);
    assert forall|p: int, q: int| 0 <= p < q < events.len() && #[trigger] events[p] == e implies #[trigger] events[q]
        != e by {
        assert(match (events[p], events[q]) {
            (QueueEvent::Inserted(x), QueueEvent::Inserted(y)) => x.id != y.id,
            _ => true,
        });
    }
    lemma_at_most_once(events, e);
}

} // verus!
