use std::collections::HashSet;

use work_queue::work_item::{DURATION_LIMIT_MS, MIN_DURATION_MS, PRIORITY_LIMIT};
use work_queue::{Consumer, ConsumerAction, ConsumerState, Producer, SharedPriorityQueue, WorkItem};

fn run_consumer(queue: &SharedPriorityQueue, executed: &mut Vec<WorkItem>) -> u64 {
    let mut c = Consumer::new();
    loop {
        let polled = queue.try_remove_min();
        match c.on_poll(polled) {
            ConsumerAction::Execute(item) => {
                executed.push(item);
                c.on_executed();
            }
            ConsumerAction::Finish(n) => return n,
        }
    }
}

fn run_producer(queue: &SharedPriorityQueue, n: u32, m: u32) -> u64 {
    let mut p = Producer::new(n, m);
    while !p.is_done() {
        p.run_burst(queue);
    }
    p.total_items()
}

/// Interleaves one producer and two consumers on one thread: the producer
/// runs a burst every `period` consumer polls, after a first warm-up burst.
fn interleaved_run(n: u32, m: u32, period: usize) -> (u64, u64, usize, Vec<WorkItem>) {
    let queue = SharedPriorityQueue::new();
    let mut p = Producer::new(n, m);
    let mut consumers = [Consumer::new(), Consumer::new()];
    let mut executed = Vec::new();
    if !p.is_done() {
        p.run_burst(&queue);
    }
    let mut polls = 0usize;
    loop {
        let mut any_running = false;
        for c in consumers.iter_mut() {
            if c.state() == ConsumerState::Done {
                continue;
            }
            any_running = true;
            match c.on_poll(queue.try_remove_min()) {
                ConsumerAction::Execute(item) => {
                    executed.push(item);
                    c.on_executed();
                }
                ConsumerAction::Finish(_) => {}
            }
            polls += 1;
            if polls % period == 0 && !p.is_done() {
                p.run_burst(&queue);
            }
        }
        if !any_running {
            break;
        }
    }
    while !p.is_done() {
        p.run_burst(&queue);
    }
    let remaining = queue.into_inner().len();
    (consumers[0].completed(), consumers[1].completed(), remaining, executed)
}

#[test]
fn two_consumers_after_warm_up() {
    let (c1, c2, remaining, executed) = interleaved_run(10, 4, 3);
    assert!(c1 + c2 <= 40);
    assert_eq!(c1 + c2 + remaining as u64, 40);
    assert_eq!(executed.len() as u64, c1 + c2);
    let ids: HashSet<u64> = executed.iter().map(|x| x.id).collect();
    assert_eq!(ids.len(), executed.len());
}

#[test]
fn consumers_that_outrun_the_producer_leave_items_behind() {
    let (c1, c2, remaining, _) = interleaved_run(10, 4, 40);
    assert_eq!(c1 + c2, 10);
    assert_eq!(remaining, 30);
}

#[test]
fn consumers_drain_everything_once_producer_is_done() {
    let queue = SharedPriorityQueue::new();
    assert_eq!(run_producer(&queue, 10, 4), 40);
    let mut executed = Vec::new();
    let c1 = run_consumer(&queue, &mut executed);
    let c2 = run_consumer(&queue, &mut executed);
    assert_eq!(c1, 40);
    assert_eq!(c2, 0);
    assert_eq!(queue.into_inner().len(), 0);
    for w in executed.windows(2) {
        assert!(w[0].priority <= w[1].priority);
    }
    let mut ids: Vec<u64> = executed.iter().map(|x| x.id).collect();
    ids.sort();
    assert_eq!(ids, (0..40u64).collect::<Vec<u64>>());
}

#[test]
fn zero_items_per_burst() {
    let queue = SharedPriorityQueue::new();
    let mut p = Producer::new(0, 3);
    let mut bursts = 0;
    while !p.is_done() {
        assert!(p.run_burst(&queue).is_empty());
        bursts += 1;
    }
    assert_eq!(bursts, 3);
    assert_eq!(p.total_items(), 0);
    let mut executed = Vec::new();
    assert_eq!(run_consumer(&queue, &mut executed), 0);
    assert_eq!(run_consumer(&queue, &mut executed), 0);
    assert!(executed.is_empty());
}

#[test]
fn interleaved_operations_keep_heap_order_and_count() {
    let queue = SharedPriorityQueue::new();
    let mut removed = 0usize;
    for k in 0..1000u64 {
        let id = (k % 4) * 1000 + k / 4;
        queue.insert(WorkItem { id, priority: ((id * 31) % 100) as u32, duration_ms: 500 });
        if k % 3 == 0 && queue.try_remove_min().is_some() {
            removed += 1;
        }
    }
    let mut heap = queue.into_inner();
    assert_eq!(heap.len(), 1000 - removed);
    let mut last = 0u32;
    let mut n = 0usize;
    while let Some(x) = heap.pop_min() {
        assert!(last <= x.priority);
        last = x.priority;
        n += 1;
    }
    assert_eq!(n, 1000 - removed);
}

#[test]
fn bursts_get_consecutive_fresh_ids_and_valid_items() {
    let mut p = Producer::new(7, 3);
    let mut ids = Vec::new();
    while !p.is_done() {
        for x in p.next_burst() {
            assert!(x.priority < PRIORITY_LIMIT);
            assert!(MIN_DURATION_MS <= x.duration_ms && x.duration_ms < DURATION_LIMIT_MS);
            ids.push(x.id);
        }
    }
    assert_eq!(ids, (0..21u64).collect::<Vec<u64>>());
}

#[test]
fn drawn_values_vary() {
    let mut p = Producer::new(300, 1);
    let items = p.next_burst();
    let priorities: HashSet<u32> = items.iter().map(|x| x.priority).collect();
    let durations: HashSet<u32> = items.iter().map(|x| x.duration_ms).collect();
    assert!(priorities.len() > 1);
    assert!(durations.len() > 1);
    assert!(!priorities.contains(&PRIORITY_LIMIT));
    assert!(durations.iter().any(|d| *d != MIN_DURATION_MS));
}

#[test]
fn total_items_is_exact() {
    assert_eq!(Producer::new(10, 4).total_items(), 40);
    assert_eq!(Producer::new(u32::MAX, u32::MAX).total_items(), 18446744065119617025);
    assert_eq!(Producer::new(5, 0).total_items(), 0);
}

#[test]
fn consumer_counts_executed_items_and_stops_on_empty() {
    let mut c = Consumer::new();
    assert_eq!(c.state(), ConsumerState::Running);
    let x = WorkItem { id: 9, priority: 4, duration_ms: 250 };
    assert_eq!(c.on_poll(Some(x)), ConsumerAction::Execute(x));
    assert_eq!(c.state(), ConsumerState::Executing(x));
    assert_eq!(c.completed(), 0);
    c.on_executed();
    assert_eq!(c.state(), ConsumerState::Running);
    assert_eq!(c.completed(), 1);
    assert_eq!(c.on_poll(None), ConsumerAction::Finish(1));
    assert_eq!(c.state(), ConsumerState::Done);
}

#[test]
fn shared_queue_serves_lowest_priority_first() {
    let queue = SharedPriorityQueue::new();
    queue.insert(WorkItem { id: 0, priority: 70, duration_ms: 300 });
    queue.insert(WorkItem { id: 1, priority: 20, duration_ms: 300 });
    queue.insert(WorkItem { id: 2, priority: 45, duration_ms: 300 });
    assert_eq!(queue.try_remove_min().map(|x| x.id), Some(1));
    assert_eq!(queue.try_remove_min().map(|x| x.id), Some(2));
    assert_eq!(queue.try_remove_min().map(|x| x.id), Some(0));
    assert_eq!(queue.try_remove_min(), None);
}
