use work_queue::{MinHeap, WorkItem};

fn item(id: u64, priority: u32) -> WorkItem {
    WorkItem { id, priority, duration_ms: 200 + (id as u32 % 800) }
}

fn drain(h: &mut MinHeap) -> Vec<WorkItem> {
    let mut out = Vec::new();
    while let Some(x) = h.pop_min() {
        out.push(x);
    }
    out
}

#[test]
fn empty_heap_pops_none() {
    let mut h = MinHeap::new();
    assert!(h.is_empty());
    assert_eq!(h.len(), 0);
    assert_eq!(h.pop_min(), None);
    assert_eq!(h.len(), 0);
}

#[test]
fn pops_lowest_priority_first() {
    let mut h = MinHeap::new();
    h.push(item(0, 5));
    h.push(item(1, 3));
    assert_eq!(h.pop_min(), Some(item(1, 3)));
    assert_eq!(h.pop_min(), Some(item(0, 5)));
    assert_eq!(h.pop_min(), None);
}

#[test]
fn drain_is_sorted_by_priority() {
    let priorities = [42u32, 7, 99, 0, 13, 7, 56, 81, 3, 64, 28, 0, 99, 50, 21];
    let mut h = MinHeap::new();
    for (i, p) in priorities.iter().enumerate() {
        h.push(item(i as u64, *p));
    }
    assert_eq!(h.len(), priorities.len());
    let out = drain(&mut h);
    let got: Vec<u32> = out.iter().map(|x| x.priority).collect();
    let mut want = priorities.to_vec();
    want.sort();
    assert_eq!(got, want);
}

#[test]
fn equal_priorities_lose_and_duplicate_nothing() {
    let mut h = MinHeap::new();
    for id in 0..50u64 {
        h.push(item(id, 10));
    }
    let mut ids: Vec<u64> = drain(&mut h).iter().map(|x| x.id).collect();
    ids.sort();
    assert_eq!(ids, (0..50u64).collect::<Vec<u64>>());
}

#[test]
fn interleaved_operations_keep_count_and_order() {
    let mut h = MinHeap::new();
    let mut inserted = 0usize;
    let mut removed = 0usize;
    let mut seed: u64 = 12345;
    for id in 0..300u64 {
        seed = seed.wrapping_mul(6364136223846793005).wrapping_add(1442695040888963407);
        if seed >> 62 == 0 {
            if let Some(x) = h.pop_min() {
                removed += 1;
                let rest = drain(&mut h);
                assert!(rest.iter().all(|y| x.priority <= y.priority));
                for y in rest {
                    h.push(y);
                }
            }
        } else {
            h.push(item(id, ((seed >> 33) % 100) as u32));
            inserted += 1;
        }
        assert_eq!(h.len(), inserted - removed);
    }
}

#[test]
fn drained_priorities_never_decrease_after_last_insert() {
    let mut h = MinHeap::new();
    for id in 0..20u64 {
        h.push(item(id, ((id * 37) % 100) as u32));
    }
    let first = h.pop_min().unwrap();
    h.push(item(100, first.priority + 1));
    let rest = drain(&mut h);
    let mut last = first.priority;
    for x in &rest {
        assert!(last <= x.priority);
        last = x.priority;
    }
    assert_eq!(rest.len(), 20);
}
