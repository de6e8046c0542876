use vstd::prelude::*;

use vstd::multiset::Multiset;

use crate::work_item::WorkItem;

verus! {

broadcast use vstd::seq_lib::group_to_multiset_ensures;

/// Index of the parent of slot `i` in the array layout of a binary heap.
pub open spec fn parent(i: int) -> int {
    (i - 1) / 2
}

/// Every slot but the root holds a priority no lower than its parent's.
pub open spec fn heap_ordered(s: Seq<WorkItem>) -> bool {
    forall|i: int| 0 < i < s.len() ==> s[parent(i)].priority <= #[trigger] s[i].priority
}

/// `x` has a priority no higher than any item of `m`.
pub open spec fn is_min_of(x: WorkItem, m: Multiset<WorkItem>) -> bool {
    forall|y: WorkItem| m.contains(y) ==> x.priority <= y.priority
}

/// What `push` does to the contents of a queue.
pub open spec fn pushed(before: Multiset<WorkItem>, after: Multiset<WorkItem>, item: WorkItem) -> bool {
    after == before.insert(item)
}

/// What `pop_min` does to the contents of a queue and what it hands back:
/// nothing from an empty queue, else an item of lowest priority, which leaves.
pub open spec fn popped(
    before: Multiset<WorkItem>,
    after: Multiset<WorkItem>,
    r: Option<WorkItem>,
) -> bool {
    match r {
        None => before.len() == 0 && after == before,
        Some(x) => before.contains(x) && is_min_of(x, before) && after == before.remove(x),
    }
}

/// Overwriting one slot trades one occurrence of the old item for the new one.
proof fn lemma_update_multiset(s: Seq<WorkItem>, i: int, v: WorkItem)
    requires
        0 <= i < s.len(),
    ensures
        s.update(i, v).to_multiset() =~= s.to_multiset().remove(s[i]).insert(v),
{
    let t = s.update(i, v);
    assert(t.remove(i) =~= s.remove(i));
    assert(t[i] == v);
    assert(t.contains(v));
    assert(t.to_multiset() =~= t.to_multiset().remove(v).insert(v));
}

/// A swap of two slots keeps the multiset of the items.
proof fn lemma_swap_multiset(s: Seq<WorkItem>, i: int, j: int)
    requires
        0 <= i < s.len(),
        0 <= j < s.len(),
    ensures
        s.update(i, s[j]).update(j, s[i]).to_multiset() =~= s.to_multiset(),
{
    let t = s.update(i, s[j]);
    lemma_update_multiset(s, i, s[j]);
    lemma_update_multiset(t, j, s[i]);
    assert(s.contains(s[i]));
    if i != j {
        assert(t[j] == s[j]);
        assert(t.contains(s[j]));
    }
}

/// In a heap-ordered sequence the root has the lowest priority.
proof fn lemma_root_is_min(s: Seq<WorkItem>, i: int)
    requires
        heap_ordered(s),
        0 <= i < s.len(),
    ensures
        s[0].priority <= s[i].priority,
    decreases i,
{
    if i > 0 {
        lemma_root_is_min(s, parent(i));
    }
}

/// A binary min-heap of work items, ordered by priority.
pub struct MinHeap {
    items: Vec<WorkItem>,
}

impl View for MinHeap {
    type V = Multiset<WorkItem>;

    /// The items held, without regard to their place in the array.
    closed spec fn view(&self) -> Multiset<WorkItem> {
        self.items@.to_multiset()
    }
}

impl MinHeap {
    /// The heap-order invariant of the array layout.
    pub closed spec fn wf(&self) -> bool {
        heap_ordered(self.items@)
    }

    /// An empty heap.
    pub fn new() -> (h: MinHeap)
        ensures
            h.wf(),
            h@ =~= Multiset::<WorkItem>::empty(),
    {
        MinHeap { items: Vec::new() }
    }

    /// Number of items held.
    pub fn len(&self) -> (n: usize)
        ensures
            n == self@.len(),
    {
        self.items.len()
    }

    /// Whether no item is held.
    pub fn is_empty(&self) -> (b: bool)
        ensures
            b == (self@.len() == 0),
    {
        self.items.len() == 0
    }

    /// Exchanges the items of two slots.
    fn swap_slots(&mut self, i: usize, j: usize)
        requires
            i < old(self).items.len(),
            j < old(self).items.len(),
        ensures
            final(self).items@ == old(self).items@.update(i as int, old(self).items@[j as int]).update(
                j as int,
                old(self).items@[i as int],
            ),
            final(self)@ =~= old(self)@,
    {
        proof {
            lemma_swap_multiset(self.items@, i as int, j as int);
        }
        let a = self.items[i];
        let b = self.items[j];
        self.items.set(i, b);
        self.items.set(j, a);
    }

    /// Moves the item at slot `k` up until its parent's priority is no higher.
    fn sift_up(&mut self, k: usize)
        requires
            k < old(self).items.len(),
            forall|i: int|
                0 < i < old(self).items.len() && i != k ==> old(self).items@[parent(i)].priority
                    <= #[trigger] old(self).items@[i].priority,
            forall|i: int|
                0 < i < old(self).items.len() && parent(i) == k && k > 0 ==> old(self).items@[parent(
                    k as int,
                )].priority <= #[trigger] old(self).items@[i].priority,
        ensures
            final(self).wf(),
            final(self)@ =~= old(self)@,
    {
        let mut k = k;
        loop
            invariant
                k < self.items.len(),
                self.items.len() == old(self).items.len(),
                self@ =~= old(self)@,
                forall|i: int|
                    0 < i < self.items.len() && i != k ==> self.items@[parent(i)].priority
                        <= #[trigger] self.items@[i].priority,
                forall|i: int|
                    0 < i < self.items.len() && parent(i) == k && k > 0 ==> self.items@[parent(
                        k as int,
                    )].priority <= #[trigger] self.items@[i].priority,
            ensures
                self.wf(),
                self@ =~= old(self)@,
            decreases k,
        {
            if k == 0 {
                break;
            }
            let p = (k - 1) / 2;
            if self.items[p].priority <= self.items[k].priority {
                break;
            }
            let ghost s = self.items@;
            self.swap_slots(p, k);
            proof {
                let t = self.items@;
                assert forall|i: int| 0 < i < t.len() && i != p implies t[parent(i)].priority
                    <= #[trigger] t[i].priority by {
                    if i == k {
                    } else if parent(i) == k {
                        assert(s[parent(i)] == s[k as int]);
                    } else if parent(i) == p {
                        assert(s[p as int].priority <= s[i].priority);
                    }
                }
                assert forall|i: int|
                    0 < i < t.len() && parent(i) == p && p > 0 implies t[parent(
                        p as int,
                    )].priority <= #[trigger] t[i].priority by {
                    assert(s[parent(p as int)].priority <= s[p as int].priority);
                    if i != k {
                        assert(s[p as int].priority <= s[i].priority);
                    }
                }
            }
            k = p;
        }
    }

    /// Moves the item at slot `k` down until no child has a lower priority.
    fn sift_down(&mut self, k: usize)
        requires
            k < old(self).items.len(),
            forall|i: int|
                0 < i < old(self).items.len() && parent(i) != k ==> old(self).items@[parent(
                    i,
                )].priority <= #[trigger] old(self).items@[i].priority,
            forall|i: int|
                0 < i < old(self).items.len() && parent(i) == k && k > 0 ==> old(self).items@[parent(
                    k as int,
                )].priority <= #[trigger] old(self).items@[i].priority,
        ensures
            final(self).wf(),
            final(self)@ =~= old(self)@,
    {
        let n = self.items.len();
        let mut k = k;
        loop
            invariant
                k < n,
                n == self.items.len(),
                n == old(self).items.len(),
                self@ =~= old(self)@,
                forall|i: int|
                    0 < i < n && parent(i) != k ==> self.items@[parent(i)].priority
                        <= #[trigger] self.items@[i].priority,
                forall|i: int|
                    0 < i < n && parent(i) == k && k > 0 ==> self.items@[parent(
                        k as int,
                    )].priority <= #[trigger] self.items@[i].priority,
            ensures
                self.wf(),
                self@ =~= old(self)@,
            decreases n - k,
        {
            if k >= n / 2 {
                // slot `k` is a leaf
                proof {
                    assert forall|i: int| 0 < i < n implies self.items@[parent(i)].priority
                        <= #[trigger] self.items@[i].priority by {
                        assert(parent(i) != k);
                    }
                }
                break;
            }
            let l = 2 * k + 1;
            let mut c = l;
            if l + 1 < n && self.items[l + 1].priority < self.items[l].priority {
                c = l + 1;
            }
            if self.items[k].priority <= self.items[c].priority {
                proof {
                    assert forall|i: int| 0 < i < n implies self.items@[parent(i)].priority
                        <= #[trigger] self.items@[i].priority by {
                        if parent(i) == k {
                            assert(i == l || i == l + 1);
                        }
                    }
                }
                break;
            }
            let ghost s = self.items@;
            self.swap_slots(k, c);
            proof {
                let t = self.items@;
                assert forall|i: int| 0 < i < n && parent(i) != c implies t[parent(i)].priority
                    <= #[trigger] t[i].priority by {
                    if i == c {
                    } else if parent(i) == k {
                        assert(i == l || i == l + 1);
                    } else if i == k {
                        assert(parent(c as int) == k as int);
                        assert(s[parent(k as int)].priority <= s[c as int].priority);
                    }
                }
                assert forall|i: int| 0 < i < n && parent(i) == c implies t[parent(
                    c as int,
                )].priority <= #[trigger] t[i].priority by {
                    assert(s[c as int].priority <= s[i].priority);
                }
            }
            k = c;
        }
    }

    /// Adds an item.
    pub fn push(&mut self, item: WorkItem)
        requires
            old(self).wf(),
        ensures
            final(self).wf(),
            pushed(old(self)@, final(self)@, item),
    {
        self.items.push(item);
        let last = self.items.len() - 1;
        self.sift_up(last);
    }

    /// Removes and returns an item of lowest priority, or `None` when empty.
    pub fn pop_min(&mut self) -> (r: Option<WorkItem>)
        requires
            old(self).wf(),
        ensures
            final(self).wf(),
            popped(old(self)@, final(self)@, r),
    {
        let ghost s = self.items@;
        match self.items.pop() {
            None => None,
            Some(last) => {
                assert(s =~= self.items@.push(last));
                assert(s.to_multiset() =~= self.items@.to_multiset().insert(last));
                if self.items.len() == 0 {
                    proof {
                        let m = self.items@.to_multiset();
                        assert(m.len() == 0);
                        assert(m =~= Multiset::empty());
                        assert(s.to_multiset().remove(last) =~= m);
                        assert forall|y: WorkItem| s.to_multiset().contains(y) implies last.priority
                            <= y.priority by {
                            assert(y == last);
                        }
                    }
                    return Some(last);
                }
                let top = self.items[0];
                proof {
                    assert forall|y: WorkItem| s.to_multiset().contains(y) implies top.priority
                        <= y.priority by {
                        let i = choose|i: int| 0 <= i < s.len() && s[i] == y;
                        lemma_root_is_min(s, i);
                    }
                    assert(s[0] == top);
                    assert(s.contains(top));
                    lemma_update_multiset(self.items@, 0, last);
                }
                self.items.set(0, last);
                self.sift_down(0);
                Some(top)
            }
        }
    }
}

} // verus!
