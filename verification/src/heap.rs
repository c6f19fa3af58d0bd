//! A binary min-heap of `u64` keys.
//!
//! The heap is the priority queue behind the timing wheels, where a key is a tick number, and it
//! puts the readable streams of a connection in order, where a key is a stream identifier.

use vstd::multiset::Multiset;
use vstd::prelude::*;

verus! {

/// The position of the parent of the node at position `i`.
spec fn parent(i: int) -> int {
    (i - 1) / 2
}

/// No node is smaller than its parent.
spec fn is_heap(s: Seq<u64>) -> bool {
    forall|i: int| 0 < i < s.len() ==> s[parent(i)] <= #[trigger] s[i]
}

/// `s` is a heap but for the link between the node at `hole` and its parent.
spec fn is_heap_but_upwards(s: Seq<u64>, hole: int) -> bool {
    &&& forall|i: int| 0 < i < s.len() && i != hole ==> s[parent(i)] <= #[trigger] s[i]
    &&& forall|i: int|
        0 < i < s.len() && parent(i) == hole && hole > 0 ==> s[parent(hole)] <= #[trigger] s[i]
}

/// `s` is a heap but for the links between the node at `hole` and its children.
spec fn is_heap_but_downwards(s: Seq<u64>, hole: int) -> bool {
    &&& forall|i: int|
        0 < i < s.len() && parent(i) != hole ==> s[parent(i)] <= #[trigger] s[i]
    &&& forall|i: int|
        0 < i < s.len() && parent(i) == hole && hole > 0 ==> s[parent(hole)] <= #[trigger] s[i]
}

/// The root of a heap is a least element of it.
proof fn lemma_root_is_least(s: Seq<u64>, i: int)
    requires
        is_heap(s),
        0 <= i < s.len(),
    ensures
        s[0] <= s[i],
    decreases i,
{
    if i > 0 {
        lemma_root_is_least(s, parent(i));
    }
}

/// Exchanging two elements keeps the multiset of the elements.
proof fn lemma_swap_keeps_multiset(s: Seq<u64>, i: int, j: int)
    requires
        0 <= i < s.len(),
        0 <= j < s.len(),
        i != j,
    ensures
        s.update(i, s[j]).update(j, s[i]).to_multiset() == s.to_multiset(),
{
    broadcast use vstd::multiset::group_multiset_axioms;

    let t = s.update(i, s[j]);
    vstd::seq_lib::to_multiset_update(s, i, s[j]);
    vstd::seq_lib::to_multiset_update(t, j, s[i]);
    vstd::seq_lib::to_multiset_contains(s, s[i]);
    vstd::seq_lib::to_multiset_contains(t, t[j]);
    assert(s.contains(s[i]));
    assert(t.contains(t[j]));
    assert(t.update(j, s[i]).to_multiset() =~= s.to_multiset());
}

/// A priority queue that hands out its least key first.
pub struct MinHeap {
    items: Vec<u64>,
}

impl View for MinHeap {
    type V = Multiset<u64>;

    /// The keys that the heap holds.
    closed spec fn view(&self) -> Multiset<u64> {
        self.items@.to_multiset()
    }
}

impl MinHeap {
    /// The heap property: no key is smaller than its parent.
    pub closed spec fn wf(self) -> bool {
        is_heap(self.items@)
    }

    /// Creates an empty heap.
    pub fn new() -> (heap: MinHeap)
        ensures
            heap.wf(),
            heap@ == Multiset::<u64>::empty(),
    {
        let heap = MinHeap { items: Vec::new() };
        proof {
            broadcast use vstd::multiset::group_multiset_axioms;

            vstd::seq_lib::to_multiset_len(heap.items@);
            assert(heap@ =~= Multiset::<u64>::empty());
        }
        heap
    }

    /// Returns the number of keys.
    pub fn len(&self) -> (n: usize)
        ensures
            n == self@.len(),
    {
        proof {
            vstd::seq_lib::to_multiset_len(self.items@);
        }
        self.items.len()
    }

    /// Returns the least key without taking it out, or `None` if the heap is empty.
    pub fn peek(&self) -> (res: Option<u64>)
        requires
            self.wf(),
        ensures
            match res {
                Some(key) => is_least_key(self@, key),
                None => self@ == Multiset::<u64>::empty(),
            },
    {
        broadcast use vstd::multiset::group_multiset_axioms;

        if self.items.len() == 0 {
            proof {
                vstd::seq_lib::to_multiset_len(self.items@);
                assert(self@ =~= Multiset::<u64>::empty());
            }
            None
        } else {
            proof {
                self.lemma_first_is_least();
            }
            Some(self.items[0])
        }
    }

    proof fn lemma_first_is_least(self)
        requires
            self.wf(),
            self.items@.len() > 0,
        ensures
            is_least_key(self@, self.items@[0]),
    {
        let s = self.items@;
        vstd::seq_lib::to_multiset_contains(s, s[0]);
        assert(s.contains(s[0]));
        assert forall|other: u64| self@.contains(other) implies s[0] <= other by {
            vstd::seq_lib::to_multiset_contains(s, other);
            let i = choose|i: int| 0 <= i < s.len() && s[i] == other;
            lemma_root_is_least(s, i);
        }
    }

    /// Adds `key` to the heap.
    pub fn push(&mut self, key: u64)
        requires
            old(self).wf(),
        ensures
            final(self).wf(),
            final(self)@ == old(self)@.insert(key),
    {
        let ghost before = self.items@;
        self.items.push(key);
        proof {
            vstd::seq_lib::to_multiset_build(before, key);
        }
        let ghost pushed = self.items@;
        let mut hole: usize = self.items.len() - 1;
        assert(is_heap_but_upwards(self.items@, hole as int));
        while hole > 0 && self.items[(hole - 1) / 2] > self.items[hole]
            invariant
                hole < self.items@.len(),
                is_heap_but_upwards(self.items@, hole as int),
                self.items@.to_multiset() == pushed.to_multiset(),
            ensures
                is_heap(self.items@),
                self.items@.to_multiset() == pushed.to_multiset(),
            decreases hole,
        {
            let up: usize = (hole - 1) / 2;
            let ghost s = self.items@;
            let above: u64 = self.items[up];
            let below: u64 = self.items[hole];
            self.items.set(up, below);
            self.items.set(hole, above);
            proof {
                lemma_swap_keeps_multiset(s, up as int, hole as int);
                assert(self.items@ =~= s.update(up as int, s[hole as int]).update(
                    hole as int,
                    s[up as int],
                ));
            }
            hole = up;
        }
    }

    /// Takes the least key out, or returns `None` if the heap is empty.
    pub fn pop(&mut self) -> (res: Option<u64>)
        requires
            old(self).wf(),
        ensures
            final(self).wf(),
            match res {
                Some(key) => is_least_key(old(self)@, key) && final(self)@ == old(self)@.remove(key),
                None => old(self)@ == Multiset::<u64>::empty() && final(self)@ == old(self)@,
            },
    {
        broadcast use vstd::multiset::group_multiset_axioms;

        let ghost before = self.items@;
        proof {
            vstd::seq_lib::to_multiset_len(before);
        }
        if self.items.len() == 0 {
            proof {
                assert(self@ =~= Multiset::<u64>::empty());
            }
            return None;
        }
        proof {
            self.lemma_first_is_least();
        }
        let key: u64 = self.items.swap_remove(0);
        proof {
            let moved = before.update(0, before.last());
            vstd::seq_lib::to_multiset_update(before, 0, before.last());
            vstd::seq_lib::to_multiset_remove(moved, moved.len() - 1);
            assert(moved.drop_last() =~= moved.remove(moved.len() - 1));
            vstd::seq_lib::to_multiset_contains(before, before.last());
            vstd::seq_lib::to_multiset_contains(before, before[0]);
            assert(before.contains(before[0]));
            assert(self.items@.to_multiset() =~= before.to_multiset().remove(key));
        }
        let ghost lifted = self.items@;
        let len: usize = self.items.len();
        let mut hole: usize = 0;
        assert(is_heap_but_downwards(self.items@, 0));
        while hole < len / 2
            invariant
                len == self.items@.len(),
                hole <= len,
                is_heap_but_downwards(self.items@, hole as int),
                self.items@.to_multiset() == lifted.to_multiset(),
            ensures
                is_heap(self.items@),
                self.items@.to_multiset() == lifted.to_multiset(),
            decreases len - hole,
        {
            let left: usize = 2 * hole + 1;
            let mut child: usize = left;
            if left + 1 < len && self.items[left + 1] < self.items[left] {
                child = left + 1;
            }
            if self.items[hole] <= self.items[child] {
                assert(forall|i: int|
                    0 < i < len && parent(i) == hole ==> i == left || i == left + 1);
                break;
            }
            let ghost s = self.items@;
            let above: u64 = self.items[hole];
            let below: u64 = self.items[child];
            self.items.set(hole, below);
            self.items.set(child, above);
            proof {
                lemma_swap_keeps_multiset(s, hole as int, child as int);
                assert(self.items@ =~= s.update(hole as int, s[child as int]).update(
                    child as int,
                    s[hole as int],
                ));
                assert(forall|i: int|
                    0 < i < len && parent(i) == hole ==> i == left || i == left + 1);
            }
            hole = child;
        }
        Some(key)
    }
}

/// `key` is in `keys`, and nothing in `keys` is smaller.
pub open spec fn is_least_key(keys: Multiset<u64>, key: u64) -> bool {
    &&& keys.contains(key)
    &&& forall|other: u64| keys.contains(other) ==> key <= other
}

} // verus!
