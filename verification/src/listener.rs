//! Priority-queue listeners over population cutoffs.
//!
//! For each species the simulator keeps one max-listener on the lower
//! population track and one min-listener on the upper track.  Entries
//! carry `(reaction, node_idx, node_id)`; stale entries are tolerated
//! and filtered out either at pop time or by a periodic retain pass.
//! The heaps themselves come from the `dary_heap` crate and are used
//! through trusted wrappers; everything layered on them is verified.

use vstd::prelude::*;
use vstd::multiset::Multiset;

verus! {

broadcast use vstd::multiset::group_multiset_axioms, vstd::seq_lib::group_to_multiset_ensures;

/// A heap entry: the key, then the reaction index, the node position
/// and the node id of the listener's owner.
pub type HeapEntry = (i64, usize, usize, usize);

#[verifier::external_type_specification]
#[verifier::external_body]
#[verifier::reject_recursive_types(T)]
pub struct ExDaryHeap<T, const D: usize>(dary_heap::DaryHeap<T, D>);

/// What the heap holds, as a multiset of its entries.
pub uninterp spec fn heap_entries(h: dary_heap::DaryHeap<HeapEntry, 8>) -> Multiset<HeapEntry>;

/// The lexicographic order on heap entries; this is the order that the
/// standard library defines for tuples of integers.
pub open spec fn entry_le(a: HeapEntry, b: HeapEntry) -> bool {
    ||| a.0 < b.0
    ||| (a.0 == b.0 && (a.1 < b.1 || (a.1 == b.1 && (a.2 < b.2 || (a.2 == b.2 && a.3 <= b.3)))))
}

/// Relies on dary_heap::DaryHeap::new: creates an empty heap.
#[verifier::external_body]
fn heap_new() -> (r: dary_heap::DaryHeap<HeapEntry, 8>)
    ensures
        heap_entries(r) == Multiset::<HeapEntry>::empty(),
{
    dary_heap::DaryHeap::new()
}

/// Relies on dary_heap::DaryHeap::push: adds the item to the heap.
#[verifier::external_body]
fn heap_push(h: &mut dary_heap::DaryHeap<HeapEntry, 8>, item: HeapEntry)
    ensures
        heap_entries(*final(h)) == heap_entries(*old(h)).insert(item),
{
    h.push(item)
}

/// Relies on dary_heap::DaryHeap::peek: returns the greatest item of
/// the max-heap, or None if it is empty.
#[verifier::external_body]
fn heap_peek(h: &dary_heap::DaryHeap<HeapEntry, 8>) -> (r: Option<&HeapEntry>)
    ensures
        match r {
            None => heap_entries(*h) == Multiset::<HeapEntry>::empty(),
            Some(m) => heap_entries(*h).count(*m) > 0 && forall|x: HeapEntry|
                #[trigger] heap_entries(*h).count(x) > 0 ==> entry_le(x, *m),
        },
{
    h.peek()
}

/// Relies on dary_heap::DaryHeap::pop: removes and returns the greatest
/// item of the max-heap, or None if it is empty.
#[verifier::external_body]
fn heap_pop(h: &mut dary_heap::DaryHeap<HeapEntry, 8>) -> (r: Option<HeapEntry>)
    ensures
        match r {
            None => {
                &&& heap_entries(*old(h)) == Multiset::<HeapEntry>::empty()
                &&& heap_entries(*final(h)) == heap_entries(*old(h))
            },
            Some(m) => {
                &&& heap_entries(*old(h)).count(m) > 0
                &&& forall|x: HeapEntry| #[trigger] heap_entries(*old(h)).count(x) > 0
                    ==> entry_le(x, m)
                &&& heap_entries(*final(h)) == heap_entries(*old(h)).remove(m)
            },
        },
{
    h.pop()
}

/// Relies on dary_heap::DaryHeap::len: the number of stored items.
#[verifier::external_body]
fn heap_len(h: &dary_heap::DaryHeap<HeapEntry, 8>) -> (r: usize)
    ensures
        r == heap_entries(*h).len(),
{
    h.len()
}

/// Whether an entry still belongs to the current listener of its
/// reaction: its node id matches the last listener registered.
pub open spec fn entry_current(x: HeapEntry, last: Seq<(usize, usize)>) -> bool {
    x.1 < last.len() && last[x.1 as int].1 == x.3
}

/// Drains the heap and keeps only the entries whose node id is still
/// the one last registered for their reaction.
fn heap_retain_current(h: &mut dary_heap::DaryHeap<HeapEntry, 8>, last: &Vec<(usize, usize)>)
    ensures
        forall|x: HeapEntry| heap_entries(*final(h)).count(x) == if entry_current(x, last@) {
            heap_entries(*old(h)).count(x)
        } else {
            0
        },
{
    let mut kept: Vec<HeapEntry> = Vec::new();
    let ghost mut processed: Multiset<HeapEntry> = Multiset::empty();
    let mut n = heap_len(h);
    while n > 0
        invariant
            n == heap_entries(*h).len(),
            forall|x: HeapEntry| #[trigger] heap_entries(*h).count(x) + processed.count(x)
                == heap_entries(*old(h)).count(x),
            forall|x: HeapEntry| kept@.to_multiset().count(x) == if entry_current(x, last@) {
                processed.count(x)
            } else {
                0
            },
        decreases n,
    {
        let ghost before = heap_entries(*h);
        let popped = heap_pop(h);
        match popped {
            None => {
                proof {
                    assert(false);
                }
            },
            Some(e) => {
                proof {
                    assert(Multiset::<HeapEntry>::singleton(e).subset_of(before)) by {
                        assert(forall|x: HeapEntry| Multiset::<HeapEntry>::singleton(e).count(x)
                            <= before.count(x));
                    }
                    processed = processed.insert(e);
                }
                let keep = e.1 < last.len() && {
                    let (_, id) = last[e.1];
                    id == e.3
                };
                let ghost kept_before = kept@;
                if keep {
                    kept.push(e);
                    proof {
                        assert(kept@.to_multiset() =~= kept_before.to_multiset().insert(e));
                    }
                }
            },
        }
        n = heap_len(h);
    }
    let mut i: usize = 0;
    proof {
        assert(heap_entries(*h).len() == 0);
        assert(heap_entries(*h) =~= Multiset::<HeapEntry>::empty()) by {
            vstd::multiset::lemma_multiset_empty_len(heap_entries(*h));
        }
        assert(heap_entries(*h) == Multiset::<HeapEntry>::empty());
        assert(forall|x: HeapEntry| #[trigger] heap_entries(*h).count(x) == 0);
        assert forall|x: HeapEntry| #[trigger] processed.count(x) == heap_entries(
            *old(h),
        ).count(x) by {
            assert(heap_entries(*h).count(x) == 0);
        }
        assert(kept@.take(0).to_multiset() =~= Multiset::<HeapEntry>::empty());
    }
    while i < kept.len()
        invariant
            i <= kept@.len(),
            forall|x: HeapEntry| #[trigger] heap_entries(*h).count(x) == kept@.take(
                i as int,
            ).to_multiset().count(x),
            forall|x: HeapEntry| kept@.to_multiset().count(x) == if entry_current(x, last@) {
                heap_entries(*old(h)).count(x)
            } else {
                0
            },
        decreases kept@.len() - i,
    {
        let e = kept[i];
        heap_push(h, e);
        proof {
            assert(kept@.take(i + 1).drop_last() == kept@.take(i as int));
            assert(kept@.take(i + 1).to_multiset() =~= kept@.take(i as int).to_multiset().insert(
                e,
            )) by {
                kept@.take(i + 1).to_multiset_ensures();
                assert(kept@.take(i + 1) == kept@.take(i as int).push(e));
            }
        }
        i = i + 1;
    }
    proof {
        assert(kept@.take(kept@.len() as int) == kept@);
    }
}

/// A max-heap that stores elements ordered by an attached key,
/// and supports a clean interface for popping all objects larger than a key.
pub struct MaxListener {
    heap: dary_heap::DaryHeap<HeapEntry, 8>,
}

impl MaxListener {
    /// The stored entries.
    pub closed spec fn entries(self) -> Multiset<HeapEntry> {
        heap_entries(self.heap)
    }

    pub fn new() -> (r: MaxListener)
        ensures
            r.entries() == Multiset::<HeapEntry>::empty(),
    {
        MaxListener { heap: heap_new() }
    }

    /// Pushes an item onto the listener.
    pub fn push(&mut self, key: i64, data: (usize, usize, usize))
        ensures
            final(self).entries() == old(self).entries().insert((key, data.0, data.1, data.2)),
    {
        heap_push(&mut self.heap, (key, data.0, data.1, data.2));
    }

    pub fn len(&self) -> (r: usize)
        ensures
            r == self.entries().len(),
    {
        heap_len(&self.heap)
    }

    /// If the largest key in the listener is larger than `key`, pops its
    /// entry and returns the key together with the data; otherwise leaves
    /// the listener alone.  When nothing pops, no stored key exceeds
    /// `key`: a cutoff crossing can never be missed.
    pub fn pop_if_larger_than(&mut self, key: i64) -> (r: Option<(i64, (usize, usize, usize))>)
        ensures
            match r {
                None => {
                    &&& final(self).entries() == old(self).entries()
                    &&& forall|x: HeapEntry| #[trigger] old(self).entries().count(x) > 0
                        ==> x.0 <= key
                },
                Some((k, d)) => {
                    &&& k > key
                    &&& old(self).entries().count((k, d.0, d.1, d.2)) > 0
                    &&& final(self).entries() == old(self).entries().remove((k, d.0, d.1, d.2))
                    &&& forall|x: HeapEntry| #[trigger] old(self).entries().count(x) > 0
                        ==> entry_le(x, (k, d.0, d.1, d.2))
                },
            },
    {
        let top_key: i64;
        let ghost mtop: HeapEntry;
        match heap_peek(&self.heap) {
            None => {
                return None;
            },
            Some(m) => {
                top_key = m.0;
                proof {
                    mtop = *m;
                }
            },
        }
        if key < top_key {
            let popped = heap_pop(&mut self.heap);
            match popped {
                None => {
                    proof {
                        assert(false);
                    }
                    None
                },
                Some(e) => {
                    proof {
                        assert(old(self).entries().count(mtop) > 0);
                        assert(entry_le(mtop, e));
                        assert(e.0 >= mtop.0);
                        assert((e.0, e.1, e.2, e.3) == e);
                    }
                    Some((e.0, (e.1, e.2, e.3)))
                },
            }
        } else {
            None
        }
    }

    /// Garbage-collects entries from nodes that are no longer the last
    /// registered listener of their reaction.
    pub fn retain_current(&mut self, last: &Vec<(usize, usize)>)
        ensures
            forall|x: HeapEntry| final(self).entries().count(x) == if entry_current(x, last@) {
                old(self).entries().count(x)
            } else {
                0
            },
    {
        heap_retain_current(&mut self.heap, last);
    }
}

/// A max-heap over negated keys, so that it supports popping all
/// objects smaller than a key.  A stored entry's key is the negation
/// of the key it was pushed with.
pub struct MinListener {
    heap: dary_heap::DaryHeap<HeapEntry, 8>,
}

impl MinListener {
    /// The stored entries, each carrying the negated key.
    pub closed spec fn entries(self) -> Multiset<HeapEntry> {
        heap_entries(self.heap)
    }

    pub fn new() -> (r: MinListener)
        ensures
            r.entries() == Multiset::<HeapEntry>::empty(),
    {
        MinListener { heap: heap_new() }
    }

    /// Pushes an item onto the listener.
    pub fn push(&mut self, key: i64, data: (usize, usize, usize))
        requires
            key > i64::MIN,
        ensures
            final(self).entries() == old(self).entries().insert((((-key) as i64), data.0, data.1, data.2)),
    {
        heap_push(&mut self.heap, (-key, data.0, data.1, data.2));
    }

    pub fn len(&self) -> (r: usize)
        ensures
            r == self.entries().len(),
    {
        heap_len(&self.heap)
    }

    /// If the smallest pushed key is smaller than `key`, pops its entry
    /// and returns the stored (negated) key together with the data;
    /// otherwise leaves the listener alone.  When nothing pops, every
    /// stored entry was pushed with a key of at least `key`: a cutoff
    /// crossing can never be missed.
    pub fn pop_if_smaller_than(&mut self, key: i64) -> (r: Option<(i64, (usize, usize, usize))>)
        requires
            key > i64::MIN,
        ensures
            match r {
                None => {
                    &&& final(self).entries() == old(self).entries()
                    &&& forall|x: HeapEntry| #[trigger] old(self).entries().count(x) > 0
                        ==> -x.0 >= key
                },
                Some((k, d)) => {
                    &&& -k < key
                    &&& old(self).entries().count((k, d.0, d.1, d.2)) > 0
                    &&& final(self).entries() == old(self).entries().remove((k, d.0, d.1, d.2))
                    &&& forall|x: HeapEntry| #[trigger] old(self).entries().count(x) > 0
                        ==> entry_le(x, (k, d.0, d.1, d.2))
                },
            },
    {
        let top_key: i64;
        let ghost mtop: HeapEntry;
        match heap_peek(&self.heap) {
            None => {
                return None;
            },
            Some(m) => {
                top_key = m.0;
                proof {
                    mtop = *m;
                }
            },
        }
        if -key < top_key {
            let popped = heap_pop(&mut self.heap);
            match popped {
                None => {
                    proof {
                        assert(false);
                    }
                    None
                },
                Some(e) => {
                    proof {
                        assert(old(self).entries().count(mtop) > 0);
                        assert(entry_le(mtop, e));
                        assert(e.0 >= mtop.0);
                        assert((e.0, e.1, e.2, e.3) == e);
                    }
                    Some((e.0, (e.1, e.2, e.3)))
                },
            }
        } else {
            None
        }
    }

    /// Garbage-collects entries from nodes that are no longer the last
    /// registered listener of their reaction.
    pub fn retain_current(&mut self, last: &Vec<(usize, usize)>)
        ensures
            forall|x: HeapEntry| final(self).entries().count(x) == if entry_current(x, last@) {
                old(self).entries().count(x)
            } else {
                0
            },
    {
        heap_retain_current(&mut self.heap, last);
    }
}

} // verus!
