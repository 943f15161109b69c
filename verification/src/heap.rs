//! A binary min-heap of event messages, each with the number of its push,
//! in a vector: the entry at index `i` has its children at `2i + 1` and
//! `2i + 2`, and no entry goes before its parent.

use vstd::prelude::*;
use crate::message::EventMessage;

verus! {

/// An event message together with the number of the push that brought it.
#[derive(Debug, Clone, Copy)]
pub(crate) struct Entry {
    pub(crate) message: EventMessage,
    pub(crate) seq: u64,
}

/// The order in which entries leave: by time, and at equal time by the
/// number of their push.
pub(crate) open spec fn before(a: Entry, b: Entry) -> bool {
    a.message.time.0 < b.message.time.0 || (a.message.time.0 == b.message.time.0 && a.seq
        < b.seq)
}

/// The index of the parent of the entry at index `i > 0`.
pub(crate) open spec fn parent(i: int) -> int {
    (i - 1) / 2
}

/// No entry goes before its parent.
pub(crate) open spec fn heap_ordered(heap: Seq<Entry>) -> bool {
    forall|i: int| 0 < i < heap.len() ==> !before(#[trigger] heap[i], heap[parent(i)])
}

/// No entry goes before its parent, except that the entry at `hole` may go
/// before its own; the children of `hole` do not go before its parent.
pub(crate) open spec fn heap_but_above(heap: Seq<Entry>, hole: int) -> bool {
    &&& forall|i: int|
        0 < i < heap.len() && i != hole ==> !before(#[trigger] heap[i], heap[parent(i)])
    &&& forall|i: int|
        0 < i < heap.len() && parent(i) == hole && hole > 0 ==> !before(
            #[trigger] heap[i],
            heap[parent(hole)],
        )
}

/// No entry goes before its parent, except that the children of `hole` may
/// go before it; they do not go before its parent.
pub(crate) open spec fn heap_but_below(heap: Seq<Entry>, hole: int) -> bool {
    &&& forall|i: int|
        0 < i < heap.len() && parent(i) != hole ==> !before(#[trigger] heap[i], heap[parent(i)])
    &&& forall|i: int|
        0 < i < heap.len() && parent(i) == hole && hole > 0 ==> !before(
            #[trigger] heap[i],
            heap[parent(hole)],
        )
}

/// Each entry goes before all that stand behind it.
pub(crate) open spec fn sorted(order: Seq<Entry>) -> bool {
    forall|i: int, j: int| 0 <= i < j < order.len() ==> before(order[i], order[j])
}

/// `order` holds the entries of `heap` in the order in which they leave.
pub(crate) open spec fn arranges(order: Seq<Entry>, heap: Seq<Entry>) -> bool {
    sorted(order) && order.to_multiset() == heap.to_multiset()
}

/// Whatever holds an entry of one of two sequences with the same entries is
/// an index into the other.
pub(crate) proof fn lemma_entry_found(from: Seq<Entry>, to: Seq<Entry>, i: int) -> (j: int)
    requires
        from.to_multiset() == to.to_multiset(),
        0 <= i < from.len(),
    ensures
        0 <= j < to.len(),
        to[j] == from[i],
{
    vstd::seq_lib::to_multiset_contains(from, from[i]);
    vstd::seq_lib::to_multiset_contains(to, from[i]);
    assert(from.contains(from[i]));
    to.index_of(from[i])
}

/// The entries of a heap can stand in the order in which they leave in one
/// way only.
pub(crate) proof fn lemma_arrangement_unique(first: Seq<Entry>, second: Seq<Entry>)
    requires
        sorted(first),
        sorted(second),
        first.to_multiset() == second.to_multiset(),
    ensures
        first == second,
    decreases first.len(),
{
    vstd::seq_lib::to_multiset_len(first);
    vstd::seq_lib::to_multiset_len(second);
    if first.len() > 0 {
        let i = lemma_entry_found(second, first, 0);
        let j = lemma_entry_found(first, second, 0);
        assert(first[0] == second[0]) by {
            if i > 0 {
                assert(before(first[0], first[i]));
            }
            if j > 0 {
                assert(before(second[0], second[j]));
            }
        }
        vstd::seq_lib::to_multiset_remove(first, 0);
        vstd::seq_lib::to_multiset_remove(second, 0);
        assert(first.remove(0) =~= first.drop_first());
        assert(second.remove(0) =~= second.drop_first());
        lemma_arrangement_unique(first.drop_first(), second.drop_first());
        assert(first =~= seq![first[0]] + first.drop_first());
        assert(second =~= seq![second[0]] + second.drop_first());
    } else {
        assert(first =~= second);
    }
}

/// The entry that leaves first stands at the root of the heap.
pub(crate) proof fn lemma_root_leaves_first(heap: Seq<Entry>, order: Seq<Entry>)
    requires
        heap_ordered(heap),
        arranges(order, heap),
        heap.len() > 0,
    ensures
        order.len() == heap.len(),
        order[0] == heap[0],
{
    vstd::seq_lib::to_multiset_len(heap);
    vstd::seq_lib::to_multiset_len(order);
    let i = lemma_entry_found(order, heap, 0);
    let j = lemma_entry_found(heap, order, 0);
    lemma_root_first(heap, i);
    if j > 0 {
        assert(before(order[0], order[j]));
    }
}

/// Swapping two entries keeps the entries the same.
pub(crate) proof fn lemma_swap_keeps_entries(heap: Seq<Entry>, i: int, j: int)
    requires
        0 <= i < heap.len(),
        0 <= j < heap.len(),
    ensures
        heap.update(i, heap[j]).update(j, heap[i]).to_multiset() == heap.to_multiset(),
{
    let half = heap.update(i, heap[j]);
    vstd::seq_lib::to_multiset_update(heap, i, heap[j]);
    vstd::seq_lib::to_multiset_update(half, j, heap[i]);
    heap.to_multiset_ensures();
    assert(heap.to_multiset().count(heap[i]) > 0);
    assert(heap.to_multiset().count(heap[j]) > 0);
    assert(heap.to_multiset().insert(heap[j]).remove(heap[i]).insert(heap[i]).remove(half[j])
        =~= heap.to_multiset());
}

/// The first entry of a heap goes before all others or is their equal in
/// order.
pub(crate) proof fn lemma_root_first(heap: Seq<Entry>, i: int)
    requires
        heap_ordered(heap),
        0 <= i < heap.len(),
    ensures
        !before(heap[i], heap[0]),
    decreases i,
{
    if i > 0 {
        lemma_root_first(heap, parent(i));
    }
}

/// Does `a` leave before `b`?
pub(crate) fn precedes(a: &Entry, b: &Entry) -> (yes: bool)
    ensures
        yes == before(*a, *b),
{
    a.message.time.0 < b.message.time.0 || (a.message.time.0 == b.message.time.0 && a.seq
        < b.seq)
}

/// Swap the entries at `i` and `j`.
fn swap(heap: &mut Vec<Entry>, i: usize, j: usize)
    requires
        i < old(heap).len(),
        j < old(heap).len(),
    ensures
        final(heap)@ == old(heap)@.update(i as int, old(heap)@[j as int]).update(
            j as int,
            old(heap)@[i as int],
        ),
        final(heap)@.to_multiset() == old(heap)@.to_multiset(),
{
    let a = heap[i];
    let b = heap[j];
    heap[i] = b;
    heap[j] = a;
    proof {
        lemma_swap_keeps_entries(old(heap)@, i as int, j as int);
    }
}

/// Move the entry at `start` up until it does not go before its parent.
pub(crate) fn sift_up(heap: &mut Vec<Entry>, start: usize)
    requires
        start < old(heap).len(),
        heap_but_above(old(heap)@, start as int),
    ensures
        heap_ordered(final(heap)@),
        final(heap)@.to_multiset() == old(heap)@.to_multiset(),
        final(heap)@.len() == old(heap)@.len(),
{
    let mut i = start;
    while i > 0
        invariant
            i < heap.len(),
            heap@.len() == old(heap)@.len(),
            heap@.to_multiset() == old(heap)@.to_multiset(),
            heap_but_above(heap@, i as int),
        ensures
            heap@.len() == old(heap)@.len(),
            heap@.to_multiset() == old(heap)@.to_multiset(),
            heap_ordered(heap@),
        decreases i,
    {
        let up = (i - 1) / 2;
        if precedes(&heap[i], &heap[up]) {
            swap(heap, i, up);
            i = up;
        } else {
            break ;
        }
    }
}

/// Move the entry at the root down until neither child goes before it.
pub(crate) fn sift_down(heap: &mut Vec<Entry>)
    requires
        old(heap).len() > 0,
        heap_but_below(old(heap)@, 0),
    ensures
        heap_ordered(final(heap)@),
        final(heap)@.to_multiset() == old(heap)@.to_multiset(),
        final(heap)@.len() == old(heap)@.len(),
{
    let len = heap.len();
    let mut i: usize = 0;
    while i < len / 2
        invariant
            i < len,
            len == heap.len(),
            heap@.len() == old(heap)@.len(),
            heap@.to_multiset() == old(heap)@.to_multiset(),
            heap_but_below(heap@, i as int),
        ensures
            heap@.len() == old(heap)@.len(),
            heap@.to_multiset() == old(heap)@.to_multiset(),
            heap_ordered(heap@),
        decreases len - i,
    {
        let left = 2 * i + 1;
        let right = left + 1;
        let child = if right < len && precedes(&heap[right], &heap[left]) {
            right
        } else {
            left
        };
        if precedes(&heap[child], &heap[i]) {
            swap(heap, child, i);
            i = child;
        } else {
            break ;
        }
    }
}

} // verus!
