//! The event message queue: the pending event messages, earliest first.

use vstd::prelude::*;
use vstd::seq_lib::{
    to_multiset_build, to_multiset_insert, to_multiset_len, to_multiset_remove,
    to_multiset_update,
};
use crate::heap::{
    arranges, before, heap_ordered, lemma_arrangement_unique, lemma_entry_found,
    lemma_root_leaves_first, parent, sift_down, sift_up, sorted, Entry,
};
use crate::message::{EventMessage, MessageView};

verus! {

/// No message of `pending` stands before an earlier one.
pub open spec fn time_ordered(pending: Seq<MessageView>) -> bool {
    forall|i: int, j: int| 0 <= i <= j < pending.len() ==> pending[i].time <= pending[j].time
}

/// The place that a new message with the given time takes among `pending`:
/// right behind the last message that is not later than it, and in front of
/// all if there is no such message.
pub open spec fn slot(pending: Seq<MessageView>, time: nat) -> nat
    decreases pending.len(),
{
    if pending.len() == 0 || pending.last().time <= time {
        pending.len()
    } else {
        slot(pending.drop_last(), time)
    }
}

/// The pending messages after `message` has joined them.
pub open spec fn enqueue(pending: Seq<MessageView>, message: MessageView) -> Seq<MessageView> {
    pending.insert(slot(pending, message.time) as int, message)
}

/// The pending messages after each of `messages` has joined them, the first
/// of them first.
pub open spec fn enqueue_all(pending: Seq<MessageView>, messages: Seq<MessageView>) -> Seq<
    MessageView,
>
    decreases messages.len(),
{
    if messages.len() == 0 {
        pending
    } else {
        enqueue(enqueue_all(pending, messages.drop_last()), messages.last())
    }
}

/// The pending messages after the given number of them have left, or none if
/// there were no more.
pub open spec fn dequeue_n(pending: Seq<MessageView>, count: nat) -> Seq<MessageView>
    decreases count,
{
    if count == 0 || pending.len() == 0 {
        pending
    } else {
        dequeue_n(pending.drop_first(), (count - 1) as nat)
    }
}

/// Where a new message goes: every message from its slot on is later than
/// it, and the one just before its slot is not.
pub proof fn lemma_slot(pending: Seq<MessageView>, time: nat)
    ensures
        slot(pending, time) <= pending.len(),
        forall|i: int|
            slot(pending, time) <= i < pending.len() ==> (#[trigger] pending[i]).time > time,
        slot(pending, time) > 0 ==> pending[slot(pending, time) - 1].time <= time,
    decreases pending.len(),
{
    if pending.len() == 0 || pending.last().time <= time {
    } else {
        let front = pending.drop_last();
        lemma_slot(front, time);
        assert forall|i: int| slot(pending, time) <= i < pending.len() implies (
        #[trigger] pending[i]).time > time by {
            if i < front.len() {
                assert(front[i] == pending[i]);
            }
        }
    }
}

/// Among messages in order of time, a new message goes behind every message
/// that is not later than it, those of its own time included, and in front of
/// every later one. The messages stay in order of time.
pub proof fn lemma_enqueue_ordered(pending: Seq<MessageView>, message: MessageView)
    requires
        time_ordered(pending),
    ensures
        time_ordered(enqueue(pending, message)),
        forall|i: int|
            0 <= i < pending.len() ==> ((#[trigger] pending[i]).time <= message.time <==> i < slot(
                pending,
                message.time,
            )),
{
    lemma_slot(pending, message.time);
}

/// Joining messages to messages in order of time leaves them in order of
/// time, and adds as many as joined.
pub proof fn lemma_enqueue_all_ordered(pending: Seq<MessageView>, messages: Seq<MessageView>)
    requires
        time_ordered(pending),
    ensures
        time_ordered(enqueue_all(pending, messages)),
        enqueue_all(pending, messages).len() == pending.len() + messages.len(),
    decreases messages.len(),
{
    if messages.len() > 0 {
        let before = enqueue_all(pending, messages.drop_last());
        lemma_enqueue_all_ordered(pending, messages.drop_last());
        lemma_enqueue_ordered(before, messages.last());
        lemma_slot(before, messages.last().time);
    }
}

/// `place` tells where each of `pushed` stands in `pending`: each in a place
/// of its own, and of two of them the one pushed first stands in front
/// unless it is the later one.
pub open spec fn leaves_in_order(
    pushed: Seq<MessageView>,
    pending: Seq<MessageView>,
    place: Seq<int>,
) -> bool {
    &&& place.len() == pushed.len()
    &&& pending.len() == pushed.len()
    &&& forall|k: int|
        0 <= k < pushed.len() ==> 0 <= #[trigger] place[k] < pending.len() && pending[place[k]]
            == pushed[k]
    &&& forall|a: int, b: int|
        0 <= a < b < pushed.len() ==> #[trigger] place[a] != #[trigger] place[b] && (place[a]
            < place[b] <==> pushed[a].time <= pushed[b].time)
}

/// Messages pushed onto an empty queue leave it in order of time, and those
/// of equal time in the order in which they were pushed. Returns the place
/// of each in the queue.
pub proof fn lemma_leaves_in_order(pushed: Seq<MessageView>) -> (place: Seq<int>)
    ensures
        time_ordered(enqueue_all(Seq::empty(), pushed)),
        leaves_in_order(pushed, enqueue_all(Seq::empty(), pushed), place),
    decreases pushed.len(),
{
    lemma_enqueue_all_ordered(Seq::empty(), pushed);
    if pushed.len() == 0 {
        Seq::empty()
    } else {
        let front = pushed.drop_last();
        let newest = pushed.last();
        let before = enqueue_all(Seq::empty(), front);
        let places = lemma_leaves_in_order(front);
        let at = slot(before, newest.time) as int;
        lemma_slot(before, newest.time);
        lemma_enqueue_ordered(before, newest);
        let place = Seq::new(
            pushed.len(),
            |k: int|
                if k == front.len() {
                    at
                } else if places[k] < at {
                    places[k]
                } else {
                    places[k] + 1
                },
        );
        let pending = enqueue_all(Seq::empty(), pushed);
        assert(pending == before.insert(at, newest));
        assert forall|k: int| 0 <= k < pushed.len() implies 0 <= #[trigger] place[k]
            < pending.len() && pending[place[k]] == pushed[k] by {
            if k < front.len() {
                assert(before[places[k]] == front[k]);
            }
        }
        assert forall|a: int, b: int| 0 <= a < b < pushed.len() implies #[trigger] place[a]
            != #[trigger] place[b] && (place[a] < place[b] <==> pushed[a].time
            <= pushed[b].time) by {
            assert(before[places[a]] == front[a]);
            if b < front.len() {
                assert(places[a] != places[b]);
            }
        }
        place
    }
}

/// After as many messages have left as there were, none is pending.
pub proof fn lemma_dequeue_all(pending: Seq<MessageView>)
    ensures
        dequeue_n(pending, pending.len()) == Seq::<MessageView>::empty(),
    decreases pending.len(),
{
    if pending.len() > 0 {
        lemma_dequeue_all(pending.drop_first());
    } else {
        assert(pending =~= Seq::empty());
    }
}

/// Pushing messages onto an empty queue and popping as many leaves the
/// queue empty again.
pub proof fn lemma_round_trip(pushed: Seq<MessageView>)
    ensures
        enqueue_all(Seq::empty(), pushed).len() == pushed.len(),
        dequeue_n(enqueue_all(Seq::empty(), pushed), pushed.len()) == Seq::<MessageView>::empty(),
{
    lemma_enqueue_all_ordered(Seq::empty(), pushed);
    lemma_dequeue_all(enqueue_all(Seq::empty(), pushed));
}

/// The messages of the entries, in the same order.
spec fn messages_of(order: Seq<Entry>) -> Seq<MessageView> {
    order.map_values(|e: Entry| e.message@)
}

/// A priority queue that holds event messages in order of event time.
/// Messages of equal time leave in the order in which they came.
///
/// The messages are kept in a binary heap, each with the number of the push
/// that brought it, so that both `push` and `pop` take a number of steps
/// that grows with the logarithm of the size.
#[derive(Debug)]
pub struct EventMessageQueue {
    heap: Vec<Entry>,
    next_seq: u64,
}

impl View for EventMessageQueue {
    type V = Seq<MessageView>;

    /// The pending messages in the order in which they will leave.
    closed spec fn view(&self) -> Seq<MessageView> {
        messages_of(self.order())
    }
}

impl EventMessageQueue {
    /// The entries in the order in which they will leave.
    closed spec fn order(&self) -> Seq<Entry> {
        choose|order: Seq<Entry>| arranges(order, self.heap@)
    }

    /// The queue is in a state that its own operations produce.
    pub closed spec fn wf(&self) -> bool {
        &&& heap_ordered(self.heap@)
        &&& arranges(self.order(), self.heap@)
        &&& forall|i: int|
            0 <= i < self.heap@.len() ==> (#[trigger] self.heap@[i]).seq < self.next_seq
    }

    /// The pending messages of a queue stand in order of time.
    pub proof fn lemma_time_ordered(&self)
        requires
            self.wf(),
        ensures
            time_ordered(self@),
    {
        let order = self.order();
        assert forall|i: int, j: int| 0 <= i <= j < self@.len() implies self@[i].time
            <= self@[j].time by {
            if i < j {
                assert(before(order[i], order[j]));
            }
        }
    }

    /// The entries of the heap are the pending messages: `order` is how
    /// they leave.
    proof fn lemma_order_is(&self, order: Seq<Entry>)
        requires
            arranges(order, self.heap@),
        ensures
            self.order() == order,
            self@ == messages_of(order),
    {
        lemma_arrangement_unique(self.order(), order);
    }

    /// Create an empty message queue.
    pub fn new() -> (queue: Self)
        ensures
            queue.wf(),
            queue@ == Seq::<MessageView>::empty(),
    {
        let queue = Self { heap: Vec::new(), next_seq: 0 };
        proof {
            queue.lemma_order_is(Seq::empty());
            assert(queue@ =~= Seq::empty());
        }
        queue
    }

    /// The number of pending messages.
    pub fn size(&self) -> (size: usize)
        requires
            self.wf(),
        ensures
            size == self@.len(),
    {
        proof {
            to_multiset_len(self.heap@);
            to_multiset_len(self.order());
        }
        self.heap.len()
    }

    /// Give the entries the numbers from zero on, in the order in which they
    /// will leave, so that the numbers above them are free again.
    fn renumber(&mut self)
        requires
            old(self).wf(),
        ensures
            final(self).wf(),
            final(self)@ == old(self)@,
            final(self).next_seq == final(self).heap@.len(),
    {
        let ghost start = self.order();
        let mut entries: Vec<Entry> = Vec::new();
        proof {
            to_multiset_len(self.heap@);
            to_multiset_len(self.order());
            assert(start.skip(0) =~= start);
        }
        while self.heap.len() > 0
            invariant
                self.wf(),
                sorted(start),
                self.order().len() == self.heap@.len(),
                entries@.len() <= start.len(),
                self.order() == start.skip(entries@.len() as int),
                forall|i: int|
                    0 <= i < entries@.len() ==> (#[trigger] entries@[i]).seq == i
                        && entries@[i].message == start[i].message,
            decreases self.heap@.len(),
        {
            let entry = self.pop_entry();
            let seq = entries.len() as u64;
            entries.push(Entry { message: entry.message, seq });
            proof {
                let done = entries@.len() as int;
                assert(start.skip(done - 1).drop_first() =~= start.skip(done));
                to_multiset_len(self.heap@);
                to_multiset_len(self.order());
            }
        }
        self.heap = entries;
        self.next_seq = self.heap.len() as u64;
        proof {
            let heap = self.heap@;
            assert(heap.len() == start.len());
            assert forall|i: int, j: int| 0 <= i < j < heap.len() implies before(
                heap[i],
                heap[j],
            ) by {
                assert(before(start[i], start[j]));
            }
            assert forall|i: int| 0 < i < heap.len() implies !before(
                #[trigger] heap[i],
                heap[parent(i)],
            ) by {
                assert(before(heap[parent(i)], heap[i]));
            }
            self.lemma_order_is(heap);
            assert(messages_of(heap) =~= messages_of(start));
        }
    }

    /// Push a new item onto the message queue. It will leave after every
    /// pending message that is not later than it, and before every later
    /// one.
    pub fn push(&mut self, message: EventMessage) -> (queue: &mut Self)
        requires
            old(self).wf(),
        ensures
            queue.wf(),
            queue@ == enqueue(old(self)@, message@),
            time_ordered(queue@),
            *final(self) == *final(queue),
    {
        if self.next_seq == u64::MAX {
            // The numbers have run out: number the entries anew from zero.
            self.renumber();
        }
        let ghost order = self.order();
        let ghost heap = self.heap@;
        let entry = Entry { message, seq: self.next_seq };
        self.heap.push(entry);
        let last = self.heap.len() - 1;
        sift_up(&mut self.heap, last);
        self.next_seq += 1;
        proof {
            self.lemma_pushed(order, heap, entry);
            self.lemma_time_ordered();
        }
        self
    }

    /// What a push does to the order in which the entries leave.
    proof fn lemma_pushed(&self, order: Seq<Entry>, heap: Seq<Entry>, entry: Entry)
        requires
            arranges(order, heap),
            forall|i: int| 0 <= i < heap.len() ==> (#[trigger] heap[i]).seq < entry.seq,
            self.heap@.to_multiset() == heap.push(entry).to_multiset(),
            heap_ordered(self.heap@),
            self.next_seq == entry.seq + 1,
        ensures
            self.wf(),
            self@ == enqueue(messages_of(order), entry.message@),
    {
        let pending = messages_of(order);
        let at = slot(pending, entry.message@.time) as int;
        let joined = order.insert(at, entry);
        lemma_slot(pending, entry.message@.time);
        assert(time_ordered(pending)) by {
            assert forall|i: int, j: int| 0 <= i <= j < pending.len() implies pending[i].time
                <= pending[j].time by {
                if i < j {
                    assert(before(order[i], order[j]));
                }
            }
        }
        lemma_enqueue_ordered(pending, entry.message@);
        assert forall|i: int, j: int| 0 <= i < j < joined.len() implies before(
            joined[i],
            joined[j],
        ) by {
            if i == at {
                assert(pending[j - 1].time > entry.message@.time);
            } else if j == at {
                let k = lemma_entry_found(order, heap, i);
                assert(pending[i].time <= entry.message@.time);
            } else {
                let a = if i < at { i } else { i - 1 };
                let b = if j < at { j } else { j - 1 };
                assert(before(order[a], order[b]));
            }
        }
        to_multiset_insert(order, at, entry);
        to_multiset_build(heap, entry);
        self.lemma_order_is(joined);
        assert(messages_of(joined) =~= enqueue(pending, entry.message@));
        assert forall|i: int| 0 <= i < self.heap@.len() implies (#[trigger] self.heap@[i]).seq
            < self.next_seq by {
            let k = lemma_entry_found(self.heap@, heap.push(entry), i);
        }
    }

    /// Take the entry that leaves first out of the heap.
    fn pop_entry(&mut self) -> (entry: Entry)
        requires
            old(self).wf(),
            old(self).heap@.len() > 0,
        ensures
            final(self).wf(),
            old(self).order().len() > 0,
            entry == old(self).order()[0],
            final(self).order() == old(self).order().drop_first(),
            final(self)@ == old(self)@.drop_first(),
            final(self).next_seq == old(self).next_seq,
            final(self).heap@.len() == old(self).heap@.len() - 1,
    {
        let ghost order = self.order();
        let ghost heap = self.heap@;
        let entry = self.heap.swap_remove(0);
        if self.heap.len() > 0 {
            sift_down(&mut self.heap);
        }
        proof {
            lemma_root_leaves_first(heap, order);
            let moved = heap.update(0, heap.last());
            to_multiset_update(heap, 0, heap.last());
            to_multiset_remove(moved, moved.len() - 1);
            assert(moved.remove(moved.len() - 1) =~= moved.drop_last());
            to_multiset_remove(order, 0);
            assert(order.remove(0) =~= order.drop_first());
            heap.to_multiset_ensures();
            assert(heap.to_multiset().count(heap.last()) > 0);
            assert(heap.to_multiset().insert(heap.last()).remove(heap[0]).remove(moved.last())
                =~= heap.to_multiset().remove(heap[0]));
            self.lemma_order_is(order.drop_first());
            assert(messages_of(order.drop_first()) =~= messages_of(order).drop_first());
            assert forall|i: int| 0 <= i < self.heap@.len() implies (
            #[trigger] self.heap@[i]).seq < self.next_seq by {
                let j = lemma_entry_found(self.heap@, order.drop_first(), i);
                let k = lemma_entry_found(order, heap, j + 1);
            }
        }
        entry
    }

    /// Pop the item at the head of the message queue: the earliest pending
    /// message, and of those of its time the one that came first. Returns
    /// `None` when no message is pending.
    pub fn pop(&mut self) -> (popped: Option<(EventMessage, &mut Self)>)
        requires
            old(self).wf(),
        ensures
            match popped {
                None => old(self)@.len() == 0 && *final(self) == *old(self),
                Some((message, queue)) => {
                    &&& old(self)@.len() > 0
                    &&& message@ == old(self)@[0]
                    &&& forall|i: int|
                        0 <= i < old(self)@.len() ==> message@.time <= (#[trigger] old(
                            self,
                        )@[i]).time
                    &&& queue.wf()
                    &&& queue@ == old(self)@.drop_first()
                    &&& time_ordered(queue@)
                    &&& *final(self) == *final(queue)
                },
            },
    {
        if self.heap.len() > 0 {
            proof {
                self.lemma_time_ordered();
            }
            let entry = self.pop_entry();
            proof {
                self.lemma_time_ordered();
                assert(entry.message@ == old(self)@[0]);
                assert forall|i: int| 0 <= i < old(self)@.len() implies entry.message@.time <= (
                #[trigger] old(self)@[i]).time by {
                    assert(old(self)@[0].time <= old(self)@[i].time);
                }
            }
            Some((entry.message, self))
        } else {
            proof {
                to_multiset_len(self.heap@);
                to_multiset_len(self.order());
            }
            None
        }
    }

    /// The item at the head of the message queue, which stays there.
    pub fn peek(&self) -> (head: Option<EventMessage>)
        requires
            self.wf(),
        ensures
            match head {
                None => self@.len() == 0,
                Some(message) => self@.len() > 0 && message@ == self@[0],
            },
    {
        proof {
            to_multiset_len(self.heap@);
            to_multiset_len(self.order());
        }
        if self.heap.len() > 0 {
            proof {
                lemma_root_leaves_first(self.heap@, self.order());
            }
            Some(self.heap[0].message)
        } else {
            None
        }
    }
}

} // verus!
