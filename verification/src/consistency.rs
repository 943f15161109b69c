//! What holds of a simulation at every point of its run, and why each step
//! keeps it so.

use vstd::prelude::*;
use crate::engine::Simulation;
use crate::message::{EventMessageType, EventType, EventView, MessageView};
use crate::queue::{
    enqueue, enqueue_all, lemma_enqueue_ordered, lemma_slot, slot, time_ordered,
};
use crate::transition::transition;

verus! {

/// The number of `items` that are `wanted`.
pub open spec fn tally<T>(items: Seq<T>, wanted: spec_fn(T) -> bool) -> nat
    decreases items.len(),
{
    if items.len() == 0 {
        0
    } else {
        tally(items.drop_last(), wanted) + if wanted(items.last()) {
            1nat
        } else {
            0nat
        }
    }
}

/// The number of pending messages of one kind.
pub open spec fn pending_of(pending: Seq<MessageView>, kind: EventMessageType) -> nat {
    tally(pending, |m: MessageView| m.kind == kind)
}

/// The number of logged events of one kind.
pub open spec fn logged_of(log: Seq<EventView>, kind: EventType) -> nat {
    tally(log, |e: EventView| e.kind == kind)
}

/// Counting two runs of items one after the other adds their counts.
pub proof fn lemma_tally_concat<T>(front: Seq<T>, back: Seq<T>, wanted: spec_fn(T) -> bool)
    ensures
        tally(front + back, wanted) == tally(front, wanted) + tally(back, wanted),
    decreases back.len(),
{
    if back.len() == 0 {
        assert(front + back =~= front);
    } else {
        assert((front + back).drop_last() =~= front + back.drop_last());
        lemma_tally_concat(front, back.drop_last(), wanted);
    }
}

/// A single item counts once if it is wanted.
pub proof fn lemma_tally_one<T>(item: T, wanted: spec_fn(T) -> bool)
    ensures
        tally(seq![item], wanted) == if wanted(item) {
            1nat
        } else {
            0nat
        },
{
    reveal_with_fuel(tally, 2);
}

/// Inserting an item anywhere adds it to the count.
pub proof fn lemma_tally_insert<T>(items: Seq<T>, at: int, item: T, wanted: spec_fn(T) -> bool)
    requires
        0 <= at <= items.len(),
    ensures
        tally(items.insert(at, item), wanted) == tally(items, wanted) + if wanted(item) {
            1nat
        } else {
            0nat
        },
{
    let front = items.take(at);
    let back = items.skip(at);
    assert(items =~= front + back);
    assert(items.insert(at, item) =~= (front + seq![item]) + back);
    lemma_tally_concat(front, back, wanted);
    lemma_tally_concat(front + seq![item], back, wanted);
    lemma_tally_concat(front, seq![item], wanted);
    lemma_tally_one(item, wanted);
}

/// Taking the first item away takes it from the count.
pub proof fn lemma_tally_drop_first<T>(items: Seq<T>, wanted: spec_fn(T) -> bool)
    requires
        items.len() > 0,
    ensures
        tally(items, wanted) == tally(items.drop_first(), wanted) + if wanted(items[0]) {
            1nat
        } else {
            0nat
        },
{
    assert(items =~= seq![items[0]] + items.drop_first());
    lemma_tally_concat(seq![items[0]], items.drop_first(), wanted);
    lemma_tally_one(items[0], wanted);
}

/// Joining no messages changes nothing, and joining one is one `enqueue`.
pub proof fn lemma_enqueue_all_short(pending: Seq<MessageView>, message: MessageView)
    ensures
        enqueue_all(pending, Seq::empty()) == pending,
        enqueue_all(pending, seq![message]) == enqueue(pending, message),
{
    reveal_with_fuel(enqueue_all, 2);
    assert(seq![message].drop_last() =~= Seq::<MessageView>::empty());
}

impl Simulation {
    /// The pending messages and the state fit together:
    ///
    /// - neither count exceeds its capacity;
    /// - the pending messages stand in order of time, and none is earlier
    ///   than the clock;
    /// - each item in service has its exit pending, and no other exit is;
    /// - as many calls to serve are pending as items could be served now.
    pub open spec fn consistent(self) -> bool {
        &&& self.state.within_capacity()
        &&& time_ordered(self.pending)
        &&& forall|i: int|
            0 <= i < self.pending.len() ==> self.state.time <= (#[trigger] self.pending[i]).time
        &&& pending_of(self.pending, EventMessageType::Exit) == self.state.server_count
        &&& self.servable() <= pending_of(self.pending, EventMessageType::CallToServe)
    }

    /// The number of waiting items for which a server is free.
    pub open spec fn servable(self) -> nat {
        let free = (self.state.server_capacity - self.state.server_count) as nat;
        if self.state.buffer_count <= free {
            self.state.buffer_count
        } else {
            free
        }
    }

    /// The log tells the counts: what entered the buffer and has not left it
    /// waits there, what entered service and has not left it is in service,
    /// and what left the buffer entered service.
    pub open spec fn accounted(self) -> bool {
        &&& logged_of(self.log, EventType::BufferIncremented) == logged_of(
            self.log,
            EventType::BufferDecremented,
        ) + self.state.buffer_count
        &&& logged_of(self.log, EventType::ServerIncremented) == logged_of(
            self.log,
            EventType::ServerDecremented,
        ) + self.state.server_count
        &&& logged_of(self.log, EventType::BufferDecremented) == logged_of(
            self.log,
            EventType::ServerIncremented,
        )
    }

    /// A consistent simulation can always take its next step.
    pub proof fn lemma_consistent_can_step(self)
        requires
            self.consistent(),
        ensures
            self.can_step(),
    {
        if !self.finished() && self.pending[0].kind is Exit {
            lemma_tally_drop_first(
                self.pending,
                |m: MessageView| m.kind == EventMessageType::Exit,
            );
        }
    }

    /// A step of a consistent simulation leaves it consistent: in
    /// particular the counts stay within their capacities. The clock does
    /// not go backward, and the capacities and the service time stay as
    /// they are.
    pub proof fn lemma_step_consistent(self)
        requires
            self.consistent(),
            !self.finished(),
        ensures
            self.step().consistent(),
            self.step().state.time >= self.state.time,
            self.step().state.same_parameters(self.state),
    {
        let message = self.pending[0];
        let rest = self.pending.drop_first();
        let outcome = transition(message, self.state);
        let exits = |m: MessageView| m.kind == EventMessageType::Exit;
        let calls = |m: MessageView| m.kind == EventMessageType::CallToServe;
        lemma_tally_drop_first(self.pending, exits);
        lemma_tally_drop_first(self.pending, calls);
        assert(time_ordered(rest));
        if outcome.messages.len() == 0 {
            assert(outcome.messages =~= Seq::empty());
            lemma_enqueue_all_short(rest, message);
        } else {
            let next = outcome.messages[0];
            assert(outcome.messages =~= seq![next]);
            lemma_enqueue_all_short(rest, next);
            lemma_slot(rest, next.time);
            lemma_enqueue_ordered(rest, next);
            lemma_tally_insert(rest, slot(rest, next.time) as int, next, exits);
            lemma_tally_insert(rest, slot(rest, next.time) as int, next, calls);
        }
    }

    /// A step of a simulation whose log tells the counts leaves it so.
    pub proof fn lemma_step_accounted(self)
        requires
            self.accounted(),
            self.can_step(),
            !self.finished(),
        ensures
            self.step().accounted(),
    {
        let outcome = transition(self.pending[0], self.state);
        let buffered = |e: EventView| e.kind == EventType::BufferIncremented;
        let unbuffered = |e: EventView| e.kind == EventType::BufferDecremented;
        let served = |e: EventView| e.kind == EventType::ServerIncremented;
        let left = |e: EventView| e.kind == EventType::ServerDecremented;
        lemma_tally_concat(self.log, outcome.events, buffered);
        lemma_tally_concat(self.log, outcome.events, unbuffered);
        lemma_tally_concat(self.log, outcome.events, served);
        lemma_tally_concat(self.log, outcome.events, left);
        reveal_with_fuel(tally, 3);
        if outcome.events.len() == 2 {
            assert(outcome.events.drop_last() =~= seq![outcome.events[0]]);
            assert(outcome.events.drop_last().drop_last() =~= Seq::<EventView>::empty());
        } else if outcome.events.len() == 1 {
            assert(outcome.events.drop_last() =~= Seq::<EventView>::empty());
        }
    }
}

} // verus!
