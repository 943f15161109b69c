//! Whole runs: a simulation seeded with arrivals and stepped until no
//! message is pending, and what holds along the way and at the end.

use vstd::prelude::*;
use crate::consistency::{
    lemma_enqueue_all_short, lemma_tally_drop_first, lemma_tally_insert, logged_of, pending_of,
};
use crate::engine::Simulation;
use crate::message::{EventMessageType, EventType, MessageView};
use crate::queue::{enqueue_all, lemma_enqueue_all_ordered, lemma_slot, slot};
use crate::state::StateView;
use crate::transition::transition;

verus! {

/// Every one of `messages` is an arrival.
pub open spec fn arrivals_only(messages: Seq<MessageView>) -> bool {
    forall|i: int| 0 <= i < messages.len() ==> (#[trigger] messages[i]).kind is Arrive
}

impl Simulation {
    /// The start of a run: an idle system at time zero, an empty log, and
    /// the given arrivals pending.
    pub open spec fn seeded(
        arrivals: Seq<MessageView>,
        buffer_capacity: nat,
        server_capacity: nat,
        server_duration: nat,
    ) -> Simulation {
        Simulation {
            pending: enqueue_all(Seq::empty(), arrivals),
            state: StateView::initial(buffer_capacity, server_capacity, server_duration),
            log: Seq::empty(),
        }
    }

    /// The simulation after the given number of steps, or at the end of its
    /// run if that comes first.
    pub open spec fn after(self, steps: nat) -> Simulation
        decreases steps,
    {
        if steps == 0 || self.finished() {
            self
        } else {
            self.step().after((steps - 1) as nat)
        }
    }

    /// A bound on the number of steps that are left. A pending arrival may
    /// yet be buffered, called, served and sent off; a waiting item may yet
    /// be served and sent off; an item in service will be sent off, and
    /// each of these ends with one more call.
    pub open spec fn work(self) -> nat {
        5 * pending_of(self.pending, EventMessageType::Arrive) + 3 * self.state.buffer_count + 2
            * pending_of(self.pending, EventMessageType::Exit) + pending_of(
            self.pending,
            EventMessageType::CallToServe,
        )
    }
}

/// Joining messages adds to the pending messages of each kind as many as
/// joined of that kind.
pub proof fn lemma_enqueue_all_kinds(pending: Seq<MessageView>, messages: Seq<MessageView>)
    ensures
        forall|kind: EventMessageType| #[trigger]
            pending_of(enqueue_all(pending, messages), kind) == pending_of(pending, kind)
                + pending_of(messages, kind),
    decreases messages.len(),
{
    if messages.len() > 0 {
        let before = enqueue_all(pending, messages.drop_last());
        lemma_enqueue_all_kinds(pending, messages.drop_last());
        lemma_slot(before, messages.last().time);
        assert forall|kind: EventMessageType| #[trigger]
            pending_of(enqueue_all(pending, messages), kind) == pending_of(pending, kind)
                + pending_of(messages, kind) by {
            lemma_tally_insert(
                before,
                slot(before, messages.last().time) as int,
                messages.last(),
                |m: MessageView| m.kind == kind,
            );
            assert(pending_of(before, kind) == pending_of(pending, kind) + pending_of(
                messages.drop_last(),
                kind,
            ));
        }
    }
}

/// Among arrivals, no message of another kind is found.
pub proof fn lemma_arrivals_only(messages: Seq<MessageView>)
    requires
        arrivals_only(messages),
    ensures
        pending_of(messages, EventMessageType::Arrive) == messages.len(),
        pending_of(messages, EventMessageType::CallToServe) == 0,
        pending_of(messages, EventMessageType::Exit) == 0,
    decreases messages.len(),
{
    if messages.len() > 0 {
        lemma_arrivals_only(messages.drop_last());
    }
}

impl Simulation {
    /// A run starts consistent, with a log that tells the counts.
    pub proof fn lemma_seeded(
        arrivals: Seq<MessageView>,
        buffer_capacity: nat,
        server_capacity: nat,
        server_duration: nat,
    )
        requires
            arrivals_only(arrivals),
        ensures
            Simulation::seeded(
                arrivals,
                buffer_capacity,
                server_capacity,
                server_duration,
            ).consistent(),
            Simulation::seeded(
                arrivals,
                buffer_capacity,
                server_capacity,
                server_duration,
            ).accounted(),
    {
        lemma_enqueue_all_ordered(Seq::empty(), arrivals);
        lemma_enqueue_all_kinds(Seq::empty(), arrivals);
        lemma_arrivals_only(arrivals);
        lemma_arrivals_only(Seq::empty());
    }

    /// Every state that a run reaches has its counts within their
    /// capacities, and the pending messages and the state fit together.
    pub proof fn lemma_run_within_capacity(
        arrivals: Seq<MessageView>,
        buffer_capacity: nat,
        server_capacity: nat,
        server_duration: nat,
        steps: nat,
    )
        requires
            arrivals_only(arrivals),
        ensures
            Simulation::seeded(arrivals, buffer_capacity, server_capacity, server_duration).after(
                steps,
            ).state.within_capacity(),
            Simulation::seeded(arrivals, buffer_capacity, server_capacity, server_duration).after(
                steps,
            ).consistent(),
    {
        Simulation::lemma_seeded(arrivals, buffer_capacity, server_capacity, server_duration);
        Simulation::seeded(
            arrivals,
            buffer_capacity,
            server_capacity,
            server_duration,
        ).lemma_after_consistent(steps);
    }

    /// Consistency lasts: however many steps a consistent simulation takes,
    /// it stays consistent, its counts within their capacities; its clock
    /// never goes backward; and its capacities and service time stay.
    pub proof fn lemma_after_consistent(self, steps: nat)
        requires
            self.consistent(),
        ensures
            self.after(steps).consistent(),
            self.after(steps).state.within_capacity(),
            self.after(steps).state.time >= self.state.time,
            self.after(steps).state.same_parameters(self.state),
        decreases steps,
    {
        if steps > 0 && !self.finished() {
            self.lemma_step_consistent();
            self.step().lemma_after_consistent((steps - 1) as nat);
        }
    }

    /// A log that tells the counts of a consistent simulation goes on
    /// telling them.
    pub proof fn lemma_after_accounted(self, steps: nat)
        requires
            self.consistent(),
            self.accounted(),
        ensures
            self.after(steps).accounted(),
        decreases steps,
    {
        if steps > 0 && !self.finished() {
            self.lemma_consistent_can_step();
            self.lemma_step_consistent();
            self.lemma_step_accounted();
            self.step().lemma_after_accounted((steps - 1) as nat);
        }
    }

    /// The clock of a consistent simulation never goes backward: later in
    /// the run it shows the same time or a later one.
    pub proof fn lemma_time_monotonic(self, earlier: nat, later: nat)
        requires
            self.consistent(),
            earlier <= later,
        ensures
            self.after(earlier).state.time <= self.after(later).state.time,
    {
        self.lemma_after_consistent(earlier);
        self.lemma_after_split(earlier, (later - earlier) as nat);
        self.after(earlier).lemma_after_consistent((later - earlier) as nat);
    }

    /// Taking some steps and then some more is taking them all.
    pub proof fn lemma_after_split(self, first: nat, second: nat)
        ensures
            self.after(first).after(second) == self.after(first + second),
        decreases first,
    {
        if first == 0 {
        } else if self.finished() {
            assert(self.after(second) == self) by {
                reveal_with_fuel(Simulation::after, 1);
            }
        } else {
            self.step().lemma_after_split((first - 1) as nat, second);
        }
    }

    /// Every step does some of the work that is left.
    pub proof fn lemma_step_works(self)
        requires
            !self.finished(),
        ensures
            self.step().work() < self.work(),
    {
        let message = self.pending[0];
        let rest = self.pending.drop_first();
        let outcome = transition(message, self.state);
        let arrivals = |m: MessageView| m.kind == EventMessageType::Arrive;
        let exits = |m: MessageView| m.kind == EventMessageType::Exit;
        let calls = |m: MessageView| m.kind == EventMessageType::CallToServe;
        lemma_tally_drop_first(self.pending, arrivals);
        lemma_tally_drop_first(self.pending, exits);
        lemma_tally_drop_first(self.pending, calls);
        if outcome.messages.len() == 0 {
            assert(outcome.messages =~= Seq::empty());
            lemma_enqueue_all_short(rest, message);
        } else {
            let next = outcome.messages[0];
            assert(outcome.messages =~= seq![next]);
            lemma_enqueue_all_short(rest, next);
            lemma_slot(rest, next.time);
            lemma_tally_insert(rest, slot(rest, next.time) as int, next, arrivals);
            lemma_tally_insert(rest, slot(rest, next.time) as int, next, exits);
            lemma_tally_insert(rest, slot(rest, next.time) as int, next, calls);
        }
    }

    /// Every run ends: once as many steps are taken as there is work, no
    /// message is pending.
    pub proof fn lemma_run_ends(self, steps: nat)
        requires
            self.work() <= steps,
        ensures
            self.after(steps).finished(),
        decreases steps,
    {
        if self.finished() {
        } else {
            self.lemma_step_works();
            self.step().lemma_run_ends((steps - 1) as nat);
        }
    }

    /// At the end of a run no item is in service, and no item waits unless
    /// there is no server at all.
    pub proof fn lemma_finished_idle(self)
        requires
            self.consistent(),
            self.finished(),
        ensures
            self.state.server_count == 0,
            self.state.buffer_count == 0 || self.state.server_capacity == 0,
    {
    }

    /// Every item that enters the buffer is served and leaves, provided that
    /// there is a server: at the end of the run, which comes, as many items
    /// have left service as have entered the buffer, and as many have
    /// entered service.
    pub proof fn lemma_every_item_leaves(self)
        requires
            self.consistent(),
            self.accounted(),
            self.state.server_capacity > 0,
        ensures
            self.after(self.work()).finished(),
            self.after(self.work()).state.buffer_count == 0,
            self.after(self.work()).state.server_count == 0,
            logged_of(self.after(self.work()).log, EventType::ServerDecremented) == logged_of(
                self.after(self.work()).log,
                EventType::BufferIncremented,
            ),
            logged_of(self.after(self.work()).log, EventType::ServerDecremented) == logged_of(
                self.after(self.work()).log,
                EventType::ServerIncremented,
            ),
    {
        let end = self.after(self.work());
        self.lemma_run_ends(self.work());
        self.lemma_after_consistent(self.work());
        self.lemma_after_accounted(self.work());
        end.lemma_finished_idle();
    }
}

} // verus!
