//! The simulation step: take the earliest pending message, handle it, and
//! put what follows from it back into the queue and the log.

use vstd::prelude::*;
use crate::log::EventLog;
use crate::message::{event_views, message_views, EventView, MessageView};
use crate::queue::{enqueue_all, EventMessageQueue};
use crate::state::{QueueState, StateView};
use crate::transition::{enabled, exit_time_fits, handle_message, transition};

verus! {

/// A simulation at one point of its run: the pending messages in the order
/// in which they will be handled, the state, and the log so far.
pub struct Simulation {
    pub pending: Seq<MessageView>,
    pub state: StateView,
    pub log: Seq<EventView>,
}

impl Simulation {
    /// No message is pending: the run is over.
    pub open spec fn finished(self) -> bool {
        self.pending.len() == 0
    }

    /// The simulation one step later: the first pending message has been
    /// handled, the clock stands at its time, the messages that follow from
    /// it are pending, and the events it caused are logged.
    pub open spec fn step(self) -> Simulation
        recommends
            !self.finished(),
    {
        let message = self.pending[0];
        let outcome = transition(message, self.state);
        Simulation {
            pending: enqueue_all(self.pending.drop_first(), outcome.messages),
            state: outcome.state.set_time(message.time),
            log: self.log + outcome.events,
        }
    }

    /// The next step can be taken: the run is over, or the first pending
    /// message can be handled.
    pub open spec fn can_step(self) -> bool {
        !self.finished() ==> enabled(self.pending[0], self.state)
    }

    /// If the next step schedules an exit, its time is one that can be held.
    pub open spec fn step_fits(self) -> bool {
        !self.finished() ==> exit_time_fits(self.pending[0], self.state)
    }
}

/// The simulation that the three parts make up.
pub open spec fn simulation_of(
    emq: &EventMessageQueue,
    queue_state: &QueueState,
    event_log: &EventLog,
) -> Simulation {
    Simulation { pending: emq@, state: queue_state@, log: event_log@ }
}

/// Step the simulation forward by handling the next event message.
///
/// Returns `None`, and changes nothing, when no message is pending.
/// Otherwise returns the three parts it was given, one step later: the
/// counts are still within their capacities, and where the pending messages
/// and the state fit together they still do, and the clock has not gone
/// backward.
#[verifier::loop_isolation(false)]
pub fn step<'a>(
    emq: &'a mut EventMessageQueue,
    queue_state: &'a mut QueueState,
    event_log: &'a mut EventLog,
) -> (next: Option<(&'a mut EventMessageQueue, &'a mut QueueState, &'a mut EventLog)>)
    requires
        old(emq).wf(),
        simulation_of(old(emq), old(queue_state), old(event_log)).can_step(),
        simulation_of(old(emq), old(queue_state), old(event_log)).step_fits(),
    ensures
        match next {
            None => {
                &&& simulation_of(old(emq), old(queue_state), old(event_log)).finished()
                &&& *final(emq) == *old(emq)
                &&& *final(queue_state) == *old(queue_state)
                &&& *final(event_log) == *old(event_log)
            },
            Some((queue, state, log)) => {
                &&& !simulation_of(old(emq), old(queue_state), old(event_log)).finished()
                &&& queue.wf()
                &&& simulation_of(queue, state, log) == simulation_of(
                    old(emq),
                    old(queue_state),
                    old(event_log),
                ).step()
                &&& old(queue_state)@.within_capacity() ==> state@.within_capacity()
                &&& simulation_of(old(emq), old(queue_state), old(event_log)).consistent() ==> {
                    &&& simulation_of(queue, state, log).consistent()
                    &&& state@.time >= old(queue_state)@.time
                }
                &&& *final(emq) == *final(queue)
                &&& *final(queue_state) == *final(state)
                &&& *final(event_log) == *final(log)
            },
        },
{
    let ghost start = simulation_of(emq, queue_state, event_log);
    if let Some((event_message, emq)) = emq.pop() {
        let ghost rest = emq@;
        let ghost logged = event_log@;
        let (queue_state, event_messages, events) = handle_message(event_message, queue_state);
        let queue_state = queue_state.set_time(event_message.time);
        let mut i: usize = 0;
        while i < event_messages.len()
            invariant
                i <= event_messages.len(),
                emq.wf(),
                emq@ == enqueue_all(rest, message_views(event_messages@).take(i as int)),
            decreases event_messages.len() - i,
        {
            assert(message_views(event_messages@).take(i + 1).drop_last() =~= message_views(
                event_messages@,
            ).take(i as int));
            emq.push(event_messages[i]);
            i += 1;
        }
        assert(message_views(event_messages@).take(i as int) =~= message_views(event_messages@));
        let mut j: usize = 0;
        while j < events.len()
            invariant
                j <= events.len(),
                event_log@ == logged + event_views(events@).take(j as int),
            decreases events.len() - j,
        {
            event_log.push(events[j]);
            assert(event_log@ =~= logged + event_views(events@).take(j + 1));
            j += 1;
        }
        proof {
            assert(event_views(events@).take(j as int) =~= event_views(events@));
            if start.consistent() {
                start.lemma_step_consistent();
            }
        }
        Some((emq, queue_state, event_log))
    } else {
        None
    }
}

} // verus!
