//! The transition function: what handling one event message does to the
//! state, which messages follow from it, and which events it records.

use vstd::prelude::*;
use crate::message::{
    event_views, message_views, Event, EventMessage, EventMessageType, EventType, EventView,
    MessageView, Time,
};
use crate::state::{QueueState, StateView};

verus! {

/// What handling one message yields: the next state, the messages that
/// follow, and the events that record what changed.
pub struct Outcome {
    pub state: StateView,
    pub messages: Seq<MessageView>,
    pub events: Seq<EventView>,
}

/// The outcome of a message that changes nothing.
pub open spec fn unchanged(state: StateView) -> Outcome {
    Outcome { state, messages: Seq::empty(), events: Seq::empty() }
}

/// The transition function of the queueing system.
///
/// - An arrival that finds room is buffered and calls for service at once;
///   one that finds the buffer full is lost.
/// - A call to serve that finds a waiting item and a free server moves the
///   item into service and schedules its exit one service time later;
///   otherwise it does nothing, and is not tried again by itself.
/// - An exit frees its server and calls for service at once.
pub open spec fn transition(message: MessageView, state: StateView) -> Outcome {
    let now = message.time;
    match message.kind {
        EventMessageType::Arrive => if state.can_buffer() {
            Outcome {
                state: state.inc_buffer(),
                messages: seq![MessageView { kind: EventMessageType::CallToServe, time: now }],
                events: seq![EventView { time: now, kind: EventType::BufferIncremented }],
            }
        } else {
            unchanged(state)
        },
        EventMessageType::CallToServe => if state.can_serve() {
            Outcome {
                state: state.dec_buffer().inc_server(),
                messages: seq![
                    MessageView { kind: EventMessageType::Exit, time: now + state.server_duration },
                ],
                events: seq![
                    EventView { time: now, kind: EventType::BufferDecremented },
                    EventView { time: now, kind: EventType::ServerIncremented },
                ],
            }
        } else {
            unchanged(state)
        },
        EventMessageType::Exit => Outcome {
            state: state.dec_server(),
            messages: seq![MessageView { kind: EventMessageType::CallToServe, time: now }],
            events: seq![EventView { time: now, kind: EventType::ServerDecremented }],
        },
    }
}

/// The message can be handled in this state: an exit needs an item in
/// service to vacate. Arrivals and calls to serve can always be handled.
pub open spec fn enabled(message: MessageView, state: StateView) -> bool {
    message.kind is Exit ==> state.server_count > 0
}

/// The time of the exit that the message schedules, if it schedules one, is
/// a time that [`Time`] can hold.
pub open spec fn exit_time_fits(message: MessageView, state: StateView) -> bool {
    message.kind is CallToServe && state.can_serve() ==> message.time + state.server_duration
        <= u32::MAX
}

/// The transition function is deterministic: the same message in the same
/// state has the same outcome, in state, follow-up messages and events.
pub proof fn lemma_transition_deterministic(
    first_message: MessageView,
    first_state: StateView,
    second_message: MessageView,
    second_state: StateView,
)
    requires
        first_message == second_message,
        first_state == second_state,
    ensures
        transition(first_message, first_state) == transition(second_message, second_state),
{
}

/// A message that can be handled leaves the counts within their capacities,
/// and the capacities and the service time as they are.
pub proof fn lemma_transition_within_capacity(message: MessageView, state: StateView)
    requires
        state.within_capacity(),
        enabled(message, state),
    ensures
        transition(message, state).state.within_capacity(),
        transition(message, state).state.same_parameters(state),
        transition(message, state).state.time == state.time,
{
}

/// Handle the event message by updating the state and creating the follow-up
/// event messages and the events to record.
///
/// Returns the state it was given, the follow-up messages and the events,
/// both in the order in which they arose.
pub fn handle_message(event_message: EventMessage, queue_state: &mut QueueState) -> (out: (
    &mut QueueState,
    Vec<EventMessage>,
    Vec<Event>,
))
    requires
        enabled(event_message@, old(queue_state)@),
        exit_time_fits(event_message@, old(queue_state)@),
    ensures
        out.0@ == transition(event_message@, old(queue_state)@).state,
        *final(queue_state) == *final(out.0),
        message_views(out.1@) == transition(event_message@, old(queue_state)@).messages,
        event_views(out.2@) == transition(event_message@, old(queue_state)@).events,
        old(queue_state)@.within_capacity() ==> out.0@.within_capacity(),
{
    let now = event_message.time;
    match event_message.event_message_type {
        EventMessageType::Arrive => {
            if queue_state.can_buffer() {
                // If an item can be added to the buffer, increment the buffer
                // and create an event message to call for the next item to be
                // served.
                let messages = vec![
                    EventMessage { event_message_type: EventMessageType::CallToServe, time: now },
                ];
                let events = vec![Event { event_type: EventType::BufferIncremented, time: now }];
                proof {
                    assert(message_views(messages@) =~= transition(
                        event_message@,
                        queue_state@,
                    ).messages);
                    assert(event_views(events@) =~= transition(event_message@, queue_state@).events);
                }
                (queue_state.inc_buffer(), messages, events)
            } else {
                // If the newly arrived item can't be added to the buffer, the
                // state is unchanged and there are no new messages. Items that
                // can't be buffered are discarded.
                let messages: Vec<EventMessage> = Vec::new();
                let events: Vec<Event> = Vec::new();
                proof {
                    assert(message_views(messages@) =~= Seq::empty());
                    assert(event_views(events@) =~= Seq::empty());
                }
                (queue_state, messages, events)
            }
        },
        EventMessageType::CallToServe => {
            if queue_state.can_serve() {
                // If an item can be served, decrement the buffer, increment
                // the server, and create an exit event message.
                let exit_time = Time(now.0 + queue_state.server_duration());
                let messages = vec![
                    EventMessage { event_message_type: EventMessageType::Exit, time: exit_time },
                ];
                let events = vec![
                    Event { event_type: EventType::BufferDecremented, time: now },
                    Event { event_type: EventType::ServerIncremented, time: now },
                ];
                proof {
                    assert(message_views(messages@) =~= transition(
                        event_message@,
                        queue_state@,
                    ).messages);
                    assert(event_views(events@) =~= transition(event_message@, queue_state@).events);
                }
                (queue_state.dec_buffer().inc_server(), messages, events)
            } else {
                // If an item can't be served, the state is unchanged and there
                // are no new messages.
                let messages: Vec<EventMessage> = Vec::new();
                let events: Vec<Event> = Vec::new();
                proof {
                    assert(message_views(messages@) =~= Seq::empty());
                    assert(event_views(events@) =~= Seq::empty());
                }
                (queue_state, messages, events)
            }
        },
        EventMessageType::Exit => {
            let messages = vec![
                EventMessage { event_message_type: EventMessageType::CallToServe, time: now },
            ];
            let events = vec![Event { event_type: EventType::ServerDecremented, time: now }];
            proof {
                assert(message_views(messages@) =~= transition(event_message@, queue_state@).messages);
                assert(event_views(events@) =~= transition(event_message@, queue_state@).events);
            }
            (queue_state.dec_server(), messages, events)
        },
    }
}

} // verus!
