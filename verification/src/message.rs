//! The value records of the simulation: instants, event messages and events,
//! each with the mathematical value that contracts speak of.

use vstd::prelude::*;

verus! {

/// A simulated instant.
///
/// Instants are whole numbers, so any two of them compare and sorting by
/// them is exact.
#[derive(Debug, Clone, Copy, PartialEq, Eq, PartialOrd, Ord)]
pub struct Time(pub u32);

impl View for Time {
    type V = nat;

    open spec fn view(&self) -> nat {
        self.0 as nat
    }
}

/// What an event message asks for.
///
/// - `Arrive`: an item presents itself at the buffer.
/// - `CallToServe`: the next buffered item is called into service.
/// - `Exit`: an item in service is done and leaves its server.
#[derive(Debug, Clone, Copy, PartialEq, Eq)]
pub enum EventMessageType {
    Arrive,
    CallToServe,
    Exit,
}

/// An _event message_ is a statement about a future event: a kind and the
/// time at which it is to be acted on.
#[derive(Debug, Clone, Copy, PartialEq, Eq)]
pub struct EventMessage {
    pub event_message_type: EventMessageType,
    pub time: Time,
}

/// The mathematical value of an [`EventMessage`]: its kind and its time as a
/// natural number.
pub struct MessageView {
    pub kind: EventMessageType,
    pub time: nat,
}

impl View for EventMessage {
    type V = MessageView;

    open spec fn view(&self) -> MessageView {
        MessageView { kind: self.event_message_type, time: self.time@ }
    }
}

/// What an event records: one change of one of the two counts.
#[derive(Debug, Clone, Copy, PartialEq, Eq)]
pub enum EventType {
    BufferIncremented,
    BufferDecremented,
    ServerIncremented,
    ServerDecremented,
}

/// An _event_ is a statement about something that happened: what changed,
/// and when.
#[derive(Debug, Clone, Copy, PartialEq, Eq)]
pub struct Event {
    pub time: Time,
    pub event_type: EventType,
}

/// The mathematical value of an [`Event`].
pub struct EventView {
    pub time: nat,
    pub kind: EventType,
}

impl View for Event {
    type V = EventView;

    open spec fn view(&self) -> EventView {
        EventView { time: self.time@, kind: self.event_type }
    }
}

/// The values of a run of event messages, in the same order.
pub open spec fn message_views(messages: Seq<EventMessage>) -> Seq<MessageView> {
    messages.map_values(|m: EventMessage| m@)
}

/// The values of a run of events, in the same order.
pub open spec fn event_views(events: Seq<Event>) -> Seq<EventView> {
    events.map_values(|e: Event| e@)
}

} // verus!
