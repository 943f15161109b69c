//! The event log: the record of what changed, in the order in which it
//! happened.

use vstd::prelude::*;
use crate::message::{event_views, Event, EventView};

verus! {

/// The event log holds the events of a run in the order in which they were
/// added. Events are only ever added to its end.
#[derive(Debug)]
pub struct EventLog {
    contents: Vec<Event>,
}

impl View for EventLog {
    type V = Seq<EventView>;

    closed spec fn view(&self) -> Seq<EventView> {
        event_views(self.contents@)
    }
}

impl EventLog {
    /// Create an empty log.
    pub fn new() -> (log: Self)
        ensures
            log@ == Seq::<EventView>::empty(),
    {
        let log = Self { contents: Vec::new() };
        assert(log@ =~= Seq::empty());
        log
    }

    /// Add a new event to the end of the log.
    pub fn push(&mut self, event: Event) -> (log: &mut Self)
        ensures
            log@ == old(self)@.push(event@),
            *final(self) == *final(log),
    {
        self.contents.push(event);
        assert(self@ =~= old(self)@.push(event@));
        self
    }

    /// The number of events in the log.
    pub fn size(&self) -> (size: usize)
        ensures
            size == self@.len(),
    {
        self.contents.len()
    }

    /// The events of the log, oldest first.
    pub fn contents(&self) -> (events: &Vec<Event>)
        ensures
            event_views(events@) == self@,
    {
        &self.contents
    }
}

} // verus!
