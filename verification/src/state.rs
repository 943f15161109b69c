//! The state of the queueing system: the clock, the two counts, and the
//! fixed capacities and service time.

use vstd::prelude::*;
use crate::message::Time;

verus! {

/// The mathematical value of a [`QueueState`].
pub struct StateView {
    pub time: nat,
    pub buffer_count: nat,
    pub buffer_capacity: nat,
    pub server_count: nat,
    pub server_capacity: nat,
    pub server_duration: nat,
}

impl StateView {
    /// The state of an idle system at time zero.
    pub open spec fn initial(
        buffer_capacity: nat,
        server_capacity: nat,
        server_duration: nat,
    ) -> StateView {
        StateView {
            time: 0,
            buffer_count: 0,
            buffer_capacity,
            server_count: 0,
            server_capacity,
            server_duration,
        }
    }

    /// Neither count exceeds its capacity.
    pub open spec fn within_capacity(self) -> bool {
        &&& self.buffer_count <= self.buffer_capacity
        &&& self.server_count <= self.server_capacity
    }

    /// The buffer has room for one more item.
    pub open spec fn can_buffer(self) -> bool {
        self.buffer_count < self.buffer_capacity
    }

    /// An item is waiting and a server is free.
    pub open spec fn can_serve(self) -> bool {
        self.buffer_count > 0 && self.server_count < self.server_capacity
    }

    /// The capacities and the service time of `self` and `other` agree.
    pub open spec fn same_parameters(self, other: StateView) -> bool {
        &&& self.buffer_capacity == other.buffer_capacity
        &&& self.server_capacity == other.server_capacity
        &&& self.server_duration == other.server_duration
    }

    /// The state with the clock at `time`.
    pub open spec fn set_time(self, time: nat) -> StateView {
        StateView { time, ..self }
    }

    /// The state with one more item in the buffer.
    pub open spec fn inc_buffer(self) -> StateView {
        StateView { buffer_count: self.buffer_count + 1, ..self }
    }

    /// The state with one item fewer in the buffer.
    pub open spec fn dec_buffer(self) -> StateView
        recommends
            self.buffer_count > 0,
    {
        StateView { buffer_count: (self.buffer_count - 1) as nat, ..self }
    }

    /// The state with one more item in service.
    pub open spec fn inc_server(self) -> StateView {
        StateView { server_count: self.server_count + 1, ..self }
    }

    /// The state with one item fewer in service.
    pub open spec fn dec_server(self) -> StateView
        recommends
            self.server_count > 0,
    {
        StateView { server_count: (self.server_count - 1) as nat, ..self }
    }
}

/// The system state: the time, the buffer and server counts, and the fixed
/// capacities and service time.
///
/// The fields change through the methods below and in no other way; the
/// capacities and the service time never change.
#[derive(Debug)]
pub struct QueueState {
    time: Time,
    buffer_count: u32,
    buffer_capacity: u32,
    server_count: u32,
    server_capacity: u32,
    server_duration: u32,
}

impl View for QueueState {
    type V = StateView;

    closed spec fn view(&self) -> StateView {
        StateView {
            time: self.time@,
            buffer_count: self.buffer_count as nat,
            buffer_capacity: self.buffer_capacity as nat,
            server_count: self.server_count as nat,
            server_capacity: self.server_capacity as nat,
            server_duration: self.server_duration as nat,
        }
    }
}

impl QueueState {
    /// Create the state of an idle system at time zero.
    pub fn new(buffer_capacity: u32, server_capacity: u32, server_duration: u32) -> (state: Self)
        ensures
            state@ == StateView::initial(
                buffer_capacity as nat,
                server_capacity as nat,
                server_duration as nat,
            ),
    {
        Self {
            time: Time(0),
            buffer_count: 0,
            buffer_capacity,
            server_count: 0,
            server_capacity,
            server_duration,
        }
    }

    /// The time of the message handled last.
    pub fn time(&self) -> (time: Time)
        ensures
            time@ == self@.time,
    {
        self.time
    }

    /// The number of items that wait in the buffer.
    pub fn buffer_count(&self) -> (count: u32)
        ensures
            count == self@.buffer_count,
    {
        self.buffer_count
    }

    /// The number of items that the buffer can hold.
    pub fn buffer_capacity(&self) -> (capacity: u32)
        ensures
            capacity == self@.buffer_capacity,
    {
        self.buffer_capacity
    }

    /// The number of items in service.
    pub fn server_count(&self) -> (count: u32)
        ensures
            count == self@.server_count,
    {
        self.server_count
    }

    /// The number of items that can be in service at once.
    pub fn server_capacity(&self) -> (capacity: u32)
        ensures
            capacity == self@.server_capacity,
    {
        self.server_capacity
    }

    /// The time that one service takes.
    pub fn server_duration(&self) -> (duration: u32)
        ensures
            duration == self@.server_duration,
    {
        self.server_duration
    }

    /// Set the time.
    pub fn set_time(&mut self, time: Time) -> (state: &mut Self)
        ensures
            state@ == old(self)@.set_time(time@),
            *final(self) == *final(state),
    {
        self.time = time;
        self
    }

    /// Increment the buffer count. The buffer must have room.
    pub fn inc_buffer(&mut self) -> (state: &mut Self)
        requires
            old(self)@.can_buffer(),
        ensures
            state@ == old(self)@.inc_buffer(),
            *final(self) == *final(state),
    {
        self.buffer_count += 1;
        self
    }

    /// Decrement the buffer count. The buffer must hold an item.
    pub fn dec_buffer(&mut self) -> (state: &mut Self)
        requires
            old(self)@.buffer_count > 0,
        ensures
            state@ == old(self)@.dec_buffer(),
            *final(self) == *final(state),
    {
        self.buffer_count -= 1;
        self
    }

    /// Increment the server count. A server must be free.
    pub fn inc_server(&mut self) -> (state: &mut Self)
        requires
            old(self)@.server_count < old(self)@.server_capacity,
        ensures
            state@ == old(self)@.inc_server(),
            *final(self) == *final(state),
    {
        self.server_count += 1;
        self
    }

    /// Decrement the server count. An item must be in service.
    pub fn dec_server(&mut self) -> (state: &mut Self)
        requires
            old(self)@.server_count > 0,
        ensures
            state@ == old(self)@.dec_server(),
            *final(self) == *final(state),
    {
        self.server_count -= 1;
        self
    }

    /// Check if the queue can accommodate a newly arrived item: the buffer
    /// is under capacity.
    pub fn can_buffer(&self) -> (yes: bool)
        ensures
            yes == self@.can_buffer(),
    {
        self.buffer_count < self.buffer_capacity
    }

    /// Check if the queue can serve the next item: the buffer is occupied
    /// and a server is free.
    pub fn can_serve(&self) -> (yes: bool)
        ensures
            yes == self@.can_serve(),
    {
        self.buffer_count > 0 && self.server_count < self.server_capacity
    }
}

} // verus!
