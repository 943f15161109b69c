//! A discrete-event simulation of a single-stage queue: one buffer that
//! feeds one bank of parallel servers, each serving for the same fixed time.
//!
//! Arrivals, calls to serve and exits are event messages in a queue ordered
//! by time. [`step`] takes the earliest, lets [`handle_message`] change the
//! state, and puts the messages that follow back into the queue and the
//! events into the log. A run ends when no message is pending.

pub mod consistency;
pub mod engine;
mod heap;
pub mod log;
pub mod message;
pub mod queue;
pub mod run;
pub mod state;
pub mod transition;

pub use engine::step;
pub use log::EventLog;
pub use message::{Event, EventMessage, EventMessageType, EventType, Time};
pub use queue::EventMessageQueue;
pub use state::QueueState;
pub use transition::handle_message;
