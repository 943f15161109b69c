use queue_sim::{
    step, Event, EventLog, EventMessage, EventMessageQueue, EventMessageType, EventType,
    QueueState, Time,
};

#[test]
fn test_emq_mechanics() {
    // Prime the EMQ with a couple messages
    let emq = &mut EventMessageQueue::new();
    let emq = vec![
        EventMessage {
            event_message_type: EventMessageType::Arrive,
            time: Time(1),
        },
        EventMessage {
            event_message_type: EventMessageType::Arrive,
            time: Time(2),
        },
    ]
    .iter()
    .fold(emq, |acc, &em| acc.push(em));

    // Check the initial size.
    assert_eq!(2, emq.size());

    // Pop an item, check the item, and check the resulting size.
    if let Some((e, emq)) = emq.pop() {
        assert_eq!(
            EventMessage {
                event_message_type: EventMessageType::Arrive,
                time: Time(1),
            },
            e,
        );
        assert_eq!(1, emq.size());
    }
}

#[test]
fn test_state_updates() {
    // Instantiate the state.
    let state = &mut QueueState::new(5, 1, 10);

    // Apply a series of increments and decrements and check the final
    // counts.
    let state = state.inc_buffer().inc_buffer().inc_server().dec_buffer();
    assert_eq!(1, state.buffer_count());
    assert_eq!(1, state.server_count());
}

#[test]
fn test_event_log() {
    // Add an event to the log and check the size.
    let log = &mut EventLog::new();
    let e = Event {
        time: Time(0),
        event_type: EventType::BufferIncremented,
    };
    let log = log.push(e);
    assert_eq!(1, log.size());
}

#[test]
fn test_one_message_one_step() {
    // Instantiate the EMQ, queue state, and event log.
    let emq = &mut EventMessageQueue::new();
    let state = &mut QueueState::new(5, 1, 10);
    let log = &mut EventLog::new();
    let emq = emq.push(EventMessage {
        event_message_type: EventMessageType::Arrive,
        time: Time(0),
    });

    // Apply `step` once and check the EMQ and log contents.
    if let Some((emq, state, log)) = step(emq, state, log) {
        assert_eq!(1, state.buffer_count());
        if let Some((next_message, _emq)) = emq.pop() {
            assert_eq!(
                EventMessageType::CallToServe,
                next_message.event_message_type
            );
            assert_eq!(1, log.size());
        }
    }
}
