use queue_sim::{
    handle_message, Event, EventMessage, EventMessageType, EventType, QueueState, Time,
};

fn message(kind: EventMessageType, time: u32) -> EventMessage {
    EventMessage { event_message_type: kind, time: Time(time) }
}

fn event(kind: EventType, time: u32) -> Event {
    Event { time: Time(time), event_type: kind }
}

fn counts(state: &QueueState) -> (u32, u32) {
    (state.buffer_count(), state.server_count())
}

#[test]
fn new_state_is_idle_at_time_zero() {
    let state = QueueState::new(5, 2, 10);
    assert_eq!(Time(0), state.time());
    assert_eq!(0, state.buffer_count());
    assert_eq!(5, state.buffer_capacity());
    assert_eq!(0, state.server_count());
    assert_eq!(2, state.server_capacity());
    assert_eq!(10, state.server_duration());
}

#[test]
fn guards_follow_the_counts() {
    let mut state = QueueState::new(1, 1, 10);
    assert!(state.can_buffer());
    assert!(!state.can_serve());
    state.inc_buffer();
    assert!(!state.can_buffer());
    assert!(state.can_serve());
    state.dec_buffer().inc_server();
    assert!(state.can_buffer());
    assert!(!state.can_serve());
    state.inc_buffer();
    // An item waits, but the only server is taken.
    assert!(!state.can_serve());
    state.dec_server();
    assert!(state.can_serve());
}

#[test]
fn no_capacity_means_no_guard_holds() {
    let state = QueueState::new(0, 0, 10);
    assert!(!state.can_buffer());
    assert!(!state.can_serve());
}

#[test]
fn set_time_changes_only_the_time() {
    let mut state = QueueState::new(5, 2, 10);
    state.inc_buffer().set_time(Time(42));
    assert_eq!(Time(42), state.time());
    assert_eq!((1, 0), counts(&state));
    assert_eq!(5, state.buffer_capacity());
    assert_eq!(2, state.server_capacity());
    assert_eq!(10, state.server_duration());
}

#[test]
fn arrival_with_room_is_buffered() {
    let mut state = QueueState::new(2, 1, 10);
    let (state, messages, events) = handle_message(message(EventMessageType::Arrive, 7), &mut state);
    assert_eq!((1, 0), counts(state));
    assert_eq!(vec![message(EventMessageType::CallToServe, 7)], messages);
    assert_eq!(vec![event(EventType::BufferIncremented, 7)], events);
    // Handling a message does not move the clock.
    assert_eq!(Time(0), state.time());
}

#[test]
fn arrival_at_full_buffer_is_lost() {
    let mut state = QueueState::new(1, 1, 10);
    state.inc_buffer();
    let (state, messages, events) = handle_message(message(EventMessageType::Arrive, 7), &mut state);
    assert_eq!((1, 0), counts(state));
    assert!(messages.is_empty());
    assert!(events.is_empty());
}

#[test]
fn call_to_serve_moves_an_item_into_service() {
    let mut state = QueueState::new(2, 1, 10);
    state.inc_buffer();
    let (state, messages, events) =
        handle_message(message(EventMessageType::CallToServe, 7), &mut state);
    assert_eq!((0, 1), counts(state));
    assert_eq!(vec![message(EventMessageType::Exit, 17)], messages);
    assert_eq!(
        vec![event(EventType::BufferDecremented, 7), event(EventType::ServerIncremented, 7)],
        events
    );
}

#[test]
fn exit_is_scheduled_one_service_time_later() {
    let mut state = QueueState::new(1, 1, 0);
    state.inc_buffer();
    let (_, messages, _) = handle_message(message(EventMessageType::CallToServe, 3), &mut state);
    assert_eq!(vec![message(EventMessageType::Exit, 3)], messages);

    let mut state = QueueState::new(1, 1, 4_000_000_000);
    state.inc_buffer();
    let (_, messages, _) =
        handle_message(message(EventMessageType::CallToServe, 294_967_295), &mut state);
    assert_eq!(vec![message(EventMessageType::Exit, u32::MAX)], messages);
}

#[test]
fn call_to_serve_without_waiting_item_does_nothing() {
    let mut state = QueueState::new(2, 1, 10);
    let (state, messages, events) =
        handle_message(message(EventMessageType::CallToServe, 7), &mut state);
    assert_eq!((0, 0), counts(state));
    assert!(messages.is_empty());
    assert!(events.is_empty());
}

#[test]
fn call_to_serve_without_free_server_does_nothing() {
    let mut state = QueueState::new(2, 1, 10);
    state.inc_buffer().inc_server();
    let (state, messages, events) =
        handle_message(message(EventMessageType::CallToServe, 7), &mut state);
    assert_eq!((1, 1), counts(state));
    assert!(messages.is_empty());
    assert!(events.is_empty());
}

#[test]
fn exit_frees_a_server_and_calls_to_serve() {
    let mut state = QueueState::new(2, 2, 10);
    state.inc_server().inc_server();
    let (state, messages, events) = handle_message(message(EventMessageType::Exit, 12), &mut state);
    assert_eq!((0, 1), counts(state));
    assert_eq!(vec![message(EventMessageType::CallToServe, 12)], messages);
    assert_eq!(vec![event(EventType::ServerDecremented, 12)], events);
}

#[test]
fn same_message_and_state_give_the_same_outcome() {
    let kinds = [EventMessageType::Arrive, EventMessageType::CallToServe, EventMessageType::Exit];
    for kind in kinds {
        let mut first = QueueState::new(2, 2, 10);
        first.inc_buffer().inc_server();
        let mut second = QueueState::new(2, 2, 10);
        second.inc_buffer().inc_server();
        let (a, a_messages, a_events) = handle_message(message(kind, 5), &mut first);
        let (b, b_messages, b_events) = handle_message(message(kind, 5), &mut second);
        assert_eq!(counts(a), counts(b));
        assert_eq!(a.time(), b.time());
        assert_eq!(a_messages, b_messages);
        assert_eq!(a_events, b_events);
    }
}
