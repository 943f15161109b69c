use queue_sim::{
    step, Event, EventLog, EventMessage, EventMessageQueue, EventMessageType, EventType,
    QueueState, Time,
};

fn arrive(time: u32) -> EventMessage {
    EventMessage { event_message_type: EventMessageType::Arrive, time: Time(time) }
}

fn event(kind: EventType, time: u32) -> Event {
    Event { time: Time(time), event_type: kind }
}

fn count(log: &EventLog, kind: EventType) -> usize {
    log.contents().iter().filter(|e| e.event_type == kind).count()
}

/// Steps until no message is pending; returns the number of steps taken and
/// checks at each step that the counts are within their capacities and that
/// the clock has not gone backward.
fn run(emq: &mut EventMessageQueue, state: &mut QueueState, log: &mut EventLog) -> usize {
    let mut steps = 0;
    let mut clock = state.time();
    while step(emq, state, log).is_some() {
        steps += 1;
        assert!(state.buffer_count() <= state.buffer_capacity());
        assert!(state.server_count() <= state.server_capacity());
        assert!(clock <= state.time());
        clock = state.time();
    }
    steps
}

#[test]
fn step_on_empty_queue_changes_nothing() {
    let mut emq = EventMessageQueue::new();
    let mut state = QueueState::new(5, 1, 10);
    let mut log = EventLog::new();
    assert!(step(&mut emq, &mut state, &mut log).is_none());
    assert_eq!(0, emq.size());
    assert_eq!(0, log.size());
    assert_eq!(Time(0), state.time());
    assert_eq!(0, state.buffer_count());
    assert_eq!(0, state.server_count());
}

#[test]
fn step_sets_the_clock_even_when_the_guard_fails() {
    let mut emq = EventMessageQueue::new();
    let mut state = QueueState::new(0, 1, 10);
    let mut log = EventLog::new();
    emq.push(arrive(6));
    assert!(step(&mut emq, &mut state, &mut log).is_some());
    assert_eq!(Time(6), state.time());
    assert_eq!(0, emq.size());
    assert_eq!(0, log.size());
}

#[test]
fn one_arrival_is_buffered_served_and_leaves() {
    let mut emq = EventMessageQueue::new();
    let mut state = QueueState::new(1, 1, 10);
    let mut log = EventLog::new();
    emq.push(arrive(0));
    let steps = run(&mut emq, &mut state, &mut log);
    assert_eq!(4, steps);
    assert_eq!(
        &vec![
            event(EventType::BufferIncremented, 0),
            event(EventType::BufferDecremented, 0),
            event(EventType::ServerIncremented, 0),
            event(EventType::ServerDecremented, 10),
        ],
        log.contents()
    );
    assert_eq!(4, log.size());
    assert_eq!(0, emq.size());
    assert_eq!(Time(10), state.time());
    assert_eq!(0, state.buffer_count());
    assert_eq!(0, state.server_count());
}

#[test]
fn arrival_without_buffer_is_discarded() {
    let mut emq = EventMessageQueue::new();
    let mut state = QueueState::new(0, 1, 10);
    let mut log = EventLog::new();
    emq.push(arrive(0));
    let steps = run(&mut emq, &mut state, &mut log);
    assert_eq!(1, steps);
    assert_eq!(0, log.size());
    assert!(log.contents().is_empty());
    assert_eq!(0, state.buffer_count());
    assert_eq!(0, emq.size());
}

#[test]
fn ten_arrivals_two_servers() {
    let mut emq = EventMessageQueue::new();
    let mut state = QueueState::new(5, 2, 10);
    let mut log = EventLog::new();
    for t in 0..10 {
        emq.push(arrive(t));
    }
    run(&mut emq, &mut state, &mut log);
    assert_eq!(0, emq.size());
    assert_eq!(0, state.buffer_count());
    assert_eq!(0, state.server_count());
    let served = count(&log, EventType::ServerIncremented);
    assert_eq!(served, count(&log, EventType::ServerDecremented));
    assert_eq!(served, count(&log, EventType::BufferIncremented));
    assert_eq!(served, count(&log, EventType::BufferDecremented));
    assert!(served <= 10);
    // Two arrivals go straight into service, five fill the buffer, and the
    // last three find it full.
    assert_eq!(7, served);
    assert_eq!(28, log.size());
    // The last item enters service at 30 and leaves at 40.
    assert_eq!(Time(40), state.time());
    assert_eq!(Some(&event(EventType::ServerDecremented, 40)), log.contents().last());
}

#[test]
fn log_is_in_order_of_time() {
    let mut emq = EventMessageQueue::new();
    let mut state = QueueState::new(3, 2, 4);
    let mut log = EventLog::new();
    for t in [9u32, 0, 3, 3, 1, 7, 2, 2] {
        emq.push(arrive(t));
    }
    run(&mut emq, &mut state, &mut log);
    let times: Vec<u32> = log.contents().iter().map(|e| e.time.0).collect();
    let mut sorted = times.clone();
    sorted.sort();
    assert_eq!(sorted, times);
}

#[test]
fn without_servers_items_wait_for_ever() {
    let mut emq = EventMessageQueue::new();
    let mut state = QueueState::new(2, 0, 10);
    let mut log = EventLog::new();
    for t in 0..4 {
        emq.push(arrive(t));
    }
    run(&mut emq, &mut state, &mut log);
    assert_eq!(0, emq.size());
    assert_eq!(2, state.buffer_count());
    assert_eq!(0, state.server_count());
    assert_eq!(
        &vec![event(EventType::BufferIncremented, 0), event(EventType::BufferIncremented, 1)],
        log.contents()
    );
}

#[test]
fn service_time_zero_still_ends() {
    let mut emq = EventMessageQueue::new();
    let mut state = QueueState::new(3, 1, 0);
    let mut log = EventLog::new();
    for _ in 0..3 {
        emq.push(arrive(5));
    }
    let steps = run(&mut emq, &mut state, &mut log);
    // Three arrivals, and for each a call, an exit and the call that
    // follows the exit.
    assert_eq!(12, steps);
    assert_eq!(0, state.buffer_count());
    assert_eq!(0, state.server_count());
    assert_eq!(3, count(&log, EventType::ServerDecremented));
    assert_eq!(Time(5), state.time());
}

#[test]
fn run_takes_no_more_steps_than_its_work() {
    let mut emq = EventMessageQueue::new();
    let mut state = QueueState::new(5, 2, 10);
    let mut log = EventLog::new();
    for t in 0..10 {
        emq.push(arrive(t));
    }
    // Five steps at most for each pending arrival.
    let steps = run(&mut emq, &mut state, &mut log);
    assert!(steps <= 50);
    // Seven arrivals take four steps each, three take one.
    assert_eq!(31, steps);
}

#[test]
fn log_keeps_events_in_the_order_added() {
    let mut log = EventLog::new();
    assert_eq!(0, log.size());
    log.push(event(EventType::ServerDecremented, 9))
        .push(event(EventType::BufferIncremented, 2))
        .push(event(EventType::ServerDecremented, 9));
    assert_eq!(3, log.size());
    assert_eq!(
        &vec![
            event(EventType::ServerDecremented, 9),
            event(EventType::BufferIncremented, 2),
            event(EventType::ServerDecremented, 9),
        ],
        log.contents()
    );
}
