use managed_state::{
    apply_record, Emitted, Frontier, InMemoryBackend, Record, Session, StateBackend,
    StateBackendInfo, StateError, StateHandle, TimeBatchedOperator,
};

const STATE_BACKEND_INFO: StateBackendInfo = StateBackendInfo {};

fn handle() -> StateHandle<InMemoryBackend> {
    StateHandle::new(InMemoryBackend::new(&STATE_BACKEND_INFO), "WordCount")
}

fn total(key: &str, total: u64) -> Emitted {
    Emitted { key: key.to_owned(), total: Ok(total) }
}

#[test]
fn round_is_counted_once_per_timestamp() {
    let mut handle = handle();
    let mut operator = TimeBatchedOperator::new();

    for round in 0..10u64 {
        let held = operator.deliver(
            &mut handle,
            round,
            vec![Record::new("round", 1)],
            &Frontier::at(round),
        );
        assert_eq!(held, Vec::<Session>::new());
        assert!(operator.holds(round));

        let sessions = operator.release(&mut handle, &Frontier::at(round + 1));
        assert_eq!(
            sessions,
            vec![Session { time: round, updates: vec![total("round", round + 1)] }]
        );
        assert!(!operator.holds(round));
    }
    assert_eq!(handle.backend().get_count("round"), 10);
}

#[test]
fn keys_in_one_batch_keep_their_arrival_order() {
    let mut handle = handle();
    let mut operator = TimeBatchedOperator::new();

    operator.buffer(
        0,
        vec![Record::new("a", 1), Record::new("b", 1), Record::new("a", 1)],
    );
    let sessions = operator.release(&mut handle, &Frontier::at(1));
    assert_eq!(
        sessions,
        vec![Session { time: 0, updates: vec![total("a", 1), total("b", 1), total("a", 2)] }]
    );
    assert_eq!(handle.backend().get_count("a"), 2);
    assert_eq!(handle.backend().get_count("b"), 1);
}

#[test]
fn nothing_is_drained_while_the_frontier_permits_it() {
    let mut handle = handle();
    let mut operator = TimeBatchedOperator::new();

    operator.buffer(5, vec![Record::new("a", 1)]);
    for lower in 0..=5u64 {
        let sessions = operator.release(&mut handle, &Frontier::at(lower));
        assert_eq!(sessions, Vec::<Session>::new());
        assert!(operator.holds(5));
        assert_eq!(handle.backend().get_count("a"), 0);
    }
    let sessions = operator.release(&mut handle, &Frontier::at(6));
    assert_eq!(sessions, vec![Session { time: 5, updates: vec![total("a", 1)] }]);
    assert!(!operator.holds(5));
    assert_eq!(handle.backend().get_count("a"), 1);
}

#[test]
fn deliveries_for_one_timestamp_accumulate() {
    let mut handle = handle();
    let mut operator = TimeBatchedOperator::new();
    let frontier = Frontier::at(3);

    assert!(operator.deliver(&mut handle, 3, vec![Record::new("x", 2)], &frontier).is_empty());
    assert!(operator.deliver(&mut handle, 4, vec![Record::new("y", 1)], &frontier).is_empty());
    assert!(operator.deliver(&mut handle, 3, vec![Record::new("y", 5), Record::new("x", 1)], &frontier)
        .is_empty());

    let sessions = operator.release(&mut handle, &Frontier::at(4));
    assert_eq!(
        sessions,
        vec![Session { time: 3, updates: vec![total("x", 2), total("y", 5), total("x", 3)] }]
    );
    assert!(operator.holds(4));

    let sessions = operator.release(&mut handle, &Frontier::at(5));
    assert_eq!(sessions, vec![Session { time: 4, updates: vec![total("y", 6)] }]);
}

#[test]
fn one_advance_releases_several_timestamps_in_order() {
    let mut handle = handle();
    let mut operator = TimeBatchedOperator::new();

    operator.buffer(7, vec![Record::new("k", 100)]);
    operator.buffer(2, vec![Record::new("k", 1)]);
    operator.buffer(9, vec![Record::new("k", 1000)]);
    operator.buffer(4, vec![Record::new("k", 10)]);

    let sessions = operator.release(&mut handle, &Frontier::at(8));
    assert_eq!(
        sessions,
        vec![
            Session { time: 2, updates: vec![total("k", 1)] },
            Session { time: 4, updates: vec![total("k", 11)] },
            Session { time: 7, updates: vec![total("k", 111)] },
        ]
    );
    assert!(operator.holds(9));
    assert!(!operator.holds(2));
    assert!(!operator.holds(4));
    assert!(!operator.holds(7));
    assert_eq!(handle.backend().get_count("k"), 111);
}

#[test]
fn delivery_releases_an_older_timestamp_too() {
    let mut handle = handle();
    let mut operator = TimeBatchedOperator::new();

    operator.buffer(1, vec![Record::new("a", 1)]);
    let sessions = operator.deliver(&mut handle, 3, vec![Record::new("a", 1)], &Frontier::at(3));
    assert_eq!(sessions, vec![Session { time: 1, updates: vec![total("a", 1)] }]);
    assert!(operator.holds(3));
}

#[test]
fn closed_input_releases_everything() {
    let mut handle = handle();
    let mut operator = TimeBatchedOperator::new();

    operator.buffer(u64::MAX, vec![Record::new("z", 1)]);
    operator.buffer(0, vec![Record::new("z", 1)]);
    assert!(operator.release(&mut handle, &Frontier::at(0)).is_empty());

    let sessions = operator.release(&mut handle, &Frontier::closed());
    assert_eq!(
        sessions,
        vec![
            Session { time: 0, updates: vec![total("z", 1)] },
            Session { time: u64::MAX, updates: vec![total("z", 2)] },
        ]
    );
    assert!(!operator.holds(0));
    assert!(!operator.holds(u64::MAX));
}

#[test]
fn released_timestamp_gives_one_session_even_when_empty() {
    let mut handle = handle();
    let mut operator = TimeBatchedOperator::new();

    operator.buffer(1, Vec::new());
    assert!(operator.holds(1));
    let sessions = operator.release(&mut handle, &Frontier::at(2));
    assert_eq!(sessions, vec![Session { time: 1, updates: Vec::new() }]);
}

#[test]
fn release_with_nothing_held_gives_nothing() {
    let mut handle = handle();
    let mut operator = TimeBatchedOperator::new();
    assert!(operator.release(&mut handle, &Frontier::closed()).is_empty());
    assert!(!operator.holds(0));
}

#[test]
fn overflow_stops_one_key_and_not_the_others() {
    let mut handle = handle();
    let mut operator = TimeBatchedOperator::new();

    operator.buffer(
        0,
        vec![
            Record::new("big", u64::MAX),
            Record::new("small", 1),
            Record::new("big", 1),
            Record::new("small", 1),
            Record::new("big", 0),
        ],
    );
    let sessions = operator.release(&mut handle, &Frontier::at(1));
    assert_eq!(
        sessions,
        vec![Session {
            time: 0,
            updates: vec![
                total("big", u64::MAX),
                total("small", 1),
                Emitted { key: "big".to_owned(), total: Err(StateError::CounterOverflow) },
                total("small", 2),
                total("big", u64::MAX),
            ],
        }]
    );
    assert_eq!(handle.backend().get_count("big"), u64::MAX);
    assert_eq!(handle.backend().get_count("small"), 2);
}

#[test]
fn apply_record_emits_the_new_total() {
    let mut handle = handle();
    assert_eq!(apply_record(&mut handle, &Record::new("w", 4)), total("w", 4));
    assert_eq!(apply_record(&mut handle, &Record::new("w", 6)), total("w", 10));
    assert_eq!(apply_record(&mut handle, &Record::new("v", 0)), total("v", 0));
    assert_eq!(handle.backend().get_count("w"), 10);
    assert_eq!(handle.backend().get_count("v"), 0);
}

#[test]
fn record_new_keeps_key_and_amount() {
    let record = Record::new("word", 3);
    assert_eq!(record.key, "word");
    assert_eq!(record.diff, 3);
}

#[test]
fn frontier_permits_its_bound_and_later() {
    let frontier = Frontier::at(5);
    assert!(!frontier.less_equal(0));
    assert!(!frontier.less_equal(4));
    assert!(frontier.less_equal(5));
    assert!(frontier.less_equal(6));
    assert!(frontier.less_equal(u64::MAX));
    assert!(Frontier::at(0).less_equal(0));
}

#[test]
fn closed_frontier_permits_nothing() {
    let frontier = Frontier::closed();
    assert!(!frontier.less_equal(0));
    assert!(!frontier.less_equal(u64::MAX));
}

#[test]
fn operator_state_survives_between_releases() {
    let mut handle = handle();
    let mut operator = TimeBatchedOperator::new();

    operator.buffer(0, vec![Record::new("a", 1)]);
    let first = operator.release(&mut handle, &Frontier::at(1));
    assert_eq!(first, vec![Session { time: 0, updates: vec![total("a", 1)] }]);

    operator.buffer(1, vec![Record::new("a", 1)]);
    let second = operator.release(&mut handle, &Frontier::at(2));
    assert_eq!(second, vec![Session { time: 1, updates: vec![total("a", 2)] }]);

    assert!(operator.release(&mut handle, &Frontier::at(3)).is_empty());
}

#[test]
fn held_batches_are_dropped_with_the_operator() {
    let mut handle = handle();
    let mut operator = TimeBatchedOperator::new();

    operator.buffer(3, vec![Record::new("a", 1)]);
    assert!(operator.release(&mut handle, &Frontier::at(3)).is_empty());
    drop(operator);
    assert_eq!(handle.backend().get_count("a"), 0);
}
