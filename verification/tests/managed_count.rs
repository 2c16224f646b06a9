use managed_state::{
    InMemoryBackend, ManagedCount, StateBackend, StateBackendInfo, StateError, StateHandle,
};

const STATE_BACKEND_INFO: StateBackendInfo = StateBackendInfo {};

#[test]
fn fresh_count_is_zero() {
    let handle = StateHandle::new(InMemoryBackend::new(&STATE_BACKEND_INFO), "counter");
    let count = handle.get_managed_count("unseen");
    assert_eq!(count.get(), 0);
}

#[test]
fn fresh_count_does_not_write() {
    let handle = StateHandle::new(InMemoryBackend::new(&STATE_BACKEND_INFO), "counter");
    let _ = handle.get_managed_count("unseen");
    assert_eq!(handle.backend().get_count("unseen"), 0);
}

#[test]
fn incr_adds_and_writes_through() {
    let mut handle = StateHandle::new(InMemoryBackend::new(&STATE_BACKEND_INFO), "counter");
    let mut count = handle.get_managed_count("words");

    assert_eq!(count.incr(handle.backend_mut(), 5), Ok(()));
    assert_eq!(count.get(), 5);
    assert_eq!(handle.backend().get_count("words"), 5);
}

#[test]
fn incrs_add_up_to_their_sum() {
    let mut handle = StateHandle::new(InMemoryBackend::new(&STATE_BACKEND_INFO), "counter");
    let mut count = handle.get_managed_count("words");

    let amounts: [u64; 6] = [3, 0, 10, 1, 250, 7];
    let mut sum: u64 = 0;
    for amount in amounts {
        assert_eq!(count.incr(handle.backend_mut(), amount), Ok(()));
        sum += amount;
        assert_eq!(count.get(), sum);
        assert_eq!(handle.backend().get_count("words"), sum);
    }
    assert_eq!(count.get(), 271);
    assert_eq!(handle.backend().get_count("words"), 271);
}

#[test]
fn no_incr_leaves_the_count_alone() {
    let mut backend = InMemoryBackend::new(&STATE_BACKEND_INFO);
    backend.store_count("words", 4);
    let count = ManagedCount::new(&backend, "words");
    assert_eq!(count.get(), 4);
    assert_eq!(backend.get_count("words"), 4);
}

#[test]
fn incr_by_zero_still_writes_the_total() {
    let mut backend = InMemoryBackend::new(&STATE_BACKEND_INFO);
    let mut count = ManagedCount::new(&backend, "words");
    assert_eq!(count.incr(&mut backend, 0), Ok(()));
    assert_eq!(count.get(), 0);
    assert_eq!(backend.get_count("words"), 0);
}

#[test]
fn new_proxy_starts_from_the_stored_total() {
    let mut handle = StateHandle::new(InMemoryBackend::new(&STATE_BACKEND_INFO), "counter");
    let mut first = handle.get_managed_count("words");
    assert_eq!(first.incr(handle.backend_mut(), 41), Ok(()));

    let mut second = handle.get_managed_count("words");
    assert_eq!(second.get(), 41);
    assert_eq!(second.incr(handle.backend_mut(), 1), Ok(()));
    assert_eq!(second.get(), 42);
    assert_eq!(handle.backend().get_count("words"), 42);
}

#[test]
fn incr_up_to_the_limit_is_accepted() {
    let mut backend = InMemoryBackend::new(&STATE_BACKEND_INFO);
    let mut count = ManagedCount::new(&backend, "words");
    assert_eq!(count.incr(&mut backend, u64::MAX - 1), Ok(()));
    assert_eq!(count.incr(&mut backend, 1), Ok(()));
    assert_eq!(count.get(), u64::MAX);
    assert_eq!(backend.get_count("words"), u64::MAX);
}

#[test]
fn incr_past_the_limit_is_refused_and_changes_nothing() {
    let mut backend = InMemoryBackend::new(&STATE_BACKEND_INFO);
    let mut count = ManagedCount::new(&backend, "words");
    assert_eq!(count.incr(&mut backend, u64::MAX), Ok(()));
    assert_eq!(count.incr(&mut backend, 1), Err(StateError::CounterOverflow));
    assert_eq!(count.get(), u64::MAX);
    assert_eq!(backend.get_count("words"), u64::MAX);

    assert_eq!(count.incr(&mut backend, 0), Ok(()));
    assert_eq!(count.get(), u64::MAX);
}

#[test]
fn overflow_does_not_create_the_counter() {
    let mut backend = InMemoryBackend::new(&STATE_BACKEND_INFO);
    backend.store_count("words", u64::MAX);
    let mut stale = ManagedCount::new(&backend, "words");
    backend.store_count("words", 3);
    assert_eq!(stale.incr(&mut backend, 1), Err(StateError::CounterOverflow));
    assert_eq!(backend.get_count("words"), 3);
}

#[test]
fn counters_of_different_names_do_not_touch() {
    let mut backend = InMemoryBackend::new(&STATE_BACKEND_INFO);
    let mut apples = ManagedCount::new(&backend, "apples");
    let mut pears = ManagedCount::new(&backend, "pears");

    assert_eq!(apples.incr(&mut backend, 2), Ok(()));
    assert_eq!(pears.incr(&mut backend, 3), Ok(()));
    assert_eq!(apples.incr(&mut backend, 2), Ok(()));

    assert_eq!(apples.get(), 4);
    assert_eq!(pears.get(), 3);
    assert_eq!(backend.get_count("apples"), 4);
    assert_eq!(backend.get_count("pears"), 3);
}

#[test]
fn second_proxy_for_a_name_goes_stale() {
    let mut backend = InMemoryBackend::new(&STATE_BACKEND_INFO);
    let mut first = ManagedCount::new(&backend, "words");
    let mut second = ManagedCount::new(&backend, "words");

    assert_eq!(first.incr(&mut backend, 10), Ok(()));
    assert_eq!(second.get(), 0);
    assert_eq!(second.incr(&mut backend, 1), Ok(()));
    assert_eq!(second.get(), 1);
    assert_eq!(backend.get_count("words"), 1);
    assert_eq!(first.get(), 10);
}

#[test]
fn handle_gives_its_backend_back() {
    let mut handle = StateHandle::new(InMemoryBackend::new(&STATE_BACKEND_INFO), "counter");
    let mut count = handle.get_managed_count("words");
    assert_eq!(count.incr(handle.backend_mut(), 8), Ok(()));
    let backend = handle.into_backend();
    assert_eq!(backend.get_count("words"), 8);
}

#[test]
fn backend_store_then_get_count() {
    let mut backend = InMemoryBackend::new(&STATE_BACKEND_INFO);
    assert_eq!(backend.get_count("a"), 0);
    backend.store_count("a", 7);
    assert_eq!(backend.get_count("a"), 7);
    backend.store_count("a", 2);
    assert_eq!(backend.get_count("a"), 2);
    assert_eq!(backend.get_count("b"), 0);
    assert_eq!(backend.get_count(""), 0);
}
