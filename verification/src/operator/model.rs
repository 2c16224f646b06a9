//! The operator's behaviour as plain mathematics: what a run of records does
//! to the counters, what it emits, and which timestamps a frontier releases.

use crate::backend::{stored_count, StateError};
use crate::operator::frontier::Frontier;
use crate::primitives::managed_count::{counts_after_incr, total_after_incr};
use vstd::prelude::*;

verus! {

/// What one record emits when the counters are `counts`: its key with the
/// key's new total, or with the overflow.
pub open spec fn emitted_for(counts: Map<Seq<char>, u64>, record: (Seq<char>, u64)) -> (
    Seq<char>,
    Result<u64, StateError>,
) {
    (record.0, total_after_incr(stored_count(counts, record.0), record.1))
}

/// The counters after one record has been applied to `counts`.
pub open spec fn counts_after_record(
    counts: Map<Seq<char>, u64>,
    record: (Seq<char>, u64),
) -> Map<Seq<char>, u64> {
    counts_after_incr(counts, record.0, stored_count(counts, record.0), record.1)
}

/// The counters after `records` have been applied to `counts`, first to last.
pub open spec fn counts_after_records(
    counts: Map<Seq<char>, u64>,
    records: Seq<(Seq<char>, u64)>,
) -> Map<Seq<char>, u64>
    decreases records.len(),
{
    if records.len() == 0 {
        counts
    } else {
        counts_after_record(counts_after_records(counts, records.drop_last()), records.last())
    }
}

/// What `records` emit, one item per record and in their order, when they
/// are applied first to last starting from `counts`.
pub open spec fn emitted_for_records(
    counts: Map<Seq<char>, u64>,
    records: Seq<(Seq<char>, u64)>,
) -> Seq<(Seq<char>, Result<u64, StateError>)>
    decreases records.len(),
{
    if records.len() == 0 {
        Seq::empty()
    } else {
        emitted_for_records(counts, records.drop_last()).push(
            emitted_for(counts_after_records(counts, records.drop_last()), records.last()),
        )
    }
}

/// The records held for `time`, in arrival order; none if nothing is held.
pub open spec fn pending_at(held: Map<u64, Seq<(Seq<char>, u64)>>, time: u64) -> Seq<
    (Seq<char>, u64),
> {
    if held.contains_key(time) {
        held[time]
    } else {
        Seq::empty()
    }
}

/// The held batches after one more delivery for `time`: its records go
/// behind those already held for `time`, and a batch is opened if there was
/// none.
pub open spec fn held_after_buffer(
    held: Map<u64, Seq<(Seq<char>, u64)>>,
    time: u64,
    records: Seq<(Seq<char>, u64)>,
) -> Map<u64, Seq<(Seq<char>, u64)>> {
    held.insert(time, pending_at(held, time) + records)
}

/// The timestamps among the held ones that `frontier` releases: those at
/// which no more input can arrive.
pub open spec fn released_times(held: Map<u64, Seq<(Seq<char>, u64)>>, frontier: Frontier) -> Set<
    u64,
> {
    Set::new(|time: u64| held.contains_key(time) && !frontier.permits(time))
}

/// The batches that stay held under `frontier`: those at which input may
/// still arrive, each as it was.
pub open spec fn held_back(held: Map<u64, Seq<(Seq<char>, u64)>>, frontier: Frontier) -> Map<
    u64,
    Seq<(Seq<char>, u64)>,
> {
    held.restrict(Set::new(|time: u64| frontier.permits(time)))
}

/// Whether `times` rise strictly from each entry to the next.
pub open spec fn ascending(times: Seq<u64>) -> bool {
    forall|i: int, j: int| 0 <= i < j < times.len() ==> times[i] < times[j]
}

/// The counters after the batches held for `times` have been drained one
/// after the other, starting from `counts`.
pub open spec fn counts_after_sessions(
    counts: Map<Seq<char>, u64>,
    held: Map<u64, Seq<(Seq<char>, u64)>>,
    times: Seq<u64>,
) -> Map<Seq<char>, u64>
    decreases times.len(),
{
    if times.len() == 0 {
        counts
    } else {
        counts_after_records(
            counts_after_sessions(counts, held, times.drop_last()),
            pending_at(held, times.last()),
        )
    }
}

/// The sessions that draining the batches held for `times` gives, one per
/// timestamp and in the order of `times`, starting from `counts`.
pub open spec fn sessions_for(
    counts: Map<Seq<char>, u64>,
    held: Map<u64, Seq<(Seq<char>, u64)>>,
    times: Seq<u64>,
) -> Seq<(u64, Seq<(Seq<char>, Result<u64, StateError>)>)>
    decreases times.len(),
{
    if times.len() == 0 {
        Seq::empty()
    } else {
        sessions_for(counts, held, times.drop_last()).push(
            (
                times.last(),
                emitted_for_records(
                    counts_after_sessions(counts, held, times.drop_last()),
                    pending_at(held, times.last()),
                ),
            ),
        )
    }
}

/// The timestamps of `sessions`, in their order.
pub open spec fn session_times(
    sessions: Seq<(u64, Seq<(Seq<char>, Result<u64, StateError>)>)>,
) -> Seq<u64> {
    sessions.map_values(|session: (u64, Seq<(Seq<char>, Result<u64, StateError>)>)| session.0)
}

/// Whether `sessions` are what releasing under `frontier` gives when the
/// batches `held` are drained against `counts`: one session for each
/// released timestamp and for no other, earliest first, each with what its
/// batch emits after the sessions before it.
pub open spec fn is_release_of(
    sessions: Seq<(u64, Seq<(Seq<char>, Result<u64, StateError>)>)>,
    counts: Map<Seq<char>, u64>,
    held: Map<u64, Seq<(Seq<char>, u64)>>,
    frontier: Frontier,
) -> bool {
    &&& ascending(session_times(sessions))
    &&& session_times(sessions).to_set() == released_times(held, frontier)
    &&& sessions == sessions_for(counts, held, session_times(sessions))
}

/// A timestamp that the frontier still permits is not released: it is not
/// among the released timestamps, and its batch stays held as it was.
pub proof fn lemma_permitted_time_stays_held(
    held: Map<u64, Seq<(Seq<char>, u64)>>,
    frontier: Frontier,
    time: u64,
)
    requires
        held.contains_key(time),
        frontier.permits(time),
    ensures
        !released_times(held, frontier).contains(time),
        held_back(held, frontier).contains_key(time),
        held_back(held, frontier)[time] == held[time],
{
}

/// What is released is what was held and is no longer permitted, and none
/// of it stays held.
pub proof fn lemma_released_time_was_due(
    held: Map<u64, Seq<(Seq<char>, u64)>>,
    frontier: Frontier,
    time: u64,
)
    requires
        released_times(held, frontier).contains(time),
    ensures
        held.contains_key(time),
        !frontier.permits(time),
        !held_back(held, frontier).contains_key(time),
{
}

/// Deliveries for one timestamp accumulate: two deliveries in a row hold
/// what one delivery of all their records would hold.
pub proof fn lemma_deliveries_accumulate(
    held: Map<u64, Seq<(Seq<char>, u64)>>,
    time: u64,
    first: Seq<(Seq<char>, u64)>,
    second: Seq<(Seq<char>, u64)>,
)
    ensures
        held_after_buffer(held_after_buffer(held, time, first), time, second) == held_after_buffer(
            held,
            time,
            first + second,
        ),
{
    assert((pending_at(held, time) + first) + second =~= pending_at(held, time) + (first + second));
    assert(held_after_buffer(held_after_buffer(held, time, first), time, second)
        =~= held_after_buffer(held, time, first + second));
}

/// Two strictly rising sequences with the same entries are one sequence.
pub proof fn lemma_ascending_is_determined(left: Seq<u64>, right: Seq<u64>)
    requires
        ascending(left),
        ascending(right),
        left.to_set() == right.to_set(),
    ensures
        left == right,
    decreases left.len(),
{
    if left.len() == 0 {
        if right.len() > 0 {
            assert(right.to_set().contains(right[0]));
            assert(left.contains(right[0]));
        }
        assert(left =~= right);
    } else {
        assert(left.to_set().contains(left.last()));
        assert(right.contains(left.last()));
        let j = choose|j: int| 0 <= j < right.len() && right[j] == left.last();
        assert(right.to_set().contains(right.last()));
        assert(left.contains(right.last()));
        let i = choose|i: int| 0 <= i < left.len() && left[i] == right.last();
        assert(left.last() == right.last());
        assert forall|time: u64|
            left.drop_last().to_set().contains(time) == right.drop_last().to_set().contains(
                time,
            ) by {
            if left.drop_last().contains(time) {
                let k = choose|k: int|
                    0 <= k < left.drop_last().len() && left.drop_last()[k] == time;
                assert(left[k] == time);
                assert(left.to_set().contains(time));
                assert(right.contains(time));
                let m = choose|m: int| 0 <= m < right.len() && right[m] == time;
                assert(right.drop_last()[m] == time);
            }
            if right.drop_last().contains(time) {
                let k = choose|k: int|
                    0 <= k < right.drop_last().len() && right.drop_last()[k] == time;
                assert(right[k] == time);
                assert(right.to_set().contains(time));
                assert(left.contains(time));
                let m = choose|m: int| 0 <= m < left.len() && left[m] == time;
                assert(left.drop_last()[m] == time);
            }
        }
        assert(left.drop_last().to_set() =~= right.drop_last().to_set());
        lemma_ascending_is_determined(left.drop_last(), right.drop_last());
        assert(left =~= left.drop_last().push(left.last()));
        assert(right =~= right.drop_last().push(right.last()));
    }
}

/// A release has one outcome: the held batches, the counters and the
/// frontier determine the sessions, their order included.
pub proof fn lemma_release_is_determined(
    left: Seq<(u64, Seq<(Seq<char>, Result<u64, StateError>)>)>,
    right: Seq<(u64, Seq<(Seq<char>, Result<u64, StateError>)>)>,
    counts: Map<Seq<char>, u64>,
    held: Map<u64, Seq<(Seq<char>, u64)>>,
    frontier: Frontier,
)
    requires
        is_release_of(left, counts, held, frontier),
        is_release_of(right, counts, held, frontier),
    ensures
        left == right,
{
    lemma_ascending_is_determined(session_times(left), session_times(right));
}

} // verus!
