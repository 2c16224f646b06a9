//! The operator itself: what it holds and the steps it takes.

use crate::backend::StateBackend;
use crate::handle::StateHandle;
use crate::operator::batches::{
    batch_index, batch_times, batches_by_time, has_batch, lemma_batch_found,
    lemma_batch_inserted, lemma_batch_replaced, lemma_split_by_frontier, rising, TimestampBatch,
};
use crate::operator::frontier::Frontier;
use crate::operator::model::{
    counts_after_record, counts_after_records, counts_after_sessions, emitted_for,
    emitted_for_records, held_after_buffer, held_back, is_release_of, session_times,
    sessions_for,
};
use crate::operator::records::{Emitted, Record, Session};
use vstd::prelude::*;

verus! {

/// Applies one record: the counter of the record's key is read, incremented
/// by the record's amount and written back, and the key is emitted with its
/// new total. An increment that overflows writes nothing and is emitted as
/// the overflow.
pub fn apply_record<B: StateBackend>(handle: &mut StateHandle<B>, record: &Record) -> (emitted:
    Emitted)
    ensures
        emitted.deep_view() == emitted_for(old(handle).store().counts(), record.deep_view()),
        final(handle).store().counts() == counts_after_record(
            old(handle).store().counts(),
            record.deep_view(),
        ),
        final(handle).store().values() == old(handle).store().values(),
        final(handle).operator_name() == old(handle).operator_name(),
{
    let mut count = handle.get_managed_count(record.key.as_str());
    let outcome = count.incr(handle.backend_mut(), record.diff);
    let total = match outcome {
        Ok(()) => Ok(count.get()),
        Err(error) => Err(error),
    };
    Emitted { key: record.key.clone(), total }
}

/// Applies the records of `deliveries`, delivery by delivery and record by
/// record, and collects what they emit in that order.
fn drain_deliveries<B: StateBackend>(
    handle: &mut StateHandle<B>,
    deliveries: &Vec<Vec<Record>>,
) -> (updates: Vec<Emitted>)
    ensures
        updates.deep_view() == emitted_for_records(
            old(handle).store().counts(),
            deliveries.deep_view().flatten(),
        ),
        final(handle).store().counts() == counts_after_records(
            old(handle).store().counts(),
            deliveries.deep_view().flatten(),
        ),
        final(handle).store().values() == old(handle).store().values(),
        final(handle).operator_name() == old(handle).operator_name(),
{
    let ghost start = handle.store().counts();
    let ghost all = deliveries.deep_view();
    let ghost mut done: Seq<(Seq<char>, u64)> = Seq::empty();
    let mut updates: Vec<Emitted> = Vec::new();
    let mut i: usize = 0;
    assert(all.take(0) =~= Seq::<Seq<(Seq<char>, u64)>>::empty());
    while i < deliveries.len()
        invariant
            0 <= i <= deliveries.len(),
            all == deliveries.deep_view(),
            done == all.take(i as int).flatten(),
            updates.deep_view() == emitted_for_records(start, done),
            handle.store().counts() == counts_after_records(start, done),
            handle.store().values() == old(handle).store().values(),
            handle.operator_name() == old(handle).operator_name(),
        decreases deliveries.len() - i,
    {
        let delivery = &deliveries[i];
        let ghost before = done;
        let mut j: usize = 0;
        assert(delivery.deep_view().take(0) =~= Seq::<(Seq<char>, u64)>::empty());
        assert(before + delivery.deep_view().take(0) =~= before);
        while j < delivery.len()
            invariant
                0 <= j <= delivery.len(),
                done == before + delivery.deep_view().take(j as int),
                updates.deep_view() == emitted_for_records(start, done),
                handle.store().counts() == counts_after_records(start, done),
                handle.store().values() == old(handle).store().values(),
                handle.operator_name() == old(handle).operator_name(),
            decreases delivery.len() - j,
        {
            let emitted = apply_record(handle, &delivery[j]);
            let ghost earlier = updates.deep_view();
            updates.push(emitted);
            proof {
                let record = delivery[j as int].deep_view();
                assert(delivery.deep_view().take(j + 1) =~= delivery.deep_view().take(
                    j as int,
                ).push(record));
                assert(before + delivery.deep_view().take(j + 1) =~= done.push(record));
                assert(done.push(record).drop_last() =~= done);
                assert(updates.deep_view() =~= earlier.push(emitted.deep_view()));
                done = done.push(record);
            }
            j = j + 1;
        }
        proof {
            assert(delivery.deep_view().take(delivery.len() as int) =~= delivery.deep_view());
            assert(all.take(i + 1) =~= all.take(i as int).push(delivery.deep_view()));
            all.take(i as int).lemma_flatten_push(delivery.deep_view());
        }
        i = i + 1;
    }
    assert(all.take(deliveries.len() as int) =~= all);
    updates
}

/// The operator's buffer: for each timestamp at which records have arrived
/// and which has not been released yet, those records.
pub struct TimeBatchedOperator {
    held: Vec<TimestampBatch>,
}

impl View for TimeBatchedOperator {
    type V = Map<u64, Seq<(Seq<char>, u64)>>;

    /// The held batches: each held timestamp with its records in arrival
    /// order.
    closed spec fn view(&self) -> Map<u64, Seq<(Seq<char>, u64)>> {
        batches_by_time(self.held@)
    }
}

impl TimeBatchedOperator {
    #[verifier::type_invariant]
    spec fn well_formed(self) -> bool {
        rising(self.held@)
    }

    /// An operator that holds nothing.
    pub fn new() -> (operator: Self)
        ensures
            operator@ == Map::<u64, Seq<(Seq<char>, u64)>>::empty(),
    {
        let operator = TimeBatchedOperator { held: Vec::new() };
        assert(operator@ =~= Map::<u64, Seq<(Seq<char>, u64)>>::empty());
        operator
    }

    /// Buffers one delivery: `records` go behind whatever is already held
    /// for `time`. The first delivery for a timestamp opens its batch.
    pub fn buffer(&mut self, time: u64, records: Vec<Record>)
        ensures
            final(self)@ == held_after_buffer(old(self)@, time, records.deep_view()),
    {
        proof {
            use_type_invariant(&*self);
        }
        let mut held: Vec<TimestampBatch> = Vec::new();
        std::mem::swap(&mut held, &mut self.held);
        let ghost before = held@;
        let mut at: usize = 0;
        while at < held.len() && held[at].time < time
            invariant
                0 <= at <= held.len(),
                held@ == before,
                forall|i: int| 0 <= i < at ==> held[i].time < time,
            decreases held.len() - at,
        {
            at = at + 1;
        }
        if at < held.len() && held[at].time == time {
            let mut batch = held.remove(at);
            let ghost earlier = batch.deliveries.deep_view();
            batch.deliveries.push(records);
            proof {
                assert(batch.deliveries.deep_view() =~= earlier.push(records.deep_view()));
                earlier.lemma_flatten_push(records.deep_view());
                lemma_batch_found(before, at as int);
                lemma_batch_replaced(before, at as int, batch);
                assert(before.remove(at as int).insert(at as int, batch) =~= before.update(
                    at as int,
                    batch,
                ));
            }
            held.insert(at, batch);
        } else {
            let mut deliveries: Vec<Vec<Record>> = Vec::new();
            deliveries.push(records);
            let batch = TimestampBatch { time, deliveries };
            proof {
                assert(batch.deliveries.deep_view() =~= Seq::<Seq<(Seq<char>, u64)>>::empty().push(
                    records.deep_view(),
                ));
                Seq::<Seq<(Seq<char>, u64)>>::empty().lemma_flatten_push(records.deep_view());
                assert(!has_batch(before, time)) by {
                    if has_batch(before, time) {
                        let i = batch_index(before, time);
                        if at < before.len() {
                            assert(before[at as int].time > time);
                        }
                    }
                }
                assert(Seq::<(Seq<char>, u64)>::empty() + records.deep_view()
                    =~= records.deep_view());
                lemma_batch_inserted(before, at as int, batch);
            }
            held.insert(at, batch);
        }
        self.held = held;
    }

    /// Releases every held timestamp at which `frontier` permits no more
    /// input, earliest first. Each released batch is drained in arrival
    /// order against the counters behind `handle` and gives one session;
    /// the batch is then gone. A timestamp that the frontier still permits
    /// is not touched.
    pub fn release<B: StateBackend>(
        &mut self,
        handle: &mut StateHandle<B>,
        frontier: &Frontier,
    ) -> (sessions: Vec<Session>)
        ensures
            final(self)@ == held_back(old(self)@, *frontier),
            is_release_of(
                sessions.deep_view(),
                old(handle).store().counts(),
                old(self)@,
                *frontier,
            ),
            forall|i: int|
                0 <= i < sessions.len() ==> !frontier.permits(#[trigger] sessions[i].time),
            final(handle).store().counts() == counts_after_sessions(
                old(handle).store().counts(),
                old(self)@,
                session_times(sessions.deep_view()),
            ),
            final(handle).store().values() == old(handle).store().values(),
            final(handle).operator_name() == old(handle).operator_name(),
    {
        proof {
            use_type_invariant(&*self);
        }
        let ghost start = handle.store().counts();
        let ghost by_time = self@;
        let mut held: Vec<TimestampBatch> = Vec::new();
        std::mem::swap(&mut held, &mut self.held);
        let ghost before = held@;
        let mut at: usize = 0;
        while at < held.len() && !frontier.less_equal(held[at].time)
            invariant
                0 <= at <= held.len(),
                held@ == before,
                forall|i: int| 0 <= i < at ==> !frontier.permits(#[trigger] held[i].time),
            decreases held.len() - at,
        {
            at = at + 1;
        }
        proof {
            lemma_split_by_frontier(before, at as int, *frontier);
        }
        let kept = held.split_off(at);
        let mut sessions: Vec<Session> = Vec::new();
        let mut i: usize = 0;
        assert(session_times(sessions.deep_view()) =~= batch_times(held@.take(0)));
        while i < held.len()
            invariant
                0 <= i <= held.len(),
                rising(before),
                by_time == batches_by_time(before),
                held@ == before.subrange(0, at as int),
                0 <= at <= before.len(),
                session_times(sessions.deep_view()) == batch_times(held@.take(i as int)),
                sessions.deep_view() == sessions_for(
                    start,
                    by_time,
                    session_times(sessions.deep_view()),
                ),
                handle.store().counts() == counts_after_sessions(
                    start,
                    by_time,
                    session_times(sessions.deep_view()),
                ),
                handle.store().values() == old(handle).store().values(),
                handle.operator_name() == old(handle).operator_name(),
            decreases held.len() - i,
        {
            let ghost earlier = sessions.deep_view();
            let updates = drain_deliveries(handle, &held[i].deliveries);
            let session = Session { time: held[i].time, updates };
            sessions.push(session);
            proof {
                let times = session_times(earlier);
                let later = session_times(sessions.deep_view());
                lemma_batch_found(before, i as int);
                assert(sessions.deep_view() =~= earlier.push(session.deep_view()));
                assert(later =~= times.push(held[i as int].time));
                assert(later.drop_last() =~= times);
                assert(later =~= batch_times(held@.take(i + 1)));
            }
            i = i + 1;
        }
        proof {
            assert(held@.take(held.len() as int) =~= held@);
            assert forall|j: int| 0 <= j < sessions.len() implies !frontier.permits(
                #[trigger] sessions[j].time,
            ) by {
                assert(session_times(sessions.deep_view())[j] == sessions[j].time);
                assert(held[j].time == sessions[j].time);
            }
        }
        self.held = kept;
        sessions
    }

    /// Takes one delivery: its records are buffered under `time` first, and
    /// then every held timestamp is checked against `frontier`, not only the
    /// one just buffered, since one advance of the frontier can release
    /// several timestamps.
    pub fn deliver<B: StateBackend>(
        &mut self,
        handle: &mut StateHandle<B>,
        time: u64,
        records: Vec<Record>,
        frontier: &Frontier,
    ) -> (sessions: Vec<Session>)
        ensures
            final(self)@ == held_back(
                held_after_buffer(old(self)@, time, records.deep_view()),
                *frontier,
            ),
            is_release_of(
                sessions.deep_view(),
                old(handle).store().counts(),
                held_after_buffer(old(self)@, time, records.deep_view()),
                *frontier,
            ),
            forall|i: int|
                0 <= i < sessions.len() ==> !frontier.permits(#[trigger] sessions[i].time),
            final(handle).store().counts() == counts_after_sessions(
                old(handle).store().counts(),
                held_after_buffer(old(self)@, time, records.deep_view()),
                session_times(sessions.deep_view()),
            ),
            final(handle).store().values() == old(handle).store().values(),
            final(handle).operator_name() == old(handle).operator_name(),
    {
        self.buffer(time, records);
        self.release(handle, frontier)
    }

    /// Whether a batch is held for `time`.
    pub fn holds(&self, time: u64) -> (held: bool)
        ensures
            held == self@.contains_key(time),
    {
        let mut i: usize = 0;
        while i < self.held.len()
            invariant
                0 <= i <= self.held.len(),
                forall|j: int| 0 <= j < i ==> self.held[j].time != time,
            decreases self.held.len() - i,
        {
            if self.held[i].time == time {
                return true;
            }
            i = i + 1;
        }
        false
    }
}

} // verus!
