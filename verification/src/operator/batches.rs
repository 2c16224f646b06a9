//! The batches an operator holds, one per timestamp and in rising order of
//! their timestamps, and what follows from that order.

use crate::operator::frontier::{lemma_permits_is_upward_closed, Frontier};
use crate::operator::model::{ascending, held_back, released_times};
use crate::operator::records::Record;
use vstd::prelude::*;

verus! {

/// The records that arrived for one timestamp, delivery by delivery.
pub(crate) struct TimestampBatch {
    pub(crate) time: u64,
    pub(crate) deliveries: Vec<Vec<Record>>,
}

impl TimestampBatch {
    /// The batch's records in arrival order.
    pub(crate) open spec fn pending(&self) -> Seq<(Seq<char>, u64)> {
        self.deliveries.deep_view().flatten()
    }
}

/// Whether the timestamps of `batches` rise strictly.
pub(crate) open spec fn rising(batches: Seq<TimestampBatch>) -> bool {
    forall|i: int, j: int| 0 <= i < j < batches.len() ==> batches[i].time < batches[j].time
}

/// Whether `batches` has a batch for `time`.
pub(crate) open spec fn has_batch(batches: Seq<TimestampBatch>, time: u64) -> bool {
    exists|i: int| 0 <= i < batches.len() && batches[i].time == time
}

/// Where the batch for `time` stands in `batches`.
pub(crate) open spec fn batch_index(batches: Seq<TimestampBatch>, time: u64) -> int {
    choose|i: int| 0 <= i < batches.len() && batches[i].time == time
}

/// The batches by timestamp, each with its records in arrival order.
pub(crate) open spec fn batches_by_time(batches: Seq<TimestampBatch>) -> Map<
    u64,
    Seq<(Seq<char>, u64)>,
> {
    Map::new(
        |time: u64| has_batch(batches, time),
        |time: u64| batches[batch_index(batches, time)].pending(),
    )
}

/// In rising batches, a batch is found under its own timestamp.
pub(crate) proof fn lemma_batch_found(batches: Seq<TimestampBatch>, i: int)
    requires
        rising(batches),
        0 <= i < batches.len(),
    ensures
        has_batch(batches, batches[i].time),
        batch_index(batches, batches[i].time) == i,
        batches_by_time(batches).contains_key(batches[i].time),
        batches_by_time(batches)[batches[i].time] == batches[i].pending(),
{
}

/// Putting a batch between the earlier and the later ones keeps the
/// timestamps rising and adds just that batch.
pub(crate) proof fn lemma_batch_inserted(
    batches: Seq<TimestampBatch>,
    at: int,
    batch: TimestampBatch,
)
    requires
        rising(batches),
        0 <= at <= batches.len(),
        forall|i: int| 0 <= i < at ==> batches[i].time < batch.time,
        forall|i: int| at <= i < batches.len() ==> batch.time < batches[i].time,
    ensures
        rising(batches.insert(at, batch)),
        batches_by_time(batches.insert(at, batch)) == batches_by_time(batches).insert(
            batch.time,
            batch.pending(),
        ),
{
    let after = batches.insert(at, batch);
    assert forall|time: u64| #[trigger]
        batches_by_time(after).contains_key(time) == batches_by_time(batches).insert(
            batch.time,
            batch.pending(),
        ).contains_key(time) by {
        if has_batch(batches, time) {
            let i = batch_index(batches, time);
            if i < at {
                assert(after[i].time == time);
            } else {
                assert(after[i + 1].time == time);
            }
        }
        if time == batch.time {
            assert(after[at].time == time);
        }
        if has_batch(after, time) {
            let i = batch_index(after, time);
            if i < at {
                assert(batches[i].time == time);
            } else if i > at {
                assert(batches[i - 1].time == time);
            }
        }
    }
    assert forall|time: u64| #[trigger]
        batches_by_time(after).contains_key(time) implies batches_by_time(after)[time]
        == batches_by_time(batches).insert(batch.time, batch.pending())[time] by {
        let i = batch_index(after, time);
        lemma_batch_found(after, i);
        if i < at {
            lemma_batch_found(batches, i);
        } else if i > at {
            lemma_batch_found(batches, i - 1);
        }
    }
    assert(batches_by_time(after) =~= batches_by_time(batches).insert(
        batch.time,
        batch.pending(),
    ));
}

/// Replacing a batch by one of the same timestamp keeps the timestamps
/// rising and changes just that batch.
pub(crate) proof fn lemma_batch_replaced(
    batches: Seq<TimestampBatch>,
    at: int,
    batch: TimestampBatch,
)
    requires
        rising(batches),
        0 <= at < batches.len(),
        batches[at].time == batch.time,
    ensures
        rising(batches.update(at, batch)),
        batches_by_time(batches.update(at, batch)) == batches_by_time(batches).insert(
            batch.time,
            batch.pending(),
        ),
{
    let after = batches.update(at, batch);
    assert forall|time: u64| #[trigger]
        batches_by_time(after).contains_key(time) == batches_by_time(batches).insert(
            batch.time,
            batch.pending(),
        ).contains_key(time) by {
        if has_batch(batches, time) {
            let i = batch_index(batches, time);
            assert(after[i].time == time);
        }
        if has_batch(after, time) {
            let i = batch_index(after, time);
            assert(batches[i].time == time);
        }
    }
    assert forall|time: u64| #[trigger]
        batches_by_time(after).contains_key(time) implies batches_by_time(after)[time]
        == batches_by_time(batches).insert(batch.time, batch.pending())[time] by {
        let i = batch_index(after, time);
        lemma_batch_found(after, i);
        if i != at {
            lemma_batch_found(batches, i);
        }
    }
    assert(batches_by_time(after) =~= batches_by_time(batches).insert(
        batch.time,
        batch.pending(),
    ));
}

/// The timestamps of `batches`, in their order.
pub(crate) open spec fn batch_times(batches: Seq<TimestampBatch>) -> Seq<u64> {
    batches.map_values(|batch: TimestampBatch| batch.time)
}

/// Rising batches fall into two runs under a frontier: those before the
/// first timestamp that it permits are exactly the released ones, and those
/// from there on are exactly the ones held back.
pub(crate) proof fn lemma_split_by_frontier(
    batches: Seq<TimestampBatch>,
    at: int,
    frontier: Frontier,
)
    requires
        rising(batches),
        0 <= at <= batches.len(),
        forall|i: int| 0 <= i < at ==> !frontier.permits(#[trigger] batches[i].time),
        at < batches.len() ==> frontier.permits(batches[at].time),
    ensures
        rising(batches.subrange(at, batches.len() as int)),
        batches_by_time(batches.subrange(at, batches.len() as int)) == held_back(
            batches_by_time(batches),
            frontier,
        ),
        ascending(batch_times(batches.subrange(0, at))),
        batch_times(batches.subrange(0, at)).to_set() == released_times(
            batches_by_time(batches),
            frontier,
        ),
{
    let early = batches.subrange(0, at);
    let late = batches.subrange(at, batches.len() as int);
    assert forall|i: int| at <= i < batches.len() implies frontier.permits(
        #[trigger] batches[i].time,
    ) by {
        lemma_permits_is_upward_closed(frontier, batches[at].time, batches[i].time);
    }
    assert forall|time: u64| #[trigger]
        batches_by_time(late).contains_key(time) == held_back(
            batches_by_time(batches),
            frontier,
        ).contains_key(time) by {
        if has_batch(late, time) {
            let i = batch_index(late, time);
            assert(batches[at + i].time == time);
        }
        if has_batch(batches, time) && frontier.permits(time) {
            let i = batch_index(batches, time);
            assert(late[i - at].time == time);
        }
    }
    assert forall|time: u64| #[trigger]
        batches_by_time(late).contains_key(time) implies batches_by_time(late)[time] == held_back(
        batches_by_time(batches),
        frontier,
    )[time] by {
        let i = batch_index(late, time);
        lemma_batch_found(late, i);
        lemma_batch_found(batches, at + i);
    }
    assert(batches_by_time(late) =~= held_back(batches_by_time(batches), frontier));
    assert forall|time: u64| #[trigger]
        batch_times(early).to_set().contains(time) == released_times(
            batches_by_time(batches),
            frontier,
        ).contains(time) by {
        if batch_times(early).contains(time) {
            let i = choose|i: int|
                0 <= i < batch_times(early).len() && batch_times(early)[i] == time;
            assert(batches[i].time == time);
        }
        if has_batch(batches, time) && !frontier.permits(time) {
            let i = batch_index(batches, time);
            assert(batch_times(early)[i] == time);
        }
    }
    assert(batch_times(early).to_set() =~= released_times(batches_by_time(batches), frontier));
}

} // verus!
