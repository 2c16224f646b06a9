//! A proxy for one named counter.

use crate::backend::{stored_count, StateBackend, StateError};
use vstd::prelude::*;

verus! {

/// A proxy bound to one counter name. It remembers the last total it knows
/// of and writes every new total through to the backend at once.
///
/// The remembered total is not refreshed by writes that reach the backend
/// another way, so a name should have one proxy that mutates it.
pub struct ManagedCount {
    name: String,
    count: u64,
}

/// The total that an increment of `amount` makes of `cached`, or the
/// overflow it runs into.
pub open spec fn total_after_incr(cached: u64, amount: u64) -> Result<u64, StateError> {
    if cached + amount <= u64::MAX {
        Ok((cached + amount) as u64)
    } else {
        Err(StateError::CounterOverflow)
    }
}

/// The counters after a proxy for `name` that remembers `cached` has been
/// incremented by `amount`: the new total is written under `name`, and an
/// overflow writes nothing.
pub open spec fn counts_after_incr(
    counts: Map<Seq<char>, u64>,
    name: Seq<char>,
    cached: u64,
    amount: u64,
) -> Map<Seq<char>, u64> {
    match total_after_incr(cached, amount) {
        Ok(total) => counts.insert(name, total),
        Err(_) => counts,
    }
}

/// The sum of `amounts`.
pub open spec fn sum_of(amounts: Seq<u64>) -> int
    decreases amounts.len(),
{
    if amounts.len() == 0 {
        0
    } else {
        sum_of(amounts.drop_last()) + amounts.last()
    }
}

/// The total that a proxy remembers after it started from `cached` and was
/// incremented by each of `amounts` in turn. An increment that overflows
/// leaves the total as it was.
pub open spec fn cached_after_incrs(cached: u64, amounts: Seq<u64>) -> u64
    decreases amounts.len(),
{
    if amounts.len() == 0 {
        cached
    } else {
        let before = cached_after_incrs(cached, amounts.drop_last());
        match total_after_incr(before, amounts.last()) {
            Ok(total) => total,
            Err(_) => before,
        }
    }
}

/// The counters after a proxy for `name` that started from `cached` was
/// incremented by each of `amounts` in turn.
pub open spec fn counts_after_incrs(
    counts: Map<Seq<char>, u64>,
    name: Seq<char>,
    cached: u64,
    amounts: Seq<u64>,
) -> Map<Seq<char>, u64>
    decreases amounts.len(),
{
    if amounts.len() == 0 {
        counts
    } else {
        counts_after_incr(
            counts_after_incrs(counts, name, cached, amounts.drop_last()),
            name,
            cached_after_incrs(cached, amounts.drop_last()),
            amounts.last(),
        )
    }
}

impl ManagedCount {
    /// The counter name this proxy is bound to.
    pub closed spec fn name(&self) -> Seq<char> {
        self.name@
    }

    /// The total this proxy remembers.
    pub closed spec fn cached(&self) -> u64 {
        self.count
    }

    /// Binds a proxy to `name`, remembering the total that `backend` has for
    /// it now.
    pub fn new<B: StateBackend>(backend: &B, name: &str) -> (proxy: Self)
        ensures
            proxy.name() == name@,
            proxy.cached() == stored_count(backend.counts(), name@),
    {
        ManagedCount { name: name.to_owned(), count: backend.get_count(name) }
    }

    /// Adds `amount` to the remembered total and writes the new total to
    /// `backend` under the proxy's name. If the sum does not fit in a `u64`
    /// the overflow is signalled, and neither the proxy nor the backend
    /// changes.
    pub fn incr<B: StateBackend>(&mut self, backend: &mut B, amount: u64) -> (outcome: Result<
        (),
        StateError,
    >)
        ensures
            final(self).name() == old(self).name(),
            match total_after_incr(old(self).cached(), amount) {
                Ok(total) => outcome == Ok::<(), StateError>(()) && final(self).cached() == total,
                Err(error) => outcome == Err::<(), StateError>(error) && final(self).cached()
                    == old(self).cached(),
            },
            final(backend).counts() == counts_after_incr(
                old(backend).counts(),
                old(self).name(),
                old(self).cached(),
                amount,
            ),
            final(backend).values() == old(backend).values(),
            outcome is Err ==> *final(backend) == *old(backend),
    {
        match self.count.checked_add(amount) {
            Some(total) => {
                self.count = total;
                backend.store_count(self.name.as_str(), total);
                Ok(())
            },
            None => Err(StateError::CounterOverflow),
        }
    }

    /// The remembered total. The backend is not consulted.
    pub fn get(&self) -> (count: u64)
        ensures
            count == self.cached(),
    {
        self.count
    }
}

/// A name that was never stored has the total 0, so a proxy bound to it
/// starts from 0.
pub proof fn lemma_unseen_count_is_zero(counts: Map<Seq<char>, u64>, name: Seq<char>)
    requires
        !counts.contains_key(name),
    ensures
        stored_count(counts, name) == 0,
{
}

/// Increments add up: a proxy that starts from the total stored for its name
/// and is incremented by each of `amounts` in turn remembers the start plus
/// their sum, and the backend records the same total under that name. This
/// holds as long as the sum fits in a `u64`.
pub proof fn lemma_incrs_add_up(
    counts: Map<Seq<char>, u64>,
    name: Seq<char>,
    cached: u64,
    amounts: Seq<u64>,
)
    requires
        stored_count(counts, name) == cached,
        cached + sum_of(amounts) <= u64::MAX,
    ensures
        cached_after_incrs(cached, amounts) == cached + sum_of(amounts),
        stored_count(counts_after_incrs(counts, name, cached, amounts), name) == cached + sum_of(
            amounts,
        ),
    decreases amounts.len(),
{
    if amounts.len() > 0 {
        lemma_sum_of_is_nonnegative(amounts.drop_last());
        lemma_incrs_add_up(counts, name, cached, amounts.drop_last());
    }
}

/// A sum of unsigned amounts is not negative.
pub proof fn lemma_sum_of_is_nonnegative(amounts: Seq<u64>)
    ensures
        0 <= sum_of(amounts),
    decreases amounts.len(),
{
    if amounts.len() > 0 {
        lemma_sum_of_is_nonnegative(amounts.drop_last());
    }
}

} // verus!
