//! What the operator takes in and what it hands out.

use crate::backend::StateError;
use vstd::prelude::*;

verus! {

/// One input record: a key and the amount to add to that key's counter.
#[derive(Clone, Debug, PartialEq, Eq)]
pub struct Record {
    pub key: String,
    pub diff: u64,
}

impl DeepView for Record {
    type V = (Seq<char>, u64);

    open spec fn deep_view(&self) -> (Seq<char>, u64) {
        (self.key@, self.diff)
    }
}

/// What one record gave: its key, and the key's new total or the overflow
/// that the update ran into.
#[derive(Debug, PartialEq, Eq)]
pub struct Emitted {
    pub key: String,
    pub total: Result<u64, StateError>,
}

impl DeepView for Emitted {
    type V = (Seq<char>, Result<u64, StateError>);

    open spec fn deep_view(&self) -> (Seq<char>, Result<u64, StateError>) {
        (self.key@, self.total)
    }
}

/// Everything emitted for one timestamp, in the order in which its records
/// arrived. A released timestamp gives exactly one session.
#[derive(Debug, PartialEq, Eq)]
pub struct Session {
    pub time: u64,
    pub updates: Vec<Emitted>,
}

impl DeepView for Session {
    type V = (u64, Seq<(Seq<char>, Result<u64, StateError>)>);

    open spec fn deep_view(&self) -> (u64, Seq<(Seq<char>, Result<u64, StateError>)>) {
        (self.time, self.updates.deep_view())
    }
}

impl Record {
    /// A record that adds `diff` to the counter of `key`.
    pub fn new(key: &str, diff: u64) -> (record: Self)
        ensures
            record.deep_view() == (key@, diff),
    {
        Record { key: key.to_owned(), diff }
    }
}

} // verus!
