//! The storage abstraction: what every backend keeps and how it answers.

use vstd::prelude::*;

verus! {

/// Backend-specific configuration handed to a backend when it is built.
/// The in-memory backend reads nothing from it.
#[derive(Clone, Copy, Debug)]
pub struct StateBackendInfo {}

/// What can go wrong when state is updated.
#[derive(Clone, Copy, Debug, PartialEq, Eq, Structural)]
pub enum StateError {
    /// An increment would take a counter past `u64::MAX`.
    CounterOverflow,
}

/// A value as a backend stores it: the tag of its runtime type and its
/// encoded bytes. The backend never looks inside the bytes.
#[derive(Clone, Debug, PartialEq, Eq)]
pub struct TypedPayload {
    pub type_tag: u64,
    pub bytes: Vec<u8>,
}

impl View for TypedPayload {
    type V = (u64, Seq<u8>);

    open spec fn view(&self) -> (u64, Seq<u8>) {
        (self.type_tag, self.bytes@)
    }
}

impl TypedPayload {
    /// Tags `bytes` with `type_tag`.
    pub fn new(type_tag: u64, bytes: Vec<u8>) -> (payload: Self)
        ensures
            payload@ == (type_tag, bytes@),
    {
        TypedPayload { type_tag, bytes }
    }
}

/// The total recorded for `name` in `counts`: a name never stored counts as 0.
pub open spec fn stored_count(counts: Map<Seq<char>, u64>, name: Seq<char>) -> u64 {
    if counts.contains_key(name) {
        counts[name]
    } else {
        0
    }
}

/// The slots after `payload` has been written to the slot `name`: the write
/// replaces whatever the slot held.
pub open spec fn slots_after_set(
    values: Map<Seq<char>, (u64, Seq<u8>)>,
    name: Seq<char>,
    payload: (u64, Seq<u8>),
) -> Map<Seq<char>, (u64, Seq<u8>)> {
    values.insert(name, payload)
}

/// Whether the slot `name` holds a payload whose type tag is `type_tag`.
pub open spec fn slot_matches(
    values: Map<Seq<char>, (u64, Seq<u8>)>,
    name: Seq<char>,
    type_tag: u64,
) -> bool {
    values.contains_key(name) && values[name].0 == type_tag
}

/// What a read of the slot `name` that asks for `type_tag` hands out: the
/// payload if the slot is filled with that type, nothing otherwise.
pub open spec fn slot_read(
    values: Map<Seq<char>, (u64, Seq<u8>)>,
    name: Seq<char>,
    type_tag: u64,
) -> Option<(u64, Seq<u8>)> {
    if slot_matches(values, name, type_tag) {
        Some(values[name])
    } else {
        None
    }
}

/// The slots after a read of `name` that asks for `type_tag`: a matching
/// payload leaves its slot, anything else stays as it was.
pub open spec fn slots_after_get(
    values: Map<Seq<char>, (u64, Seq<u8>)>,
    name: Seq<char>,
    type_tag: u64,
) -> Map<Seq<char>, (u64, Seq<u8>)> {
    if slot_matches(values, name, type_tag) {
        values.remove(name)
    } else {
        values
    }
}

/// What a read hands out, as the plain value that `slot_read` speaks of.
pub open spec fn payload_view(found: Option<TypedPayload>) -> Option<(u64, Seq<u8>)> {
    match found {
        Some(payload) => Some(payload@),
        None => None,
    }
}

/// A process-local key/value store with two kinds of entries: named `u64`
/// counters and named slots of typed payloads.
///
/// An implementation over an engine that can fail must not return from a
/// method whose effect it could not carry out: it aborts instead, so that no
/// write is ever dropped silently.
pub trait StateBackend: Sized {
    /// The counters that have been stored, by name.
    spec fn counts(&self) -> Map<Seq<char>, u64>;

    /// The value slots that are filled, by name.
    spec fn values(&self) -> Map<Seq<char>, (u64, Seq<u8>)>;

    /// Builds an empty backend from its configuration.
    fn new(info: &StateBackendInfo) -> (backend: Self)
        ensures
            backend.counts() == Map::<Seq<char>, u64>::empty(),
            backend.values() == Map::<Seq<char>, (u64, Seq<u8>)>::empty(),
    ;

    /// Records `count` as the current total of `name`.
    fn store_count(&mut self, name: &str, count: u64)
        ensures
            final(self).counts() == old(self).counts().insert(name@, count),
            final(self).values() == old(self).values(),
    ;

    /// The last total stored for `name`, or 0 for a name never stored.
    fn get_count(&self, name: &str) -> (count: u64)
        ensures
            count == stored_count(self.counts(), name@),
    ;

    /// Puts `value` into the slot `name`, replacing whatever was there,
    /// of whatever type.
    fn store_value(&mut self, name: &str, value: TypedPayload)
        ensures
            final(self).values() == slots_after_set(old(self).values(), name@, value@),
            final(self).counts() == old(self).counts(),
    ;

    /// Takes the payload out of the slot `name` if it is there and its type
    /// tag is `type_tag`. Otherwise nothing is returned and the slot is left
    /// as it was.
    fn get_value(&mut self, name: &str, type_tag: u64) -> (found: Option<TypedPayload>)
        ensures
            payload_view(found) == slot_read(old(self).values(), name@, type_tag),
            final(self).values() == slots_after_get(old(self).values(), name@, type_tag),
            final(self).counts() == old(self).counts(),
    ;
}

} // verus!
