//! A proxy for one named value slot.

use crate::backend::{
    payload_view, slot_read, slots_after_get, slots_after_set, StateBackend, TypedPayload,
};
use vstd::prelude::*;

verus! {

/// A proxy bound to one value slot. It keeps no copy of the payload: every
/// `set` and `get` goes to the backend.
pub struct ManagedValue {
    name: String,
}

impl ManagedValue {
    /// The slot name this proxy is bound to.
    pub closed spec fn name(&self) -> Seq<char> {
        self.name@
    }

    /// Binds a proxy to the slot `name`. The backend is not touched.
    pub fn new(name: &str) -> (proxy: Self)
        ensures
            proxy.name() == name@,
    {
        ManagedValue { name: name.to_owned() }
    }

    /// Writes `value` to the proxy's slot in `backend`, discarding whatever
    /// the slot held.
    pub fn set<B: StateBackend>(&self, backend: &mut B, value: TypedPayload)
        ensures
            final(backend).values() == slots_after_set(old(backend).values(), self.name(), value@),
            final(backend).counts() == old(backend).counts(),
    {
        backend.store_value(self.name.as_str(), value);
    }

    /// Takes the payload out of the proxy's slot if one is there and its type
    /// tag is `type_tag`. A successful read empties the slot, so the read
    /// that follows finds nothing. An absent slot or a payload of another
    /// type gives `None` and changes nothing.
    pub fn get<B: StateBackend>(&self, backend: &mut B, type_tag: u64) -> (found: Option<
        TypedPayload,
    >)
        ensures
            payload_view(found) == slot_read(old(backend).values(), self.name(), type_tag),
            final(backend).values() == slots_after_get(
                old(backend).values(),
                self.name(),
                type_tag,
            ),
            final(backend).counts() == old(backend).counts(),
    {
        backend.get_value(self.name.as_str(), type_tag)
    }
}

/// A slot that was never written gives nothing, whatever type is asked for,
/// and the read changes nothing.
pub proof fn lemma_unset_slot_reads_nothing(
    values: Map<Seq<char>, (u64, Seq<u8>)>,
    name: Seq<char>,
    type_tag: u64,
)
    requires
        !values.contains_key(name),
    ensures
        slot_read(values, name, type_tag) is None,
        slots_after_get(values, name, type_tag) == values,
{
}

/// After a write, the read that asks for the written type hands out the
/// written payload, and the read that follows it finds nothing, for any type
/// asked.
pub proof fn lemma_set_then_get_consumes(
    values: Map<Seq<char>, (u64, Seq<u8>)>,
    name: Seq<char>,
    payload: (u64, Seq<u8>),
    next_tag: u64,
)
    ensures
        slot_read(slots_after_set(values, name, payload), name, payload.0) == Some(payload),
        slot_read(
            slots_after_get(slots_after_set(values, name, payload), name, payload.0),
            name,
            next_tag,
        ) is None,
{
}

/// Of two writes in a row the second wins, whatever the types: a read that
/// asks for the second type hands out the second payload, and a read that
/// asks for the first type, if that is another one, finds nothing and leaves
/// the second payload in place.
pub proof fn lemma_last_set_wins(
    values: Map<Seq<char>, (u64, Seq<u8>)>,
    name: Seq<char>,
    first: (u64, Seq<u8>),
    second: (u64, Seq<u8>),
)
    ensures
        slot_read(
            slots_after_set(slots_after_set(values, name, first), name, second),
            name,
            second.0,
        ) == Some(second),
        first.0 != second.0 ==> {
            let written = slots_after_set(slots_after_set(values, name, first), name, second);
            &&& slot_read(written, name, first.0) is None
            &&& slots_after_get(written, name, first.0) == written
        },
{
}

} // verus!
