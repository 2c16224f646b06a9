//! A backend that keeps everything in two hash maps.

use crate::backend::{StateBackend, StateBackendInfo, TypedPayload};
use vstd::hash_map::StringHashMap;
use vstd::prelude::*;

verus! {

/// Counters and value slots held in process memory.
pub struct InMemoryBackend {
    counts: StringHashMap<u64>,
    values: StringHashMap<TypedPayload>,
}

impl StateBackend for InMemoryBackend {
    closed spec fn counts(&self) -> Map<Seq<char>, u64> {
        self.counts@
    }

    closed spec fn values(&self) -> Map<Seq<char>, (u64, Seq<u8>)> {
        self.values@.map_values(|payload: TypedPayload| payload@)
    }

    fn new(info: &StateBackendInfo) -> (backend: Self) {
        let backend = InMemoryBackend {
            counts: StringHashMap::new(),
            values: StringHashMap::new(),
        };
        assert(backend.values() =~= Map::<Seq<char>, (u64, Seq<u8>)>::empty());
        backend
    }

    fn store_count(&mut self, name: &str, count: u64) {
        self.counts.insert(name.to_owned(), count);
    }

    fn get_count(&self, name: &str) -> (count: u64) {
        match self.counts.get(name) {
            Some(count) => *count,
            None => 0,
        }
    }

    fn store_value(&mut self, name: &str, value: TypedPayload) {
        let ghost before = self.values@;
        self.values.insert(name.to_owned(), value);
        assert(self.values() =~= before.map_values(|payload: TypedPayload| payload@).insert(
            name@,
            value@,
        ));
    }

    fn get_value(&mut self, name: &str, type_tag: u64) -> (found: Option<TypedPayload>) {
        let ghost before = self.values@;
        let taken = match self.values.get(name) {
            Some(payload) => {
                if payload.type_tag == type_tag {
                    Some(TypedPayload { type_tag: payload.type_tag, bytes: payload.bytes.clone() })
                } else {
                    None
                }
            },
            None => None,
        };
        if taken.is_some() {
            self.values.remove(name);
            assert(self.values() =~= before.map_values(|payload: TypedPayload| payload@).remove(
                name@,
            ));
        }
        taken
    }
}

} // verus!
