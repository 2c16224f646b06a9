//! The per-operator front of a backend.

use crate::backend::{stored_count, StateBackend};
use crate::primitives::managed_count::ManagedCount;
use crate::primitives::managed_value::ManagedValue;
use vstd::prelude::*;

verus! {

/// The front of one backend for one operator. It owns the backend and hands
/// out the proxies that read and write it.
pub struct StateHandle<B: StateBackend> {
    backend: B,
    name: String,
}

impl<B: StateBackend> StateHandle<B> {
    /// The backend behind this handle.
    pub closed spec fn store(&self) -> B {
        self.backend
    }

    /// The name of the operator this handle serves.
    pub closed spec fn operator_name(&self) -> Seq<char> {
        self.name@
    }

    /// Binds `backend` to the operator called `name`.
    pub fn new(backend: B, name: &str) -> (handle: Self)
        ensures
            handle.store() == backend,
            handle.operator_name() == name@,
    {
        StateHandle { backend, name: name.to_owned() }
    }

    /// A proxy for the counter `name`, which remembers the total stored for
    /// it now.
    pub fn get_managed_count(&self, name: &str) -> (proxy: ManagedCount)
        ensures
            proxy.name() == name@,
            proxy.cached() == stored_count(self.store().counts(), name@),
    {
        ManagedCount::new(&self.backend, name)
    }

    /// A proxy for the value slot `name`.
    pub fn get_managed_value(&self, name: &str) -> (proxy: ManagedValue)
        ensures
            proxy.name() == name@,
    {
        ManagedValue::new(name)
    }

    /// The backend, to read.
    pub fn backend(&self) -> (backend: &B)
        ensures
            *backend == self.store(),
    {
        &self.backend
    }

    /// The backend, for a proxy to write through. What the borrower leaves
    /// behind is the handle's backend afterwards.
    pub fn backend_mut(&mut self) -> (backend: &mut B)
        ensures
            *backend == old(self).store(),
            final(self).store() == *final(backend),
            final(self).operator_name() == old(self).operator_name(),
    {
        &mut self.backend
    }

    /// Gives the backend back.
    pub fn into_backend(self) -> (backend: B)
        ensures
            backend == self.store(),
    {
        self.backend
    }
}

} // verus!
