//! Per-key state for streaming operators: named counters and typed value
//! slots kept in a swappable storage backend, accessor proxies over them, and
//! the time-batched operator that releases buffered records once the input
//! frontier has passed their timestamp.

pub mod backend;
pub mod backends;
pub mod handle;
pub mod operator;
pub mod primitives;

pub use backend::{StateBackend, StateBackendInfo, StateError, TypedPayload};
pub use backends::InMemoryBackend;
pub use handle::StateHandle;
pub use operator::{apply_record, Emitted, Frontier, Record, Session, TimeBatchedOperator};
pub use primitives::{ManagedCount, ManagedValue};
