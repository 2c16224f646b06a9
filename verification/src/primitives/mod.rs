//! Accessor proxies over a backend.

pub mod managed_count;
pub mod managed_value;

pub use managed_count::ManagedCount;
pub use managed_value::ManagedValue;
