//! Concrete storage backends.

pub mod in_memory;

pub use in_memory::InMemoryBackend;
