//! The time-batched stateful operator: records are buffered by timestamp and
//! released, timestamp by timestamp, once the input frontier has passed them.

pub mod batched;
mod batches;
pub mod frontier;
pub mod model;
pub mod records;

pub use batched::{apply_record, TimeBatchedOperator};
pub use frontier::Frontier;
pub use records::{Emitted, Record, Session};
