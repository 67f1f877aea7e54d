//! Event Tracing for Windows: enabling providers and decoding event schemas.

pub mod abi;
pub mod tdh;

pub use abi::{ClassicEventId, EnablePlan, PlannedFilter, TraceEnable, TraceStats};
pub use tdh::{CachedSchema, CacheKey, RecordHeader, TdhDecodeError};
