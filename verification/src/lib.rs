//! Event collection: event formats and the reading, filtering and writing
//! of event data, and the parts of Event Tracing for Windows that work out
//! how providers are enabled and how event schemas decode.

pub mod bytes;
pub mod etw;
pub mod event;
pub mod guid;
pub mod text;

pub use guid::Guid;
