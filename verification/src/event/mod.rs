//! Events, their formats, and reading, filtering and writing their data.

pub mod callback;
pub mod data;
pub mod dispatch;
pub mod filter;
pub mod format;
pub mod os;
pub mod writer;

pub use data::{DataField, DataFieldRef, EventData};
pub use dispatch::{Event, EventModel};
pub use filter::{FieldFilter, FilterTest, NumericOp, TextOp};
pub use format::{
    EventError, EventField, EventFieldRef, EventFormat, FieldDataAccessor, FieldSkip, LocationType,
};
pub use os::EventExtension;
pub use writer::{FieldWriter, FormatEntry, FormatWriter, WriteKind};
