//! What the operating system's tracing facility needs to know of an event.

use crate::guid::Guid;
use vstd::prelude::*;

verus! {

/// The provider an event comes from, and the level and keywords it is
/// enabled with.
#[derive(Clone, Copy)]
pub struct EventExtension {
    /// The provider of the event.
    pub provider: Guid,
    /// The level to enable the provider at.
    pub level: u8,
    /// The keywords to enable the provider with.
    pub keyword: u64,
}

impl Default for EventExtension {
    fn default() -> (r: Self)
        ensures
            r.provider.data1 == 0 && r.provider.data2 == 0 && r.provider.data3 == 0,
            forall|i: int| 0 <= i < 8 ==> #[trigger] r.provider.data4@[i] == 0,
            r.level == 0,
            r.keyword == 0,
    {
        EventExtension { provider: Guid { data1: 0, data2: 0, data3: 0, data4: [0u8; 8] }, level: 0, keyword: 0 }
    }
}

} // verus!
