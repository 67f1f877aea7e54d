//! What is handed to ETW when a provider is enabled, worked out from plain
//! values: filters, their byte layouts, and the session statistics read
//! back.

use crate::bytes::{lemma_ne_bytes_len, ne_bytes, u16_to_ne, u32_to_ne, u64_to_ne};
use crate::guid::Guid;
use crate::text::{chars_of, decimal, push_signed_decimal, push_str};
use vstd::prelude::*;

verus! {

/// Filter type for process IDs.
pub const EVENT_FILTER_TYPE_PID: u32 = 0x80000004;

/// Filter type for event IDs.
pub const EVENT_FILTER_TYPE_EVENT_ID: u32 = 0x80000200;

/// Filter type for the event IDs that collect stacks.
pub const EVENT_FILTER_TYPE_STACKWALK: u32 = 0x80001000;

/// Filter type for the level and keywords that collect stacks.
pub const EVENT_FILTER_TYPE_STACKWALK_LEVEL_KW: u32 = 0x80004000;

pub const EVENT_ENABLE_PROPERTY_ENABLE_KEYWORD_0: u32 = 64;
pub const EVENT_ENABLE_PROPERTY_ENABLE_SILOS: u32 = 1024;
pub const EVENT_ENABLE_PROPERTY_EVENT_KEY: u32 = 256;
pub const EVENT_ENABLE_PROPERTY_EXCLUDE_INPRIVATE: u32 = 512;
pub const EVENT_ENABLE_PROPERTY_IGNORE_KEYWORD_0: u32 = 16;
pub const EVENT_ENABLE_PROPERTY_PROCESS_START_KEY: u32 = 128;
pub const EVENT_ENABLE_PROPERTY_PROVIDER_GROUP: u32 = 32;
pub const EVENT_ENABLE_PROPERTY_PSM_KEY: u32 = 8;
pub const EVENT_ENABLE_PROPERTY_SID: u32 = 1;
pub const EVENT_ENABLE_PROPERTY_SOURCE_CONTAINER_TRACKING: u32 = 2048;

/// Collect stacks for the events named by a stack walk filter.
pub const EVENT_ENABLE_PROPERTY_STACK_TRACE: u32 = 4;

pub const EVENT_ENABLE_PROPERTY_TS_ID: u32 = 2;

pub const TRACE_LEVEL_CRITICAL: u8 = 1;
pub const TRACE_LEVEL_ERROR: u8 = 2;
pub const TRACE_LEVEL_WARNING: u8 = 3;
pub const TRACE_LEVEL_INFORMATION: u8 = 4;
pub const TRACE_LEVEL_VERBOSE: u8 = 5;

pub const EVENT_CONTROL_CODE_DISABLE_PROVIDER: u32 = 0;
pub const EVENT_CONTROL_CODE_ENABLE_PROVIDER: u32 = 1;
pub const EVENT_CONTROL_CODE_CAPTURE_STATE: u32 = 2;

/// Each character truncated to a 16-bit unit.
pub open spec fn wide_units(cs: Seq<char>) -> Seq<u16> {
    cs.map_values(|c: char| ((c as u32) % 0x10000) as u16)
}

/// `name` as 16-bit units, each character truncated, with a terminating 0.
pub fn wide_string(name: &str) -> (r: Vec<u16>)
    ensures
        r@ == wide_units(name@).push(0),
{
    let cs = chars_of(name);
    let mut out: Vec<u16> = Vec::new();
    let mut i: usize = 0;
    while i < cs.len()
        invariant
            i <= cs@.len(),
            cs@ == name@,
            out@ == wide_units(cs@.take(i as int)),
        decreases cs@.len() - i,
    {
        out.push(((cs[i] as u32) % 0x10000) as u16);
        i += 1;
        assert(out@ =~= wide_units(cs@.take(i as int)));
    }
    assert(cs@.take(i as int) =~= cs@);
    out.push(0);
    out
}

/// A classic (MOF) event: its provider and event type.
pub struct ClassicEventId {
    pub event_guid: Guid,
    pub event_type: u8,
    pub reserved: [u8; 7],
}

impl ClassicEventId {
    /// The classic event `id` of `provider`.
    pub fn new(provider: Guid, id: u8) -> (r: Self)
        ensures
            r.event_guid == provider,
            r.event_type == id,
            forall|i: int| 0 <= i < 7 ==> #[trigger] r.reserved@[i] == 0,
    {
        ClassicEventId { event_guid: provider, event_type: id, reserved: [0u8; 7] }
    }
}

/// A filter of a type of the caller's choosing.
pub struct TraceFilter {
    filter_type: u32,
    filter_data: Vec<u8>,
}

/// How a provider is to be enabled.
pub struct TraceEnable {
    provider: Guid,
    capture_environment: bool,
    rundown: bool,
    no_filtering: bool,
    properties: u32,
    level: u8,
    keyword: u64,
    events: Vec<u16>,
    callstacks: Vec<u16>,
    callstack_keyword: Option<u64>,
    custom_filter: Option<TraceFilter>,
}

/// The content of a [`TraceEnable`].
pub struct TraceEnableModel {
    pub provider: Guid,
    pub capture_environment: bool,
    pub rundown: bool,
    pub no_filtering: bool,
    pub properties: u32,
    pub level: u8,
    pub keyword: u64,
    pub events: Seq<u16>,
    pub callstacks: Seq<u16>,
    pub callstack_keyword: Option<u64>,
    pub custom_filter: Option<(u32, Seq<u8>)>,
}

impl View for TraceEnable {
    type V = TraceEnableModel;

    closed spec fn view(&self) -> TraceEnableModel {
        TraceEnableModel {
            provider: self.provider,
            capture_environment: self.capture_environment,
            rundown: self.rundown,
            no_filtering: self.no_filtering,
            properties: self.properties,
            level: self.level,
            keyword: self.keyword,
            events: self.events@,
            callstacks: self.callstacks@,
            callstack_keyword: self.callstack_keyword,
            custom_filter: match self.custom_filter {
                Some(f) => Some((f.filter_type, f.filter_data@)),
                None => None,
            },
        }
    }
}

/// The ID bytes of an event filter: each ID in native byte order.
pub open spec fn id_bytes(ids: Seq<u16>) -> Seq<u8>
    decreases ids.len(),
{
    if ids.len() == 0 {
        Seq::empty()
    } else {
        id_bytes(ids.drop_last()) + ne_bytes(ids.last() as nat, 2)
    }
}

/// An event ID filter: `1` (filter in), a reserved `0`, the count of IDs
/// as a `u16` and the IDs, in native byte order.
pub open spec fn event_filter_bytes(ids: Seq<u16>) -> Seq<u8> {
    seq![1u8, 0u8] + ne_bytes(ids.len() % 0x10000, 2) + id_bytes(ids)
}

/// The bytes of a process ID filter: each ID in native byte order.
pub open spec fn pid_bytes(pids: Seq<i32>) -> Seq<u8>
    decreases pids.len(),
{
    if pids.len() == 0 {
        Seq::empty()
    } else {
        pid_bytes(pids.drop_last()) + ne_bytes(pids.last() as u32 as nat, 4)
    }
}

/// An `EVENT_FILTER_LEVEL_KW` that filters in stacks for `keyword`: the
/// keyword to match any of, no keyword to match all of, level 0, filter in
/// set, and padding to 24 bytes.
pub open spec fn level_kw_bytes(keyword: u64) -> Seq<u8> {
    ne_bytes(keyword as nat, 8) + ne_bytes(0, 8) + seq![0u8, 1u8, 0u8, 0u8, 0u8, 0u8, 0u8, 0u8]
}

/// The filters handed to ETW when enabling as `m` says, in order, each as
/// its type and bytes.
pub open spec fn planned_filters(m: TraceEnableModel, pids: Option<Seq<i32>>) -> Seq<(u32, Seq<u8>)> {
    if m.no_filtering {
        Seq::empty()
    } else {
        let custom = match m.custom_filter {
            Some(f) => seq![f],
            None => Seq::empty(),
        };
        let events = if 0 < m.events.len() <= 64 {
            seq![(EVENT_FILTER_TYPE_EVENT_ID, event_filter_bytes(m.events))]
        } else {
            Seq::empty()
        };
        let stacks = if 0 < m.callstacks.len() <= 64 {
            seq![(EVENT_FILTER_TYPE_STACKWALK, event_filter_bytes(m.callstacks))]
        } else {
            Seq::empty()
        };
        let procs = match pids {
            Some(p) => if p.len() <= 8 {
                seq![(EVENT_FILTER_TYPE_PID, pid_bytes(p))]
            } else {
                Seq::empty()
            },
            None => Seq::empty(),
        };
        let kw = match m.callstack_keyword {
            Some(k) => seq![(EVENT_FILTER_TYPE_STACKWALK_LEVEL_KW, level_kw_bytes(k))],
            None => Seq::empty(),
        };
        custom + events + stacks + procs + kw
    }
}

/// The enable properties handed to ETW when enabling as `m` says.
pub open spec fn planned_property(m: TraceEnableModel) -> u32 {
    if m.no_filtering {
        0
    } else if m.callstacks.len() > 0 {
        EVENT_ENABLE_PROPERTY_STACK_TRACE | m.properties
    } else {
        m.properties
    }
}

/// A filter to hand to ETW: its type and bytes.
pub struct PlannedFilter {
    pub filter_type: u32,
    pub data: Vec<u8>,
}

/// Everything handed to ETW to enable a provider.
pub struct EnablePlan {
    pub provider: Guid,
    pub level: u8,
    pub keyword: u64,
    pub enable_property: u32,
    pub filters: Vec<PlannedFilter>,
}

/// The filters of a plan as types and bytes.
pub open spec fn filter_views(fs: Seq<PlannedFilter>) -> Seq<(u32, Seq<u8>)> {
    fs.map_values(|f: PlannedFilter| (f.filter_type, f.data@))
}

fn append_bytes(out: &mut Vec<u8>, b: &[u8])
    ensures
        final(out)@ == old(out)@ + b@,
{
    let mut i: usize = 0;
    while i < b.len()
        invariant
            i <= b@.len(),
            out@ == old(out)@ + b@.take(i as int),
        decreases b@.len() - i,
    {
        out.push(b[i]);
        i += 1;
        assert(out@ =~= old(out)@ + b@.take(i as int));
    }
    assert(b@.take(i as int) =~= b@);
}

fn copy_bytes(b: &Vec<u8>) -> (r: Vec<u8>)
    ensures
        r@ == b@,
{
    let mut out: Vec<u8> = Vec::new();
    append_bytes(&mut out, b.as_slice());
    assert(out@ =~= b@);
    out
}

fn pid_filter(pids: &Vec<i32>) -> (r: Vec<u8>)
    ensures
        r@ == pid_bytes(pids@),
{
    let mut out: Vec<u8> = Vec::new();
    let mut i: usize = 0;
    assert(pids@.take(0) =~= Seq::<i32>::empty());
    while i < pids.len()
        invariant
            i <= pids@.len(),
            out@ == pid_bytes(pids@.take(i as int)),
        decreases pids@.len() - i,
    {
        let b = u32_to_ne(pids[i] as u32);
        append_bytes(&mut out, &b);
        proof {
            assert(pids@.take(i + 1).drop_last() =~= pids@.take(i as int));
        }
        i += 1;
    }
    assert(pids@.take(i as int) =~= pids@);
    out
}

fn level_kw_filter(keyword: u64) -> (r: Vec<u8>)
    ensures
        r@ == level_kw_bytes(keyword),
{
    let mut out: Vec<u8> = Vec::new();
    append_bytes(&mut out, &u64_to_ne(keyword));
    append_bytes(&mut out, &u64_to_ne(0));
    append_bytes(&mut out, &[0u8, 1u8, 0u8, 0u8, 0u8, 0u8, 0u8, 0u8]);
    assert(out@ =~= level_kw_bytes(keyword));
    out
}

impl TraceEnable {
    /// Enables `provider` with nothing filtered in or out yet, at level 0
    /// and with no keywords.
    pub fn new(provider: Guid) -> (r: Self)
        ensures
            r@.provider == provider,
            !r@.capture_environment,
            !r@.rundown,
            !r@.no_filtering,
            r@.properties == 0,
            r@.level == 0,
            r@.keyword == 0,
            r@.events == Seq::<u16>::empty(),
            r@.callstacks == Seq::<u16>::empty(),
            r@.callstack_keyword is None,
            r@.custom_filter is None,
    {
        TraceEnable {
            provider,
            no_filtering: false,
            capture_environment: false,
            rundown: false,
            properties: 0,
            level: 0,
            keyword: 0,
            events: Vec::new(),
            callstacks: Vec::new(),
            callstack_keyword: None,
            custom_filter: None,
        }
    }

    /// The provider to enable.
    pub fn provider(&self) -> (r: Guid)
        ensures
            r == self@.provider,
    {
        self.provider
    }

    /// Whether the provider's environment is to be captured.
    pub fn needs_capture_environment(&self) -> (r: bool)
        ensures
            r == self@.capture_environment,
    {
        self.capture_environment
    }

    /// Asks for the provider's environment to be captured.
    pub fn ensure_capture_environment(&mut self)
        ensures
            final(self)@ == (TraceEnableModel { capture_environment: true, ..old(self)@ }),
    {
        self.capture_environment = true;
    }

    /// Whether a rundown of the provider is needed.
    pub fn needs_rundown(&self) -> (r: bool)
        ensures
            r == self@.rundown,
    {
        self.rundown
    }

    /// Asks for a rundown of the provider.
    pub fn ensure_rundown(&mut self)
        ensures
            final(self)@ == (TraceEnableModel { rundown: true, ..old(self)@ }),
    {
        self.rundown = true;
    }

    /// Collects stacks for events with `keyword`.
    pub fn ensure_callstack_keyword(&mut self, keyword: u64)
        ensures
            final(self)@ == (TraceEnableModel { callstack_keyword: Some(keyword), ..old(self)@ }),
    {
        self.callstack_keyword = Some(keyword);
    }

    /// Enables the provider without any filters.
    pub fn ensure_no_filtering(&mut self)
        ensures
            final(self)@ == (TraceEnableModel { no_filtering: true, ..old(self)@ }),
    {
        self.no_filtering = true;
    }

    /// Adds a filter of `filter_type` with the bytes `filter_data`,
    /// replacing an earlier one.
    pub fn ensure_custom_filter(&mut self, filter_type: u32, filter_data: Vec<u8>)
        ensures
            final(self)@ == (TraceEnableModel {
                custom_filter: Some((filter_type, filter_data@)),
                ..old(self)@
            }),
    {
        self.custom_filter = Some(TraceFilter { filter_type, filter_data });
    }

    /// Adds the enable properties `property`.
    pub fn ensure_property(&mut self, property: u32)
        ensures
            final(self)@ == (TraceEnableModel { properties: old(self)@.properties | property, ..old(self)@ }),
    {
        self.properties = self.properties | property;
    }

    /// Raises the level to `level` if it is lower.
    pub fn ensure_level(&mut self, level: u8)
        ensures
            final(self)@ == (TraceEnableModel {
                level: if level > old(self)@.level {
                    level
                } else {
                    old(self)@.level
                },
                ..old(self)@
            }),
    {
        if level > self.level {
            self.level = level;
        }
    }

    /// Adds the keywords `keyword`.
    pub fn ensure_keyword(&mut self, keyword: u64)
        ensures
            final(self)@ == (TraceEnableModel { keyword: old(self)@.keyword | keyword, ..old(self)@ }),
    {
        self.keyword = self.keyword | keyword;
    }

    /// Filters in event `id`, also collecting its stacks when `callstacks`.
    pub fn add_event(&mut self, id: u16, callstacks: bool)
        ensures
            final(self)@ == (TraceEnableModel {
                events: old(self)@.events.push(id),
                callstacks: if callstacks {
                    old(self)@.callstacks.push(id)
                } else {
                    old(self)@.callstacks
                },
                ..old(self)@
            }),
    {
        self.events.push(id);
        if callstacks {
            self.callstacks.push(id);
        }
    }

    /// The bytes of an event ID filter for `ids`; see
    /// [`event_filter_bytes`].
    pub fn build_event_filter(ids: &Vec<u16>) -> (r: Vec<u8>)
        ensures
            r@ == event_filter_bytes(ids@),
    {
        let mut data: Vec<u8> = Vec::new();
        data.push(1u8);
        data.push(0u8);
        let count = (ids.len() % 0x10000) as u16;
        append_bytes(&mut data, &u16_to_ne(count));
        let ghost head = data@;
        let mut i: usize = 0;
        assert(ids@.take(0) =~= Seq::<u16>::empty());
        assert(data@ =~= head + id_bytes(ids@.take(0)));
        while i < ids.len()
            invariant
                i <= ids@.len(),
                data@ == head + id_bytes(ids@.take(i as int)),
            decreases ids@.len() - i,
        {
            append_bytes(&mut data, &u16_to_ne(ids[i]));
            proof {
                assert(ids@.take(i + 1).drop_last() =~= ids@.take(i as int));
                assert(data@ =~= head + id_bytes(ids@.take(i + 1)));
            }
            i += 1;
        }
        assert(ids@.take(i as int) =~= ids@);
        assert(data@ =~= event_filter_bytes(ids@));
        data
    }

    /// What to hand to ETW to enable the provider, with `target_pids` the
    /// processes to restrict it to: filters are used unless filtering is
    /// off, the event and stack filters only for 1 to 64 IDs, the process
    /// filter only for at most 8 processes.
    pub fn plan(&self, target_pids: &Option<Vec<i32>>) -> (r: EnablePlan)
        ensures
            r.provider == self@.provider,
            r.level == self@.level,
            r.keyword == self@.keyword,
            r.enable_property == planned_property(self@),
            filter_views(r.filters@) == planned_filters(
                self@,
                match target_pids {
                    Some(p) => Some(p@),
                    None => None,
                },
            ),
    {
        let mut filters: Vec<PlannedFilter> = Vec::new();
        let mut enable_property: u32 = 0;
        let ghost pids = match target_pids {
            Some(p) => Some(p@),
            None => None::<Seq<i32>>,
        };
        if !self.no_filtering {
            let events_filter = Self::build_event_filter(&self.events);
            let callstacks_filter = Self::build_event_filter(&self.callstacks);
            if let Some(custom) = &self.custom_filter {
                filters.push(
                    PlannedFilter {
                        filter_type: custom.filter_type,
                        data: copy_bytes(&custom.filter_data),
                    },
                );
            }
            let ghost c1 = filter_views(filters@);
            if self.events.len() > 0 && self.events.len() <= 64 {
                filters.push(PlannedFilter { filter_type: EVENT_FILTER_TYPE_EVENT_ID, data: events_filter });
            }
            let ghost c2 = filter_views(filters@);
            if self.callstacks.len() > 0 {
                if self.callstacks.len() <= 64 {
                    filters.push(
                        PlannedFilter { filter_type: EVENT_FILTER_TYPE_STACKWALK, data: callstacks_filter },
                    );
                }
                enable_property = enable_property | EVENT_ENABLE_PROPERTY_STACK_TRACE;
            }
            let ghost c3 = filter_views(filters@);
            if let Some(target_pids) = target_pids {
                if target_pids.len() <= 8 {
                    filters.push(PlannedFilter { filter_type: EVENT_FILTER_TYPE_PID, data: pid_filter(target_pids) });
                }
            }
            let ghost c4 = filter_views(filters@);
            if let Some(callstack_keyword) = self.callstack_keyword {
                filters.push(
                    PlannedFilter {
                        filter_type: EVENT_FILTER_TYPE_STACKWALK_LEVEL_KW,
                        data: level_kw_filter(callstack_keyword),
                    },
                );
            }
            enable_property = enable_property | self.properties;
            proof {
                assert(0u32 | self.properties == self.properties) by (bit_vector);
                assert(0u32 | 4u32 == 4u32) by (bit_vector);
                let m = self@;
                let custom = match m.custom_filter {
                    Some(f) => seq![f],
                    None => Seq::<(u32, Seq<u8>)>::empty(),
                };
                assert(c1 =~= custom);
                assert(filter_views(filters@) =~= planned_filters(m, pids));
            }
        } else {
            assert(filter_views(filters@) =~= Seq::<(u32, Seq<u8>)>::empty());
        }
        EnablePlan {
            provider: self.provider,
            level: self.level,
            keyword: self.keyword,
            enable_property,
            filters,
        }
    }
}

/// Loss and health counters of a running session, cumulative since it
/// started.
#[derive(Debug, Clone, Copy, Default, PartialEq, Eq, Structural)]
pub struct TraceStats {
    /// Events dropped because every buffer was full.
    pub events_lost: u64,
    /// Buffers dropped because the real-time consumer fell behind.
    pub real_time_buffers_lost: u64,
    /// Buffers that could not be written to a log file.
    pub log_buffers_lost: u64,
    /// Buffers written by the session.
    pub buffers_written: u64,
}

impl TraceStats {
    /// The statistics from the counters of a session's properties.
    pub fn from_counters(
        events_lost: u32,
        real_time_buffers_lost: u32,
        log_buffers_lost: u32,
        buffers_written: u32,
    ) -> (r: Self)
        ensures
            r.events_lost == events_lost,
            r.real_time_buffers_lost == real_time_buffers_lost,
            r.log_buffers_lost == log_buffers_lost,
            r.buffers_written == buffers_written,
    {
        TraceStats {
            events_lost: events_lost as u64,
            real_time_buffers_lost: real_time_buffers_lost as u64,
            log_buffers_lost: log_buffers_lost as u64,
            buffers_written: buffers_written as u64,
        }
    }
}

/// Every event that collects stacks is also filtered in.
pub open spec fn stacks_within_events(m: TraceEnableModel) -> bool {
    forall|i: int| 0 <= i < m.callstacks.len() ==> m.events.contains(#[trigger] m.callstacks[i])
}

/// A new provider setting collects no stacks, and adding events keeps
/// every stack-collecting event among the filtered-in ones.
pub proof fn lemma_stacks_within_events(m: TraceEnableModel, id: u16, callstacks: bool)
    ensures
        m.callstacks.len() == 0 ==> stacks_within_events(m),
        stacks_within_events(m) ==> stacks_within_events(
            TraceEnableModel {
                events: m.events.push(id),
                callstacks: if callstacks {
                    m.callstacks.push(id)
                } else {
                    m.callstacks
                },
                ..m
            },
        ),
{
    if stacks_within_events(m) {
        let ev = m.events.push(id);
        let cs = if callstacks {
            m.callstacks.push(id)
        } else {
            m.callstacks
        };
        assert forall|i: int| 0 <= i < cs.len() implies ev.contains(#[trigger] cs[i]) by {
            if i < m.callstacks.len() {
                assert(cs[i] == m.callstacks[i]);
                let j = choose|j: int| 0 <= j < m.events.len() && m.events[j] == m.callstacks[i];
                assert(ev[j] == m.events[j]);
            } else {
                assert(ev[m.events.len() as int] == id);
            }
        }
    }
}

/// Keywords only accumulate: after adding `k`, every keyword set before
/// and every keyword of `k` are set.
pub proof fn lemma_keywords_accumulate(before: u64, k: u64)
    ensures
        (before | k) & before == before,
        (before | k) & k == k,
{
    assert((before | k) & before == before && (before | k) & k == k) by (bit_vector);
}

/// The level never goes down, and ends at least at the requested level.
pub proof fn lemma_level_monotone(before: u8, level: u8)
    ensures
        ({
            let after = if level > before {
                level
            } else {
                before
            };
            after >= before && after >= level && (after == before || after == level)
        }),
{
}

/// The ID bytes of a filter hold each ID, in order, in two bytes.
pub proof fn lemma_id_bytes(ids: Seq<u16>)
    ensures
        id_bytes(ids).len() == 2 * ids.len(),
        forall|i: int|
            0 <= i < ids.len() ==> #[trigger] id_bytes(ids).subrange(2 * i, 2 * i + 2) == ne_bytes(
                ids[i] as nat,
                2,
            ),
    decreases ids.len(),
{
    if ids.len() > 0 {
        let init = ids.drop_last();
        lemma_id_bytes(init);
        lemma_ne_bytes_len(ids.last() as nat, 2);
        let b = id_bytes(ids);
        assert forall|i: int| 0 <= i < ids.len() implies #[trigger] b.subrange(2 * i, 2 * i + 2)
            == ne_bytes(ids[i] as nat, 2) by {
            if i < init.len() {
                assert(b.subrange(2 * i, 2 * i + 2) =~= id_bytes(init).subrange(2 * i, 2 * i + 2));
                assert(init[i] == ids[i]);
            } else {
                assert(b.subrange(2 * i, 2 * i + 2) =~= ne_bytes(ids.last() as nat, 2));
            }
        }
    }
}

/// An event ID filter is `1`, `0`, the count in two bytes, then each ID in
/// two bytes: `4 + 2 * n` bytes for `n` IDs.
pub proof fn lemma_event_filter_layout(ids: Seq<u16>)
    ensures
        ({
            let b = event_filter_bytes(ids);
            &&& b.len() == 4 + 2 * ids.len()
            &&& b[0] == 1
            &&& b[1] == 0
            &&& b.subrange(2, 4) == ne_bytes(ids.len() % 0x10000, 2)
            &&& forall|i: int|
                0 <= i < ids.len() ==> #[trigger] b.subrange(4 + 2 * i, 6 + 2 * i) == ne_bytes(
                    ids[i] as nat,
                    2,
                )
        }),
{
    lemma_id_bytes(ids);
    lemma_ne_bytes_len(ids.len() % 0x10000, 2);
    let b = event_filter_bytes(ids);
    let head = seq![1u8, 0u8] + ne_bytes(ids.len() % 0x10000, 2);
    assert(b.subrange(2, 4) =~= ne_bytes(ids.len() % 0x10000, 2));
    assert forall|i: int| 0 <= i < ids.len() implies #[trigger] b.subrange(4 + 2 * i, 6 + 2 * i)
        == ne_bytes(ids[i] as nat, 2) by {
        assert(b.subrange(4 + 2 * i, 6 + 2 * i) =~= id_bytes(ids).subrange(2 * i, 2 * i + 2));
    }
}

/// With filtering off no filter and no enable property is handed over;
/// with it on, collecting stacks for any event sets the stack trace
/// property.
pub proof fn lemma_plan_properties(m: TraceEnableModel, pids: Option<Seq<i32>>)
    ensures
        m.no_filtering ==> planned_filters(m, pids).len() == 0 && planned_property(m) == 0,
        !m.no_filtering && m.callstacks.len() > 0 ==> planned_property(m)
            & EVENT_ENABLE_PROPERTY_STACK_TRACE != 0,
        !m.no_filtering ==> planned_property(m) & m.properties == m.properties,
{
    let p = m.properties;
    assert((4u32 | p) & 4u32 != 0 && (4u32 | p) & p == p && p & p == p) by (bit_vector);
}


/// `EnableTraceEx2` answered with a status other than `ERROR_SUCCESS`.
#[derive(Clone, Copy, Debug, PartialEq, Eq, Structural)]
pub struct EnableTraceError {
    pub status: u32,
}

impl EnableTraceError {
    /// The text describing the error.
    pub open spec fn spec_message(self) -> Seq<char> {
        "EnableTraceEx2 failed with "@ + decimal(self.status as nat)
    }

    /// The text describing the error.
    pub fn message(&self) -> (r: String)
        ensures
            r@ == self.spec_message(),
    {
        let mut s = String::new();
        push_str(&mut s, "EnableTraceEx2 failed with ");
        push_signed_decimal(&mut s, self.status as i128);
        s
    }
}

/// Decides on the status `EnableTraceEx2` answered with, when enabling or
/// disabling a provider: only 0 is success.
pub fn enable_outcome(status: u32) -> (r: Result<(), EnableTraceError>)
    ensures
        status == 0 <==> r is Ok,
        status != 0 ==> r == Err::<(), EnableTraceError>(EnableTraceError { status }),
{
    if status != 0 {
        return Err(EnableTraceError { status });
    }
    Ok(())
}


/// The enable property handed to ETW is 0 without filtering; with
/// filtering it is the properties asked for, with the stack trace property
/// added exactly when some event collects callstacks: it is set when an
/// event collects callstacks or it was asked for, and no other property is
/// added or dropped.
pub proof fn lemma_planned_property(m: TraceEnableModel)
    ensures
        m.no_filtering ==> planned_property(m) == 0,
        !m.no_filtering && m.callstacks.len() == 0 ==> planned_property(m) == m.properties,
        !m.no_filtering ==> (planned_property(m) & EVENT_ENABLE_PROPERTY_STACK_TRACE != 0) == (
        m.callstacks.len() > 0 || m.properties & EVENT_ENABLE_PROPERTY_STACK_TRACE != 0),
        !m.no_filtering ==> planned_property(m) & !EVENT_ENABLE_PROPERTY_STACK_TRACE == m.properties
            & !EVENT_ENABLE_PROPERTY_STACK_TRACE,
{
    let p = m.properties;
    assert((4u32 | p) & 4u32 != 0) by (bit_vector);
    assert((4u32 | p) & !4u32 == p & !4u32) by (bit_vector);
}

} // verus!
