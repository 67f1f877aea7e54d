//! Events: their identity, flags, format, and the callbacks run for each
//! occurrence.

use crate::event::callback::{call_data, CallData, Callback, CallbackModel, RunLog};
use crate::event::data::EventData;
use crate::event::filter::FieldFilter;
use crate::event::format::{field_access, offsets_fit, EventField, EventFormat, FieldDataAccessor};
use crate::event::os::EventExtension;
use crate::event::writer::{writer_model, FieldWriter, FormatWriter};
use crate::event::filter::filter_test;
use crate::event::format::find_named;
use vstd::prelude::*;

verus! {

/// No callstacks are collected for the event.
pub const EVENT_FLAG_NO_CALLSTACK: u64 = 1;

/// The event stands in for another and is not enabled itself.
pub const EVENT_FLAG_PROXY: u64 = 2;

/// The event comes through whichever CPU sent it.
pub const EVENT_FLAG_NO_CPU_MASK: u64 = 4;

/// The errors among `outcomes`, in order.
pub open spec fn errors_of(outcomes: Seq<Result<(), anyhow::Error>>) -> Seq<anyhow::Error>
    decreases outcomes.len(),
{
    if outcomes.len() == 0 {
        Seq::empty()
    } else {
        let prev = errors_of(outcomes.drop_last());
        match outcomes.last() {
            Err(e) => prev.push(e),
            Ok(_) => prev,
        }
    }
}

/// The result of the latest run of each of `callbacks`, in order.
pub open spec fn latest_outcomes(callbacks: Seq<CallbackModel>) -> Seq<Result<(), anyhow::Error>> {
    callbacks.map_values(|c: CallbackModel| c.outcomes.last())
}

/// The numbers of `callbacks`, in order.
pub open spec fn callback_ids(callbacks: Seq<CallbackModel>) -> Seq<nat> {
    callbacks.map_values(|c: CallbackModel| c.id)
}

/// `after` is `before` run once more, on `d`.
pub open spec fn ran_once_more(before: CallbackModel, after: CallbackModel, d: CallData) -> bool {
    &&& after.id == before.id
    &&& after.calls == before.calls.push(d)
    &&& after.outcomes.len() == before.outcomes.len() + 1
    &&& after.outcomes.drop_last() == before.outcomes
}

/// What an [`Event`] holds, apart from what its closures hold.
pub struct EventModel {
    pub id: usize,
    pub proxy_id: usize,
    pub name: Seq<char>,
    pub flags: u64,
    /// The callbacks, in the order they were added.
    pub callbacks: Seq<CallbackModel>,
    /// The number the next callback added is registered under.
    pub next_callback: nat,
    pub format: Seq<EventField>,
    pub extension: EventExtension,
    /// The numbers of the callbacks run so far, in the order they ran.
    pub runs: Seq<nat>,
}

/// Flag `bit` is set in `flags`.
pub open spec fn flag_set(flags: u64, bit: u64) -> bool {
    flags & bit != 0
}

/// An event: its identity, flags, format, extension and callbacks.
pub struct Event {
    id: usize,
    proxy_id: usize,
    name: String,
    flags: u64,
    callbacks: Vec<Callback>,
    format: EventFormat,
    extension: EventExtension,
    next_callback: Ghost<nat>,
    runs: RunLog,
}

impl View for Event {
    type V = EventModel;

    closed spec fn view(&self) -> EventModel {
        EventModel {
            id: self.id,
            proxy_id: self.proxy_id,
            name: self.name@,
            flags: self.flags,
            callbacks: self.callbacks@.map_values(|c: Callback| c@),
            next_callback: self.next_callback@,
            format: self.format@,
            extension: self.extension,
            runs: self.runs@,
        }
    }
}

impl Event {
    /// A new event with no flags, no callbacks and an empty format.
    pub fn new(id: usize, name: String) -> (r: Self)
        ensures
            r@.id == id,
            r@.proxy_id == 0,
            r@.name == name@,
            r@.flags == 0,
            r@.callbacks == Seq::<CallbackModel>::empty(),
            r@.next_callback == 0,
            r@.format == Seq::<EventField>::empty(),
            r@.extension.provider.data1 == 0,
            r@.extension.provider.data2 == 0,
            r@.extension.provider.data3 == 0,
            forall|i: int| 0 <= i < 8 ==> #[trigger] r@.extension.provider.data4@[i] == 0,
            r@.extension.level == 0,
            r@.extension.keyword == 0,
            r@.runs == Seq::<nat>::empty(),
    {
        Event {
            id,
            proxy_id: 0,
            name,
            flags: 0,
            callbacks: Vec::new(),
            format: EventFormat::new(),
            extension: EventExtension::default(),
            next_callback: Ghost(0),
            runs: RunLog::new(),
        }
    }

    /// A filter on a field of the event's format; see
    /// [`EventFormat::try_get_field_filter_closure`].
    pub fn try_get_field_filter_closure(
        &self,
        field_name: &str,
        operation: &str,
        value: &str,
    ) -> (r: Option<FieldFilter>)
        requires
            offsets_fit(self@.format, field_name@),
        ensures
            match field_access(self@.format, field_name@) {
                None => r is None,
                Some(p) => match filter_test(
                    self@.format[find_named(self@.format, field_name@)->0 as int].field_type@,
                    operation@,
                    value,
                ) {
                    None => r is None,
                    Some(t) => r matches Some(f) && f.accessor.offset == p.0 && f.accessor.size
                        == p.1 && f.accessor.location == p.2 && f.accessor.skips@ == p.3
                        && f.test.model() == t,
                },
            },
    {
        self.format.try_get_field_filter_closure(field_name, operation, value)
    }

    /// A writer for every field of the event's format whose data can be
    /// located; see [`EventFormat::get_write_closure`].
    pub fn get_write_closure(&self) -> (r: FormatWriter)
        requires
            forall|k: int|
                0 <= k < self@.format.len() ==> offsets_fit(self@.format, #[trigger] self@.format[k].name@),
        ensures
            r.entries@.len() == crate::event::writer::write_names(
                self@.format,
                self@.format.len(),
            ).len(),
            forall|i: int|
                0 <= i < r.entries@.len() ==> {
                    let nm = crate::event::writer::write_names(self@.format, self@.format.len())[i];
                    &&& #[trigger] r.entries@[i].name@ == nm
                    &&& writer_model(self@.format, nm) == Some(r.entries@[i].writer.model())
                },
    {
        self.format.get_write_closure()
    }

    /// A writer for one field of the event's format; see
    /// [`EventFormat::try_get_field_write_closure`].
    pub fn try_get_field_write_closure(&self, field_name: &str) -> (r: Option<FieldWriter>)
        requires
            offsets_fit(self@.format, field_name@),
        ensures
            match writer_model(self@.format, field_name@) {
                None => r is None,
                Some(m) => r matches Some(w) && w.model() == m,
            },
    {
        self.format.try_get_field_write_closure(field_name)
    }

    /// An accessor for one field of the event's format; see
    /// [`EventFormat::try_get_field_data_closure`].
    pub fn try_get_field_data_closure(&self, field_name: &str) -> (r: Option<FieldDataAccessor>)
        requires
            offsets_fit(self@.format, field_name@),
        ensures
            match field_access(self@.format, field_name@) {
                None => r is None,
                Some(p) => r matches Some(a) && a.offset == p.0 && a.size == p.1 && a.location
                    == p.2 && a.skips@ == p.3,
            },
    {
        self.format.try_get_field_data_closure(field_name)
    }

    /// The ID of the event.
    pub fn id(&self) -> (r: usize)
        ensures
            r == self@.id,
    {
        self.id
    }

    /// The name of the event.
    pub fn name(&self) -> (r: &str)
        ensures
            r@ == self@.name,
    {
        self.name.as_str()
    }

    /// Marks the event as not wanting callstacks, for high volume events.
    pub fn set_no_callstack_flag(&mut self)
        ensures
            final(self)@ == (EventModel { flags: old(self)@.flags | EVENT_FLAG_NO_CALLSTACK, ..old(self)@ }),
    {
        self.flags = self.flags | EVENT_FLAG_NO_CALLSTACK;
    }

    /// Whether the event is marked as not wanting callstacks.
    pub fn has_no_callstack_flag(&self) -> (r: bool)
        ensures
            r == flag_set(self@.flags, EVENT_FLAG_NO_CALLSTACK),
    {
        self.flags & EVENT_FLAG_NO_CALLSTACK != 0
    }

    /// Marks the event as coming through whichever CPU sent it.
    pub fn set_no_cpu_mask_flag(&mut self)
        ensures
            final(self)@ == (EventModel { flags: old(self)@.flags | EVENT_FLAG_NO_CPU_MASK, ..old(self)@ }),
    {
        self.flags = self.flags | EVENT_FLAG_NO_CPU_MASK;
    }

    /// Whether the event comes through whichever CPU sent it.
    pub fn has_no_cpu_mask_flag(&self) -> (r: bool)
        ensures
            r == flag_set(self@.flags, EVENT_FLAG_NO_CPU_MASK),
    {
        self.flags & EVENT_FLAG_NO_CPU_MASK != 0
    }

    /// Marks the event as a proxy with the given ID: the session does not
    /// enable it itself.
    pub fn set_proxy_id(&mut self, id: usize)
        ensures
            final(self)@ == (EventModel {
                flags: old(self)@.flags | EVENT_FLAG_PROXY,
                proxy_id: id,
                ..old(self)@
            }),
    {
        self.flags = self.flags | EVENT_FLAG_PROXY;
        self.proxy_id = id;
    }

    /// The proxy ID, when the event is a proxy.
    pub fn get_proxy_id(&self) -> (r: Option<usize>)
        ensures
            r == (if flag_set(self@.flags, EVENT_FLAG_PROXY) {
                Some(self@.proxy_id)
            } else {
                None
            }),
    {
        if self.flags & EVENT_FLAG_PROXY != 0 {
            Some(self.proxy_id)
        } else {
            None
        }
    }

    /// The event's format, to change.
    pub fn format_mut(&mut self) -> (r: &mut EventFormat)
        ensures
            r@ == old(self)@.format,
            final(self)@ == (EventModel { format: final(r)@, ..old(self)@ }),
    {
        &mut self.format
    }

    /// The event's format.
    pub fn format(&self) -> (r: &EventFormat)
        ensures
            r@ == self@.format,
    {
        &self.format
    }

    /// The event's extension.
    pub fn extension(&self) -> (r: &EventExtension)
        ensures
            *r == self@.extension,
    {
        &self.extension
    }

    /// The event's extension, to change.
    pub fn extension_mut(&mut self) -> (r: &mut EventExtension)
        ensures
            *r == old(self)@.extension,
            final(self)@ == (EventModel { extension: *final(r), ..old(self)@ }),
    {
        &mut self.extension
    }

    /// Adds a callback run each time the event is processed, after those
    /// added before it.
    pub fn add_callback(
        &mut self,
        callback: impl FnMut(&EventData) -> Result<(), anyhow::Error> + 'static,
    )
        ensures
            final(self)@ == (EventModel {
                callbacks: old(self)@.callbacks.push(
                    CallbackModel {
                        id: old(self)@.next_callback,
                        calls: Seq::empty(),
                        outcomes: Seq::empty(),
                    },
                ),
                next_callback: old(self)@.next_callback + 1,
                ..old(self)@
            }),
    {
        let cb = Callback::new(callback, Ghost(self.next_callback@));
        self.callbacks.push(cb);
        self.next_callback = Ghost(self.next_callback@ + 1);
        assert(self.callbacks@.map_values(|c: Callback| c@) =~= old(self).callbacks@.map_values(
            |c: Callback| c@,
        ).push(cb@));
    }

    /// Runs every callback once, in the order they were added, on an
    /// [`EventData`] of `full_data`, `event_data` and the event's format;
    /// each error a callback returns is appended to `errors`, in order.
    pub fn process(&mut self, full_data: &[u8], event_data: &[u8], errors: &mut Vec<anyhow::Error>)
        ensures
            final(self)@ == (EventModel {
                callbacks: final(self)@.callbacks,
                runs: old(self)@.runs + callback_ids(old(self)@.callbacks),
                ..old(self)@
            }),
            final(self)@.callbacks.len() == old(self)@.callbacks.len(),
            forall|k: int|
                0 <= k < old(self)@.callbacks.len() ==> ran_once_more(
                    old(self)@.callbacks[k],
                    #[trigger] final(self)@.callbacks[k],
                    (full_data@, event_data@, old(self)@.format),
                ),
            final(errors)@ == old(errors)@ + errors_of(latest_outcomes(final(self)@.callbacks)),
    {
        let data = EventData::new(full_data, event_data, &self.format);
        let ghost d = (full_data@, event_data@, old(self)@.format);
        assert(call_data(data) == d);
        let n = self.callbacks.len();
        let mut i: usize = 0;
        assert(old(self)@.callbacks.take(0) =~= Seq::<CallbackModel>::empty());
        assert(latest_outcomes(self@.callbacks.take(0)) =~= Seq::<Result<(), anyhow::Error>>::empty());
        assert(old(self)@.runs + callback_ids(old(self)@.callbacks.take(0)) =~= old(self)@.runs);
        assert(old(errors)@ + Seq::<anyhow::Error>::empty() =~= old(errors)@);
        while i < n
            invariant
                n == self.callbacks@.len(),
                n == old(self)@.callbacks.len(),
                i <= n,
                call_data(data) == d,
                d == (full_data@, event_data@, old(self)@.format),
                self@ == (EventModel {
                    callbacks: self@.callbacks,
                    runs: old(self)@.runs + callback_ids(old(self)@.callbacks.take(i as int)),
                    ..old(self)@
                }),
                forall|k: int|
                    0 <= k < i ==> ran_once_more(
                        old(self)@.callbacks[k],
                        #[trigger] self@.callbacks[k],
                        d,
                    ),
                forall|k: int| i <= k < n ==> #[trigger] self@.callbacks[k] == old(self)@.callbacks[k],
                errors@ == old(errors)@ + errors_of(latest_outcomes(self@.callbacks.take(i as int))),
            decreases n - i,
        {
            let ghost before = self@.callbacks;
            let ghost cb_before = self.callbacks@[i as int]@;
            assert(self@.callbacks[i as int] == cb_before);
            assert(cb_before == old(self)@.callbacks[i as int]);
            let r = self.callbacks[i].call(&data, &mut self.runs);
            proof {
                assert(self.callbacks@[i as int]@ == (CallbackModel {
                    calls: cb_before.calls.push(call_data(data)),
                    outcomes: cb_before.outcomes.push(r),
                    ..cb_before
                }));
                assert(self@.callbacks[i as int] == self.callbacks@[i as int]@);
                assert(self@.callbacks =~= before.update(i as int, self.callbacks@[i as int]@));
                assert(self@.callbacks.take(i as int) =~= before.take(i as int));
                let c = self@.callbacks[i as int];
                assert(c.outcomes.drop_last() =~= old(self)@.callbacks[i as int].outcomes);
                assert(ran_once_more(old(self)@.callbacks[i as int], c, d));
                assert forall|k: int| 0 <= k < i + 1 implies ran_once_more(
                    old(self)@.callbacks[k],
                    #[trigger] self@.callbacks[k],
                    d,
                ) by {
                    if k < i {
                        assert(self@.callbacks[k] == before[k]);
                    }
                }
            }
            match r {
                Ok(()) => {},
                Err(e) => {
                    errors.push(e);
                },
            }
            proof {
                let t = self@.callbacks.take(i + 1);
                assert(t.drop_last() =~= self@.callbacks.take(i as int));
                assert(latest_outcomes(t).drop_last() =~= latest_outcomes(self@.callbacks.take(i as int)));
                assert(latest_outcomes(t).last() == r);
                assert(errors_of(latest_outcomes(t)) == match r {
                    Err(e) => errors_of(latest_outcomes(self@.callbacks.take(i as int))).push(e),
                    Ok(_) => errors_of(latest_outcomes(self@.callbacks.take(i as int))),
                });
                assert(errors@ =~= old(errors)@ + errors_of(latest_outcomes(t)));
                assert(old(self)@.callbacks.take(i + 1).drop_last() =~= old(self)@.callbacks.take(i as int));
                assert(callback_ids(old(self)@.callbacks.take(i + 1)) =~= callback_ids(
                    old(self)@.callbacks.take(i as int),
                ).push(old(self)@.callbacks[i as int].id));
                assert(old(self)@.runs + callback_ids(old(self)@.callbacks.take(i + 1)) =~= self@.runs);
            }
            i += 1;
        }
        proof {
            assert(self@.callbacks.take(n as int) =~= self@.callbacks);
            assert(old(self)@.callbacks.take(n as int) =~= old(self)@.callbacks);
        }
    }
}

/// Setting any of the event flags makes it read as set, and leaves the
/// other two as they were; a fresh event has none of them set.
pub proof fn lemma_event_flags(flags: u64)
    ensures
        flag_set(flags | EVENT_FLAG_NO_CALLSTACK, EVENT_FLAG_NO_CALLSTACK),
        flag_set(flags | EVENT_FLAG_PROXY, EVENT_FLAG_PROXY),
        flag_set(flags | EVENT_FLAG_NO_CPU_MASK, EVENT_FLAG_NO_CPU_MASK),
        flag_set(flags | EVENT_FLAG_NO_CALLSTACK, EVENT_FLAG_PROXY) == flag_set(flags, EVENT_FLAG_PROXY),
        flag_set(flags | EVENT_FLAG_NO_CALLSTACK, EVENT_FLAG_NO_CPU_MASK) == flag_set(
            flags,
            EVENT_FLAG_NO_CPU_MASK,
        ),
        flag_set(flags | EVENT_FLAG_PROXY, EVENT_FLAG_NO_CALLSTACK) == flag_set(
            flags,
            EVENT_FLAG_NO_CALLSTACK,
        ),
        flag_set(flags | EVENT_FLAG_PROXY, EVENT_FLAG_NO_CPU_MASK) == flag_set(
            flags,
            EVENT_FLAG_NO_CPU_MASK,
        ),
        flag_set(flags | EVENT_FLAG_NO_CPU_MASK, EVENT_FLAG_NO_CALLSTACK) == flag_set(
            flags,
            EVENT_FLAG_NO_CALLSTACK,
        ),
        flag_set(flags | EVENT_FLAG_NO_CPU_MASK, EVENT_FLAG_PROXY) == flag_set(flags, EVENT_FLAG_PROXY),
        !flag_set(0, EVENT_FLAG_NO_CALLSTACK),
        !flag_set(0, EVENT_FLAG_PROXY),
        !flag_set(0, EVENT_FLAG_NO_CPU_MASK),
{
    assert(((flags | 1) & 1) != 0 && ((flags | 2) & 2) != 0 && ((flags | 4) & 4) != 0 && (((
    flags | 1) & 2) != 0) == ((flags & 2) != 0) && (((flags | 1) & 4) != 0) == ((flags & 4) != 0)
        && (((flags | 2) & 1) != 0) == ((flags & 1) != 0) && (((flags | 2) & 4) != 0) == ((flags
        & 4) != 0) && (((flags | 4) & 1) != 0) == ((flags & 1) != 0) && (((flags | 4) & 2) != 0)
        == ((flags & 2) != 0) && (0u64 & 1) == 0 && (0u64 & 2) == 0 && (0u64 & 4) == 0)
        by (bit_vector);
}

/// After `set_proxy_id(id)`, `get_proxy_id` gives `Some(id)`.
pub proof fn lemma_proxy_round_trip(m: EventModel, id: usize)
    ensures
        ({
            let after = EventModel { flags: m.flags | EVENT_FLAG_PROXY, proxy_id: id, ..m };
            (if flag_set(after.flags, EVENT_FLAG_PROXY) {
                Some(after.proxy_id)
            } else {
                None
            }) == Some(id)
        }),
{
    lemma_event_flags(m.flags);
}

/// A call of one of the flag setters of [`Event`].
pub enum FlagCall {
    /// `set_no_callstack_flag()`.
    NoCallstack,
    /// `set_no_cpu_mask_flag()`.
    NoCpuMask,
    /// `set_proxy_id(id)`.
    Proxy(usize),
}

/// The event `m` after `calls`, in order, each as its setter's `ensures`
/// states.
pub open spec fn after_calls(m: EventModel, calls: Seq<FlagCall>) -> EventModel
    decreases calls.len(),
{
    if calls.len() == 0 {
        m
    } else {
        let p = after_calls(m, calls.drop_last());
        match calls.last() {
            FlagCall::NoCallstack => EventModel { flags: p.flags | EVENT_FLAG_NO_CALLSTACK, ..p },
            FlagCall::NoCpuMask => EventModel { flags: p.flags | EVENT_FLAG_NO_CPU_MASK, ..p },
            FlagCall::Proxy(x) => EventModel { flags: p.flags | EVENT_FLAG_PROXY, proxy_id: x, ..p },
        }
    }
}

/// The ID of the last `set_proxy_id` among `calls`, if any.
pub open spec fn last_proxy(calls: Seq<FlagCall>) -> Option<usize>
    decreases calls.len(),
{
    if calls.len() == 0 {
        None
    } else {
        match calls.last() {
            FlagCall::Proxy(x) => Some(x),
            _ => last_proxy(calls.drop_last()),
        }
    }
}

/// From an event with no flags set, such as a new one, after any sequence
/// of setter calls a flag reads as set exactly when one of the calls sets
/// it, and `get_proxy_id` gives the ID of the last `set_proxy_id`, or
/// `None` when there was none.
pub proof fn lemma_flag_calls(m: EventModel, calls: Seq<FlagCall>)
    requires
        m.flags == 0,
    ensures
        ({
            let after = after_calls(m, calls);
            &&& flag_set(after.flags, EVENT_FLAG_NO_CALLSTACK) == calls.contains(FlagCall::NoCallstack)
            &&& flag_set(after.flags, EVENT_FLAG_NO_CPU_MASK) == calls.contains(FlagCall::NoCpuMask)
            &&& (if flag_set(after.flags, EVENT_FLAG_PROXY) {
                Some(after.proxy_id)
            } else {
                None
            }) == last_proxy(calls)
        }),
    decreases calls.len(),
{
    if calls.len() == 0 {
        lemma_event_flags(0);
    } else {
        let init = calls.drop_last();
        lemma_flag_calls(m, init);
        let p = after_calls(m, init);
        lemma_event_flags(p.flags);
        assert forall|c: FlagCall| calls.contains(c) <==> (init.contains(c) || calls.last() == c) by {
            if calls.contains(c) {
                let j = choose|j: int| 0 <= j < calls.len() && calls[j] == c;
                if j < init.len() {
                    assert(init[j] == c);
                }
            }
            if init.contains(c) {
                let j = choose|j: int| 0 <= j < init.len() && init[j] == c;
                assert(calls[j] == c);
            }
            if calls.last() == c {
                assert(calls[calls.len() - 1] == c);
            }
        }
    }
}

} // verus!
