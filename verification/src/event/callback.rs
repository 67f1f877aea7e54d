//! The callbacks users register on an event, each with a record of what it
//! was run on and what it returned, and a log of the order runs happen in.
//!
//! The records can only grow by running a callback: their fields are private
//! to this module, and [`Callback::call`] is the one place that appends to
//! them.

use crate::event::data::EventData;
use crate::event::format::EventField;
use vstd::prelude::*;

verus! {

/// `anyhow::Error`, the error a callback reports.
#[verifier::external_type_specification]
#[verifier::external_body]
pub struct ExAnyhowError(anyhow::Error);

/// A closure a user registered, run for each occurrence of an event. Its
/// contents are hidden from verification: what the closure does is the
/// user's.
#[verifier::external_body]
struct BoxedClosure {
    f: Box<dyn FnMut(&EventData) -> Result<(), anyhow::Error>>,
}

/// Boxes the closure `f`.
#[verifier::external_body]
fn box_closure(f: impl FnMut(&EventData) -> Result<(), anyhow::Error> + 'static) -> BoxedClosure {
    BoxedClosure { f: Box::new(f) }
}

/// Runs the user's closure on `data`; nothing is known of what it returns.
#[verifier::external_body]
fn run_closure(c: &mut BoxedClosure, data: &EventData) -> Result<(), anyhow::Error> {
    (c.f)(data)
}

/// What a callback was run on: the full data, the payload, and the fields
/// of the format.
pub type CallData = (Seq<u8>, Seq<u8>, Seq<EventField>);

/// The data a callback receives for `data`.
pub open spec fn call_data(data: EventData) -> CallData {
    (data.full_view(), data.event_view(), data.format_view()@)
}

/// A registered callback: the number it was registered under, what it has
/// been run on, and what each run returned, in order.
pub struct CallbackModel {
    pub id: nat,
    pub calls: Seq<CallData>,
    pub outcomes: Seq<Result<(), anyhow::Error>>,
}

/// The numbers of the callbacks run so far, in the order they ran.
pub struct RunLog {
    ids: Ghost<Seq<nat>>,
}

impl View for RunLog {
    type V = Seq<nat>;

    closed spec fn view(&self) -> Seq<nat> {
        self.ids@
    }
}

impl RunLog {
    /// A log of no runs.
    pub fn new() -> (r: RunLog)
        ensures
            r@ == Seq::<nat>::empty(),
    {
        RunLog { ids: Ghost(Seq::empty()) }
    }
}

/// A registered callback, with a record of its runs.
pub struct Callback {
    f: BoxedClosure,
    id: Ghost<nat>,
    calls: Ghost<Seq<CallData>>,
    outcomes: Ghost<Seq<Result<(), anyhow::Error>>>,
}

impl View for Callback {
    type V = CallbackModel;

    closed spec fn view(&self) -> CallbackModel {
        CallbackModel { id: self.id@, calls: self.calls@, outcomes: self.outcomes@ }
    }
}

impl Callback {
    /// Registers the closure `f` under the number `id`, not run yet.
    pub(crate) fn new(
        f: impl FnMut(&EventData) -> Result<(), anyhow::Error> + 'static,
        Ghost(id): Ghost<nat>,
    ) -> (r: Callback)
        ensures
            r@ == (CallbackModel { id, calls: Seq::empty(), outcomes: Seq::empty() }),
    {
        Callback {
            f: box_closure(f),
            id: Ghost(id),
            calls: Ghost(Seq::empty()),
            outcomes: Ghost(Seq::empty()),
        }
    }

    /// Runs the closure on `data`, records the run and its result, and logs
    /// the callback's number in `log`.
    pub(crate) fn call(&mut self, data: &EventData, log: &mut RunLog) -> (r: Result<
        (),
        anyhow::Error,
    >)
        ensures
            final(self)@ == (CallbackModel {
                calls: old(self)@.calls.push(call_data(*data)),
                outcomes: old(self)@.outcomes.push(r),
                ..old(self)@
            }),
            final(log)@ == old(log)@.push(old(self)@.id),
    {
        let r = run_closure(&mut self.f, data);
        self.calls = Ghost(self.calls@.push(call_data(*data)));
        self.outcomes = Ghost(self.outcomes@.push(r));
        log.ids = Ghost(log.ids@.push(self.id@));
        r
    }
}

} // verus!
