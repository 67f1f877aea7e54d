//! The data handed to event callbacks, and shared references to a slice of
//! it.

use crate::bytes::{ne_uint, read_ne_u16, read_ne_u32, read_ne_u64};
use crate::event::format::{EventError, EventFormat};
use std::rc::Rc;
use vstd::cell::invcell::InvCell;
use vstd::predicate::Predicate;
use vstd::prelude::*;

verus! {

/// The data of one occurrence of an event and the format describing it.
pub struct EventData<'a> {
    full_data: &'a [u8],
    event_data: &'a [u8],
    format: &'a EventFormat,
}

impl<'a> EventData<'a> {
    /// The full data, including what precedes the payload.
    pub closed spec fn full_view(&self) -> Seq<u8> {
        self.full_data@
    }

    /// The event specific payload.
    pub closed spec fn event_view(&self) -> Seq<u8> {
        self.event_data@
    }

    /// The format describing the payload.
    pub closed spec fn format_view(&self) -> EventFormat {
        *self.format
    }

    /// Pairs the full data and payload of an event with its format.
    pub fn new(full_data: &'a [u8], event_data: &'a [u8], format: &'a EventFormat) -> (r: Self)
        ensures
            r.full_view() == full_data@,
            r.event_view() == event_data@,
            r.format_view() == *format,
    {
        EventData { full_data, event_data, format }
    }

    /// The full data for the event, including non-payload data.
    pub fn full_data(&self) -> (r: &'a [u8])
        ensures
            r@ == self.full_view(),
    {
        self.full_data
    }

    /// The event specific payload.
    pub fn event_data(&self) -> (r: &'a [u8])
        ensures
            r@ == self.event_view(),
    {
        self.event_data
    }

    /// The format of the event.
    pub fn format(&self) -> (r: &'a EventFormat)
        ensures
            *r == self.format_view(),
    {
        self.format
    }
}

/// A range of event data, from `start` up to `end`.
#[derive(Clone, Copy)]
pub struct DataField(u32, u32);

impl View for DataField {
    type V = (nat, nat);

    closed spec fn view(&self) -> (nat, nat) {
        (self.0 as nat, self.1 as nat)
    }
}

impl Default for DataField {
    fn default() -> (r: Self)
        ensures
            r@ == (0nat, 0nat),
    {
        DataField(0, 0)
    }
}

impl DataField {
    /// The bytes of `data` this range covers: empty when `data` ends
    /// before the range does, or when the range ends before it starts.
    pub open spec fn spec_slice(&self, data: Seq<u8>) -> Seq<u8> {
        if data.len() < self@.1 || self@.1 < self@.0 {
            Seq::empty()
        } else {
            data.subrange(self@.0 as int, self@.1 as int)
        }
    }

    /// The range from `start` to `end`.
    pub fn new(start: u32, end: u32) -> (r: Self)
        ensures
            r@ == (start as nat, end as nat),
    {
        DataField(start, end)
    }

    /// Where the range starts.
    pub fn start(&self) -> (r: usize)
        ensures
            r == self@.0,
    {
        self.0 as usize
    }

    /// Where the range ends.
    pub fn end(&self) -> (r: usize)
        ensures
            r == self@.1,
    {
        self.1 as usize
    }

    /// The bytes of `data` in the range; empty when `data` is too short or
    /// the range ends before it starts.
    pub fn slice<'a>(&self, data: &'a [u8]) -> (r: &'a [u8])
        ensures
            r@ == self.spec_slice(data@),
    {
        if data.len() < self.end() || self.end() < self.start() {
            let empty: &'a [u8] = &data[0..0];
            assert(empty@ =~= Seq::<u8>::empty());
            return empty;
        }
        &data[self.start()..self.end()]
    }
}

/// The values a shared range may hold: any range, including one cut to 32
/// bits that ends before it starts.
pub struct AnyRange;

impl Predicate<DataField> for AnyRange {
    open spec fn predicate(&self, v: DataField) -> bool {
        true
    }
}

/// A [`DataField`] shared by every clone of the reference, so that one
/// consumer can update it and the others read the new range.
pub struct DataFieldRef(Rc<InvCell<DataField, AnyRange>>);

impl Clone for DataFieldRef {
    /// Another reference to the same shared range.
    fn clone(&self) -> (r: Self)
        ensures
            r == *self,
    {
        proof {
            use_type_invariant(self);
        }
        DataFieldRef(Rc::clone(&self.0))
    }
}

/// `d` is what some range `f` picks from `data`.
pub open spec fn some_range_of(d: Seq<u8>, data: Seq<u8>) -> bool {
    exists|f: DataField| #[trigger] f.spec_slice(data) == d
}

impl DataFieldRef {
    #[verifier::type_invariant]
    closed spec fn wf(&self) -> bool {
        self.0.predicate() == AnyRange
    }

    /// A new shared range, empty at the start.
    pub fn new() -> (r: Self) {
        DataFieldRef(Rc::new(InvCell::new(DataField(0, 0), Ghost(AnyRange))))
    }

    /// The range as it is now.
    pub fn get(&self) -> (r: DataField) {
        (*self.0).get()
    }

    /// The bytes of `data` in the range as it is now; empty when `data` is
    /// too short.
    pub fn get_data<'a>(&self, data: &'a [u8]) -> (r: &'a [u8])
        ensures
            some_range_of(r@, data@),
    {
        let field = self.get();
        field.slice(data)
    }

    /// The first 8 bytes of the range as a `u64` in native byte order.
    pub fn get_u64(&self, data: &[u8]) -> (r: Result<u64, EventError>)
        ensures
            exists|d: Seq<u8>| #[trigger] some_range_of(d, data@) && match r {
                Ok(v) => d.len() >= 8 && v as nat == ne_uint(d.take(8)),
                Err(e) => d.len() < 8 && e == EventError::NotEnoughData,
            },
    {
        let slice = self.get_data(data);
        if slice.len() < 8 {
            return Err(EventError::NotEnoughData);
        }
        assert(slice@.subrange(0, 8) =~= slice@.take(8));
        Ok(read_ne_u64(slice, 0))
    }

    /// The first 8 bytes of the range as a `u64` in native byte order;
    /// `None` when the range is shorter.
    pub fn try_get_u64(&self, data: &[u8]) -> (r: Option<u64>)
        ensures
            exists|d: Seq<u8>| #[trigger] some_range_of(d, data@) && match r {
                Some(v) => d.len() >= 8 && v as nat == ne_uint(d.take(8)),
                None => d.len() < 8,
            },
    {
        let slice = self.get_data(data);
        if slice.len() < 8 {
            return None;
        }
        assert(slice@.subrange(0, 8) =~= slice@.take(8));
        Some(read_ne_u64(slice, 0))
    }

    /// The first 4 bytes of the range as a `u32` in native byte order.
    pub fn get_u32(&self, data: &[u8]) -> (r: Result<u32, EventError>)
        ensures
            exists|d: Seq<u8>| #[trigger] some_range_of(d, data@) && match r {
                Ok(v) => d.len() >= 4 && v as nat == ne_uint(d.take(4)),
                Err(e) => d.len() < 4 && e == EventError::NotEnoughData,
            },
    {
        let slice = self.get_data(data);
        if slice.len() < 4 {
            return Err(EventError::NotEnoughData);
        }
        assert(slice@.subrange(0, 4) =~= slice@.take(4));
        Ok(read_ne_u32(slice, 0))
    }

    /// The first 4 bytes of the range as a `u32` in native byte order;
    /// `None` when the range is shorter.
    pub fn try_get_u32(&self, data: &[u8]) -> (r: Option<u32>)
        ensures
            exists|d: Seq<u8>| #[trigger] some_range_of(d, data@) && match r {
                Some(v) => d.len() >= 4 && v as nat == ne_uint(d.take(4)),
                None => d.len() < 4,
            },
    {
        let slice = self.get_data(data);
        if slice.len() < 4 {
            return None;
        }
        assert(slice@.subrange(0, 4) =~= slice@.take(4));
        Some(read_ne_u32(slice, 0))
    }

    /// The first 2 bytes of the range as a `u16` in native byte order.
    pub fn get_u16(&self, data: &[u8]) -> (r: Result<u16, EventError>)
        ensures
            exists|d: Seq<u8>| #[trigger] some_range_of(d, data@) && match r {
                Ok(v) => d.len() >= 2 && v as nat == ne_uint(d.take(2)),
                Err(e) => d.len() < 2 && e == EventError::NotEnoughData,
            },
    {
        let slice = self.get_data(data);
        if slice.len() < 2 {
            return Err(EventError::NotEnoughData);
        }
        assert(slice@.subrange(0, 2) =~= slice@.take(2));
        Ok(read_ne_u16(slice, 0))
    }

    /// The first 2 bytes of the range as a `u16` in native byte order;
    /// `None` when the range is shorter.
    pub fn try_get_u16(&self, data: &[u8]) -> (r: Option<u16>)
        ensures
            exists|d: Seq<u8>| #[trigger] some_range_of(d, data@) && match r {
                Some(v) => d.len() >= 2 && v as nat == ne_uint(d.take(2)),
                None => d.len() < 2,
            },
    {
        let slice = self.get_data(data);
        if slice.len() < 2 {
            return None;
        }
        assert(slice@.subrange(0, 2) =~= slice@.take(2));
        Some(read_ne_u16(slice, 0))
    }

    /// The first byte of the range.
    pub fn get_u8(&self, data: &[u8]) -> (r: Result<u8, EventError>)
        ensures
            exists|d: Seq<u8>| #[trigger] some_range_of(d, data@) && match r {
                Ok(v) => d.len() >= 1 && v == d[0],
                Err(e) => d.len() == 0 && e == EventError::NotEnoughData,
            },
    {
        let slice = self.get_data(data);
        if slice.len() == 0 {
            return Err(EventError::NotEnoughData);
        }
        Ok(slice[0])
    }

    /// The first byte of the range; `None` when the range is empty.
    pub fn try_get_u8(&self, data: &[u8]) -> (r: Option<u8>)
        ensures
            exists|d: Seq<u8>| #[trigger] some_range_of(d, data@) && match r {
                Some(v) => d.len() >= 1 && v == d[0],
                None => d.len() == 0,
            },
    {
        let slice = self.get_data(data);
        if slice.len() == 0 {
            return None;
        }
        Some(slice[0])
    }

    /// Empties the range.
    pub fn reset(&self) {
        self.update(0, 0);
    }

    /// Sets the range to the `len` bytes from `start`, for every clone of
    /// this reference; returns `len`. Both ends are kept as `u32`, so larger
    /// positions are cut to their low 32 bits; a cut range that ends before
    /// it starts reads as empty.
    pub fn update(&self, start: usize, len: usize) -> (r: usize)
        requires
            start + len <= usize::MAX,
        ensures
            r == len,
    {
        proof {
            use_type_invariant(self);
        }
        let end = start + len;
        let field = DataField(#[verifier::truncate] (start as u32), #[verifier::truncate] (end as u32));
        (*self.0).set(field);
        len
    }
}

impl Default for DataFieldRef {
    fn default() -> (r: Self) {
        Self::new()
    }
}

} // verus!
