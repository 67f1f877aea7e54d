//! Event formats: the fields of an event, where each one lives in the event
//! data, and reading them.

use crate::bytes::{
    find_nul, find_nul16, read_ne_u32, read_ne_u64, lemma_nul16_len_bounds, lemma_nul_len_bounds, ne_uint, nul16_len, nul_len,
    read_ne_u16,
};
use crate::text::{chars_eq_str, split_tokens, str_eq, tokens, utf8_str};
use vstd::utf8::{decode_utf8, valid_utf8};
use vstd::prelude::*;

verus! {

/// How the location of an [`EventField`] within the event data is given.
#[derive(Debug, PartialEq, Eq, Structural, Clone, Copy)]
pub enum LocationType {
    /// Binary data at a fixed offset with a fixed size.
    Static,
    /// A NUL terminated UTF-8 string.
    StaticString,
    /// A location relative to another field.
    DynRelative,
    /// An absolute index into the data.
    DynAbsolute,
    /// A `u16` element count followed by that many elements.
    StaticLenPrefixArray,
    /// A UTF-16 string terminated by a zero unit.
    StaticUTF16String,
}

/// A field of an event: its name, type, location, offset and size.
pub struct EventField {
    /// The name of the field.
    pub name: String,
    /// The type of the field.
    pub field_type: String,
    /// How the location of the field is given.
    pub location: LocationType,
    /// The offset of the field in the event data.
    pub offset: usize,
    /// The size of the field in bytes.
    pub size: usize,
}

impl EventField {
    /// Constructs a new `EventField`.
    pub fn new(
        name: String,
        field_type: String,
        location: LocationType,
        offset: usize,
        size: usize,
    ) -> (r: Self)
        ensures
            r == (EventField { name, field_type, location, offset, size }),
    {
        EventField { name, field_type, location, offset, size }
    }
}

/// `a` and `b` describe the same field.
pub open spec fn same_field(a: EventField, b: EventField) -> bool {
    a.name@ == b.name@ && a.field_type@ == b.field_type@ && a.location == b.location && a.offset
        == b.offset && a.size == b.size
}

impl Clone for EventField {
    fn clone(&self) -> (r: Self)
        ensures
            r == *self,
    {
        EventField {
            name: self.name.clone(),
            field_type: self.field_type.clone(),
            location: self.location,
            offset: self.offset,
            size: self.size,
        }
    }
}

impl PartialEq for EventField {
    fn eq(&self, other: &Self) -> (r: bool) {
        self.name == other.name && self.field_type == other.field_type && self.location
            == other.location && self.offset == other.offset && self.size == other.size
    }
}

impl vstd::std_specs::cmp::PartialEqSpecImpl for EventField {
    open spec fn obeys_eq_spec() -> bool {
        true
    }

    open spec fn eq_spec(&self, other: &Self) -> bool {
        same_field(*self, *other)
    }
}

/// A reference to a field of an [`EventFormat`] by its position.
#[derive(Clone, Copy)]
pub struct EventFieldRef(usize);

impl EventFieldRef {
    /// The position of the field.
    pub closed spec fn index(self) -> usize {
        self.0
    }
}

impl From<EventFieldRef> for usize {
    fn from(val: EventFieldRef) -> (r: usize) {
        val.0
    }
}

impl vstd::std_specs::convert::FromSpecImpl<EventFieldRef> for usize {
    open spec fn obeys_from_spec() -> bool {
        true
    }

    closed spec fn from_spec(v: EventFieldRef) -> usize {
        v.0
    }
}

/// Errors when reading a field from event data.
#[derive(Debug, PartialEq, Eq, Structural, Clone, Copy)]
pub enum EventError {
    /// The data is too short for the field.
    NotEnoughData,
    /// The field reference is past the last field.
    InvalidFieldRef,
    /// A relative location field must be 4 bytes.
    FieldSizeMustBe4,
    /// The field data is not valid UTF-8.
    InvalidUtf8,
}

/// The fields of an event, in order.
pub struct EventFormat {
    fields: Vec<EventField>,
}

impl View for EventFormat {
    type V = Seq<EventField>;

    closed spec fn view(&self) -> Seq<EventField> {
        self.fields@
    }
}

impl Clone for EventFormat {
    fn clone(&self) -> (r: Self)
        ensures
            r@ == self@,
    {
        let fields = self.fields.clone();
        assert(fields@ =~= self.fields@);
        EventFormat { fields }
    }
}

impl PartialEq for EventFormat {
    fn eq(&self, other: &Self) -> (r: bool) {
        if self.fields.len() != other.fields.len() {
            return false;
        }
        let mut i: usize = 0;
        while i < self.fields.len()
            invariant
                i <= self.fields@.len(),
                self.fields@.len() == other.fields@.len(),
                forall|j: int| 0 <= j < i ==> same_field(self.fields@[j], other.fields@[j]),
            decreases self.fields@.len() - i,
        {
            if !(self.fields[i] == other.fields[i]) {
                return false;
            }
            i += 1;
        }
        true
    }
}

impl vstd::std_specs::cmp::PartialEqSpecImpl for EventFormat {
    open spec fn obeys_eq_spec() -> bool {
        true
    }

    open spec fn eq_spec(&self, other: &Self) -> bool {
        self@.len() == other@.len() && forall|j: int|
            0 <= j < self@.len() ==> same_field(self@[j], other@[j])
    }
}

impl Default for EventFormat {
    fn default() -> (r: Self)
        ensures
            r@ == Seq::<EventField>::empty(),
    {
        EventFormat::new()
    }
}

/// The value of `r` when it is `Ok`, as `Result::ok` gives it.
pub open spec fn ok_of<T>(r: Result<T, EventError>) -> Option<T> {
    match r {
        Ok(v) => Some(v),
        Err(_) => None,
    }
}

/// Index of the first field named `name`.
pub open spec fn find_named(fields: Seq<EventField>, name: Seq<char>) -> Option<nat>
    decreases fields.len(),
{
    if fields.len() == 0 {
        None
    } else if fields[0].name@ == name {
        Some(0)
    } else {
        match find_named(fields.drop_first(), name) {
            Some(i) => Some(i + 1),
            None => None,
        }
    }
}

pub proof fn lemma_find_named(fields: Seq<EventField>, name: Seq<char>)
    ensures
        find_named(fields, name) matches Some(i) ==> {
            &&& i < fields.len()
            &&& fields[i as int].name@ == name
            &&& forall|j: int| 0 <= j < i ==> #[trigger] fields[j].name@ != name
        },
        find_named(fields, name) is None ==> forall|j: int|
            0 <= j < fields.len() ==> #[trigger] fields[j].name@ != name,
    decreases fields.len(),
{
    if fields.len() > 0 {
        lemma_find_named(fields.drop_first(), name);
        assert forall|j: int| 1 <= j < fields.len() implies #[trigger] fields[j].name@
            == fields.drop_first()[j - 1].name@ by {}
    }
}

pub proof fn lemma_find_named_at(fields: Seq<EventField>, name: Seq<char>, i: int)
    requires
        0 <= i <= fields.len(),
        forall|j: int| 0 <= j < i ==> #[trigger] fields[j].name@ != name,
        i < fields.len() ==> fields[i].name@ == name,
    ensures
        find_named(fields, name) == (if i < fields.len() {
            Some(i as nat)
        } else {
            None::<nat>
        }),
    decreases i,
{
    if i > 0 {
        assert forall|j: int| 0 <= j < i - 1 implies #[trigger] fields.drop_first()[j].name@
            != name by {
            assert(fields.drop_first()[j] == fields[j + 1]);
        }
        lemma_find_named_at(fields.drop_first(), name, i - 1);
    }
}

/// Locating the field named `name` adds up the sizes of the fields before
/// it without overflow: each running offset computed before the search
/// stops fits in `usize`.
pub open spec fn offsets_fit(fields: Seq<EventField>, name: Seq<char>) -> bool {
    let bound = match find_named(fields, name) {
        Some(k) => k,
        None => fields.len(),
    };
    forall|i: int|
        0 <= i < bound && #[trigger] plan_skips(fields.take(i + 1)) is Some ==> sum_sizes(
            fields.take(i + 1),
        ) <= usize::MAX
}

/// Sum of the sizes of `fields`.
pub open spec fn sum_sizes(fields: Seq<EventField>) -> nat
    decreases fields.len(),
{
    if fields.len() == 0 {
        0
    } else {
        sum_sizes(fields.drop_last()) + fields.last().size as nat
    }
}

/// Size in bytes of one element of the scalar type named `w`.
pub open spec fn scalar_size_of(w: Seq<char>) -> Option<u16> {
    if w == "u8"@ || w == "s8"@ || w == "char"@ {
        Some(1)
    } else if w == "u16"@ || w == "s16"@ || w == "short"@ {
        Some(2)
    } else if w == "u32"@ || w == "s32"@ || w == "int"@ {
        Some(4)
    } else if w == "u64"@ || w == "s64"@ || w == "long"@ {
        Some(8)
    } else {
        None
    }
}

/// Element size for a type name: its whitespace tokens, less a leading
/// `__dyn_array`, name a scalar type, where `unsigned` defers to the token
/// after it.
pub open spec fn element_size_of(field_type: Seq<char>) -> Option<u16> {
    let t = tokens(field_type);
    let fi: int = if t.len() > 0 && t[0] == "__dyn_array"@ {
        1
    } else {
        0
    };
    if fi >= t.len() {
        None
    } else {
        let w = if t[fi] == "unsigned"@ {
            if fi + 1 < t.len() {
                t[fi + 1]
            } else {
                Seq::empty()
            }
        } else {
            t[fi]
        };
        scalar_size_of(w)
    }
}

fn scalar_size(w: &Vec<char>) -> (r: Option<u16>)
    ensures
        r == scalar_size_of(w@),
{
    if chars_eq_str(w, "u8") || chars_eq_str(w, "s8") || chars_eq_str(w, "char") {
        Some(1)
    } else if chars_eq_str(w, "u16") || chars_eq_str(w, "s16") || chars_eq_str(w, "short") {
        Some(2)
    } else if chars_eq_str(w, "u32") || chars_eq_str(w, "s32") || chars_eq_str(w, "int") {
        Some(4)
    } else if chars_eq_str(w, "u64") || chars_eq_str(w, "s64") || chars_eq_str(w, "long") {
        Some(8)
    } else {
        None
    }
}

/// A dynamically sized field that lies before the field being read and
/// must be stepped over.
#[derive(Clone, Copy)]
pub struct FieldSkip {
    /// How the skipped field is laid out.
    pub loc_type: LocationType,
    /// Offset of the skipped field, not counting earlier dynamic fields.
    pub offset: usize,
    /// Element size of a length-prefixed skipped field.
    pub size: Option<u16>,
}

/// Number of bytes a skipped field occupies at the start of `rest`, or
/// `None` when it cannot be stepped over.
pub open spec fn skip_span(skip: FieldSkip, rest: Seq<u8>) -> Option<nat> {
    match skip.loc_type {
        LocationType::StaticString => Some(
            if nul_len(rest) < rest.len() {
                nul_len(rest) + 1
            } else {
                rest.len()
            },
        ),
        LocationType::StaticUTF16String => Some(
            if nul16_len(rest) + 2 <= rest.len() {
                nul16_len(rest) + 2
            } else {
                nul16_len(rest)
            },
        ),
        LocationType::StaticLenPrefixArray => if rest.len() < 2 {
            None
        } else {
            let elem: nat = match skip.size {
                Some(e) => e as nat,
                None => 0,
            };
            Some(2 + elem * ne_uint(rest.take(2)))
        },
        _ => None,
    }
}

/// Total bytes stepped over by `skips`, or `None` when the walk leaves the
/// data or meets a field it cannot step over.
pub open spec fn skip_walk(skips: Seq<FieldSkip>, data: Seq<u8>) -> Option<nat>
    decreases skips.len(),
{
    if skips.len() == 0 {
        Some(0)
    } else {
        match skip_walk(skips.drop_last(), data) {
            None => None,
            Some(so) => {
                let start = so + skips.last().offset;
                if start > data.len() {
                    None
                } else {
                    match skip_span(skips.last(), data.skip(start as int)) {
                        None => None,
                        Some(n) => Some(so + n),
                    }
                }
            },
        }
    }
}

/// The walk over `skips` stays within `usize` throughout.
pub open spec fn skip_walk_fits(skips: Seq<FieldSkip>, data: Seq<u8>) -> bool
    decreases skips.len(),
{
    if skips.len() == 0 {
        true
    } else {
        &&& skip_walk_fits(skips.drop_last(), data)
        &&& match skip_walk(skips.drop_last(), data) {
            None => true,
            Some(so) => {
                let start = so + skips.last().offset;
                &&& start <= usize::MAX
                &&& start <= data.len() ==> match skip_span(
                    skips.last(),
                    data.skip(start as int),
                ) {
                    None => true,
                    Some(n) => so + n <= usize::MAX,
                }
            },
        }
    }
}

/// The bytes a field of `size`, laid out as `loc` at `offset`, occupies in
/// `data`; empty when it does not fit.
pub open spec fn direct_slice(size: nat, loc: LocationType, offset: nat, data: Seq<u8>) -> Seq<
    u8,
> {
    match loc {
        LocationType::Static => if offset + size > data.len() {
            Seq::empty()
        } else {
            data.subrange(offset as int, (offset + size) as int)
        },
        LocationType::StaticString => if offset > data.len() {
            Seq::empty()
        } else {
            data.subrange(offset as int, (offset + nul_len(data.skip(offset as int))) as int)
        },
        LocationType::StaticUTF16String => if offset > data.len() {
            Seq::empty()
        } else {
            data.subrange(offset as int, (offset + nul16_len(data.skip(offset as int))) as int)
        },
        LocationType::StaticLenPrefixArray => if offset > data.len() || data.len() - offset <= 2 {
            Seq::empty()
        } else {
            data.subrange(
                offset + 2int,
                offset + 2int + ne_uint(data.subrange(offset as int, offset + 2int)) * size,
            )
        },
        _ => Seq::empty(),
    }
}

/// Reading a field of `size`, laid out as `loc` at `offset`, neither
/// overflows nor reads past `data`.
pub open spec fn direct_defined(size: nat, loc: LocationType, offset: nat, data: Seq<u8>) -> bool {
    match loc {
        LocationType::Static => offset + size <= usize::MAX,
        LocationType::StaticString => true,
        LocationType::StaticUTF16String => true,
        LocationType::StaticLenPrefixArray => offset > data.len() || data.len() - offset <= 2
            || offset + 2 + ne_uint(data.subrange(offset as int, offset + 2int)) * size
            <= data.len(),
        _ => false,
    }
}

/// Reads the field data of a field whose location no longer depends on
/// earlier fields.
pub struct FieldDataAccessor {
    /// Offset of the field, not counting the dynamic fields stepped over.
    pub offset: usize,
    /// Size of the field, or of one element of a length-prefixed field.
    pub size: usize,
    /// How the field is laid out.
    pub location: LocationType,
    /// The dynamic fields before this one, in order.
    pub skips: Vec<FieldSkip>,
}

impl FieldDataAccessor {
    /// Reading with this accessor neither overflows nor reads past `data`.
    pub open spec fn get_defined(&self, data: Seq<u8>) -> bool {
        &&& skip_walk_fits(self.skips@, data)
        &&& match skip_walk(self.skips@, data) {
            None => true,
            Some(so) => self.offset + so <= usize::MAX && direct_defined(
                self.size as nat,
                self.location,
                (self.offset + so) as nat,
                data,
            ),
        }
    }

    /// The field data that this accessor finds in `data`.
    pub open spec fn spec_get(&self, data: Seq<u8>) -> Seq<u8> {
        match skip_walk(self.skips@, data) {
            None => Seq::empty(),
            Some(so) => direct_slice(
                self.size as nat,
                self.location,
                (self.offset + so) as nat,
                data,
            ),
        }
    }

    /// Returns the field data in `data`.
    pub fn get<'a>(&self, data: &'a [u8]) -> (r: &'a [u8])
        requires
            self.get_defined(data@),
        ensures
            r@ == self.spec_get(data@),
    {
        EventFormat::get_field_data_closure(
            self.offset,
            self.size,
            self.location,
            &self.skips,
            data,
        )
    }

    /// Whether reading with this accessor neither overflows nor reads past
    /// `data`; see [`FieldDataAccessor::get_defined`].
    pub fn is_defined(&self, data: &[u8]) -> (r: bool)
        ensures
            r == self.get_defined(data@),
    {
        let n = self.skips.len();
        let len = data.len();
        let mut so: usize = 0;
        let mut i: usize = 0;
        assert(self.skips@.take(0) =~= Seq::<FieldSkip>::empty());
        while i < n
            invariant
                n == self.skips@.len(),
                i <= n,
                len == data@.len(),
                skip_walk_fits(self.skips@.take(i as int), data@),
                skip_walk(self.skips@.take(i as int), data@) == Some(so as nat),
            decreases n - i,
        {
            let ghost t = self.skips@.take(i + 1);
            proof {
                assert(t.drop_last() =~= self.skips@.take(i as int));
                assert(t.last() == self.skips@[i as int]);
            }
            let skip = self.skips[i];
            let start_wide: u128 = so as u128 + skip.offset as u128;
            if start_wide > usize::MAX as u128 {
                proof {
                    if skip_walk_fits(self.skips@, data@) {
                        lemma_walk_prefix(self.skips@, data@, i + 1);
                    }
                }
                return false;
            }
            let start = start_wide as usize;
            if start > len {
                proof {
                    lemma_fits_after_none(self.skips@, data@, i + 1);
                    lemma_walk_none_extends(self.skips@, data@, i + 1);
                }
                return true;
            }
            let rest = &data[start..len];
            assert(rest@ =~= data@.skip(start as int));
            let span: Option<u128> = match skip.loc_type {
                LocationType::StaticString => {
                    let k = find_nul(rest);
                    proof {
                        lemma_nul_len_bounds(rest@);
                    }
                    if k < rest.len() {
                        Some(k as u128 + 1)
                    } else {
                        Some(k as u128)
                    }
                },
                LocationType::StaticUTF16String => {
                    let k = find_nul16(rest);
                    proof {
                        lemma_nul16_len_bounds(rest@);
                    }
                    if rest.len() - k >= 2 {
                        Some(k as u128 + 2)
                    } else {
                        Some(k as u128)
                    }
                },
                LocationType::StaticLenPrefixArray => {
                    if rest.len() < 2 {
                        None
                    } else {
                        let l = read_ne_u16(rest, 0);
                        assert(rest@.subrange(0, 2) =~= rest@.take(2));
                        let e: u128 = match skip.size {
                            Some(e) => e as u128,
                            None => 0,
                        };
                        assert(e * (l as u128) <= 0xFFFF * 0xFFFF) by (nonlinear_arith)
                            requires
                                e <= 0xFFFF,
                                l <= 0xFFFF,
                        ;
                        Some(2 + e * (l as u128))
                    }
                },
                _ => None,
            };
            match span {
                None => {
                    proof {
                        lemma_fits_after_none(self.skips@, data@, i + 1);
                        lemma_walk_none_extends(self.skips@, data@, i + 1);
                    }
                    return true;
                },
                Some(m) => {
                    if so as u128 + m > usize::MAX as u128 {
                        proof {
                            if skip_walk_fits(self.skips@, data@) {
                                lemma_walk_prefix(self.skips@, data@, i + 1);
                            }
                        }
                        return false;
                    }
                    so = (so as u128 + m) as usize;
                },
            }
            i += 1;
        }
        assert(self.skips@.take(n as int) =~= self.skips@);
        if self.offset as u128 + so as u128 > usize::MAX as u128 {
            return false;
        }
        let off = self.offset + so;
        match self.location {
            LocationType::Static => self.offset as u128 + so as u128 + self.size as u128
                <= usize::MAX as u128,
            LocationType::StaticString => true,
            LocationType::StaticUTF16String => true,
            LocationType::StaticLenPrefixArray => {
                if off > len || len - off <= 2 {
                    true
                } else {
                    let l = read_ne_u16(data, off);
                    let size = self.size;
                    assert((l as u128) * (size as u128) <= 0xFFFF * 0xFFFF_FFFF_FFFF_FFFF)
                        by (nonlinear_arith)
                        requires
                            l <= 0xFFFF,
                            size <= 0xFFFF_FFFF_FFFF_FFFF,
                    ;
                    off as u128 + 2 + (l as u128) * (size as u128) <= len as u128
                }
            },
            _ => false,
        }
    }
}

/// A walk that has stopped early stays within `usize` from there on.
proof fn lemma_fits_after_none(skips: Seq<FieldSkip>, data: Seq<u8>, i: int)
    requires
        0 <= i <= skips.len(),
        skip_walk(skips.take(i), data) is None,
        skip_walk_fits(skips.take(i), data),
    ensures
        skip_walk_fits(skips, data),
    decreases skips.len() - i,
{
    if i < skips.len() {
        assert(skips.take(i + 1).drop_last() =~= skips.take(i));
        lemma_fits_after_none(skips, data, i + 1);
    } else {
        assert(skips.take(i) =~= skips);
    }
}

impl EventFormat {
    /// Creates a format with no fields.
    pub fn new() -> (r: Self)
        ensures
            r@ == Seq::<EventField>::empty(),
    {
        EventFormat { fields: Vec::new() }
    }

    /// Adds a field after the existing ones.
    pub fn add_field(&mut self, field: EventField)
        ensures
            final(self)@ == old(self)@.push(field),
    {
        self.fields.push(field);
    }

    /// The fields, in order.
    pub fn fields(&self) -> (r: &[EventField])
        ensures
            r@ == self@,
    {
        self.fields.as_slice()
    }

    /// The first field named `name`, if any.
    pub fn get_field(&self, name: &str) -> (r: Option<&EventField>)
        ensures
            match find_named(self@, name@) {
                Some(i) => r == Some(&self@[i as int]),
                None => r is None,
            },
    {
        if let Some(field_ref) = self.get_field_ref(name) {
            proof {
                lemma_find_named(self@, name@);
            }
            Some(self.get_field_unchecked(field_ref))
        } else {
            None
        }
    }

    /// The field that `field` refers to.
    pub fn get_field_unchecked(&self, field: EventFieldRef) -> (r: &EventField)
        requires
            field.index() < self@.len(),
        ensures
            *r == self@[field.index() as int],
    {
        &self.fields[usize::from(field)]
    }

    /// The reference to the first field named `name`, which must exist.
    pub fn get_field_ref_unchecked(&self, name: &str) -> (r: EventFieldRef)
        requires
            find_named(self@, name@) is Some,
        ensures
            r.index() == find_named(self@, name@)->0,
    {
        self.get_field_ref(name).unwrap()
    }

    /// The reference to the first field named `name`, if any.
    pub fn get_field_ref(&self, name: &str) -> (r: Option<EventFieldRef>)
        ensures
            match find_named(self@, name@) {
                Some(i) => r matches Some(fr) && fr.index() == i,
                None => r is None,
            },
    {
        let mut i: usize = 0;
        while i < self.fields.len()
            invariant
                i <= self.fields@.len(),
                forall|j: int| 0 <= j < i ==> #[trigger] self.fields@[j].name@ != name@,
            decreases self.fields@.len() - i,
        {
            if str_eq(self.fields[i].name.as_str(), name) {
                proof {
                    lemma_find_named_at(self.fields@, name@, i as int);
                }
                return Some(EventFieldRef(i));
            }
            i += 1;
        }
        proof {
            lemma_find_named_at(self.fields@, name@, i as int);
        }
        None
    }

    /// Size in bytes of one element of the type named `field_type`.
    pub fn try_get_element_size(field_type: &str) -> (r: Option<u16>)
        ensures
            r == element_size_of(field_type@),
    {
        let toks = split_tokens(field_type);
        let ghost t = tokens(field_type@);
        let n = toks.len();
        proof {
            assert(n == t.len());
            assert forall|j: int| 0 <= j < n implies toks@[j]@ == #[trigger] t[j] by {}
        }
        if n == 0 {
            return None;
        }
        let mut fi: usize = 0;
        if chars_eq_str(&toks[0], "__dyn_array") {
            if n < 2 {
                return None;
            }
            fi = 1;
        }
        if chars_eq_str(&toks[fi], "unsigned") {
            if fi + 1 < n {
                scalar_size(&toks[fi + 1])
            } else {
                let none: Vec<char> = Vec::new();
                assert(none@ =~= Seq::<char>::empty());
                scalar_size(&none)
            }
        } else {
            scalar_size(&toks[fi])
        }
    }

    /// An accessor for the data of the first field named `field_name`, when
    /// its place in the data can be determined.
    pub fn try_get_field_data_closure(&self, field_name: &str) -> (r: Option<FieldDataAccessor>)
        requires
            offsets_fit(self@, field_name@),
        ensures
            match field_access(self@, field_name@) {
                None => r is None,
                Some(p) => r matches Some(a) && a.offset == p.0 && a.size == p.1 && a.location
                    == p.2 && a.skips@ == p.3,
            },
    {
        let mut offset: usize = 0;
        let mut skips: Vec<FieldSkip> = Vec::new();
        let n = self.fields.len();
        let mut i: usize = 0;
        assert(self.fields@.take(0) =~= Seq::<EventField>::empty());
        while i < n
            invariant
                n == self.fields@.len(),
                i <= n,
                offsets_fit(self.fields@, field_name@),
                offset == sum_sizes(self.fields@.take(i as int)),
                plan_skips(self.fields@.take(i as int)) == Some(skips@),
                forall|j: int| 0 <= j < i ==> #[trigger] self.fields@[j].name@ != field_name@,
            decreases n - i,
        {
            let field = &self.fields[i];
            proof {
                assert(self.fields@.take(i + 1).drop_last() =~= self.fields@.take(i as int));
                assert(self.fields@.take(i + 1).last() == self.fields@[i as int]);
            }
            if str_eq(field.name.as_str(), field_name) {
                proof {
                    lemma_find_named_at(self.fields@, field_name@, i as int);
                }
                let mut size = field.size;
                let location = field.location;
                if size == 0 && location == LocationType::StaticLenPrefixArray {
                    let element_size = Self::try_get_element_size(field.field_type.as_str());
                    match element_size {
                        None => {
                            return None;
                        },
                        Some(e) => {
                            size = e as usize;
                        },
                    }
                }
                if skips.len() == 0 {
                    return Some(
                        FieldDataAccessor { offset: field.offset, size, location, skips },
                    );
                } else {
                    return Some(FieldDataAccessor { offset, size, location, skips });
                }
            }
            if field.size == 0 {
                if field.location == LocationType::StaticString || field.location
                    == LocationType::StaticUTF16String {
                    skips.push(FieldSkip { loc_type: field.location, offset, size: None });
                } else if field.location == LocationType::StaticLenPrefixArray {
                    let element_size = Self::try_get_element_size(field.field_type.as_str());
                    match element_size {
                        None => {
                            proof {
                                lemma_find_named(self.fields@, field_name@);
                                if let Some(k) = find_named(self.fields@, field_name@) {
                                    lemma_plan_none_extends(
                                        self.fields@,
                                        i as int + 1,
                                        k as int,
                                    );
                                }
                            }
                            return None;
                        },
                        Some(e) => {
                            skips.push(FieldSkip { loc_type: field.location, offset, size: Some(e) });
                        },
                    }
                } else {
                    proof {
                        lemma_find_named(self.fields@, field_name@);
                        if let Some(k) = find_named(self.fields@, field_name@) {
                            lemma_plan_none_extends(self.fields@, i as int + 1, k as int);
                        }
                    }
                    return None;
                }
            }
            proof {
                lemma_find_named(self.fields@, field_name@);
                assert(self.fields@.take(i + 1).drop_last() =~= self.fields@.take(i as int));
                assert(plan_skips(self.fields@.take(i + 1)) is Some);
                if let Some(k) = find_named(self.fields@, field_name@) {
                    assert(k > i) by {
                        if k <= i {
                            assert(self.fields@[k as int].name@ != field_name@);
                        }
                    }
                }
            }
            offset = offset + field.size;
            i += 1;
        }
        proof {
            lemma_find_named_at(self.fields@, field_name@, i as int);
        }
        None
    }

    /// The bytes of the field `field_ref` refers to, read `offset` bytes
    /// further on than its own offset; empty past the last field.
    pub open spec fn spec_data_with_offset(
        &self,
        field_ref: EventFieldRef,
        data: Seq<u8>,
        offset: nat,
    ) -> Seq<u8> {
        if field_ref.index() >= self@.len() {
            Seq::empty()
        } else {
            let f = self@[field_ref.index() as int];
            direct_slice(f.size as nat, f.location, (f.offset + offset) as nat, data)
        }
    }

    /// The field `field_ref` refers to as a `u64` in native byte order, from
    /// its first 8 bytes; `NotEnoughData` when it is shorter.
    pub open spec fn field_u64(&self, field_ref: EventFieldRef, data: Seq<u8>) -> Result<u64, EventError> {
        let s = self.spec_data_with_offset(field_ref, data, 0);
        if s.len() < 8 {
            Err(EventError::NotEnoughData)
        } else {
            Ok(ne_uint(s.take(8)) as u64)
        }
    }

    /// The field as a `u32` from its first 4 bytes; `NotEnoughData` when it
    /// is shorter.
    pub open spec fn field_u32(&self, field_ref: EventFieldRef, data: Seq<u8>) -> Result<u32, EventError> {
        let s = self.spec_data_with_offset(field_ref, data, 0);
        if s.len() < 4 {
            Err(EventError::NotEnoughData)
        } else {
            Ok(ne_uint(s.take(4)) as u32)
        }
    }

    /// The field as a `u16` from its first 2 bytes; `NotEnoughData` when it
    /// is shorter.
    pub open spec fn field_u16(&self, field_ref: EventFieldRef, data: Seq<u8>) -> Result<u16, EventError> {
        let s = self.spec_data_with_offset(field_ref, data, 0);
        if s.len() < 2 {
            Err(EventError::NotEnoughData)
        } else {
            Ok(ne_uint(s.take(2)) as u16)
        }
    }

    /// The first byte of the field; `NotEnoughData` when it is empty.
    pub open spec fn field_u8(&self, field_ref: EventFieldRef, data: Seq<u8>) -> Result<u8, EventError> {
        let s = self.spec_data_with_offset(field_ref, data, 0);
        if s.len() == 0 {
            Err(EventError::NotEnoughData)
        } else {
            Ok(s[0])
        }
    }

    /// The field as UTF-8 text: empty text for an empty field,
    /// `InvalidUtf8` when it is not valid UTF-8.
    pub open spec fn field_str(&self, field_ref: EventFieldRef, data: Seq<u8>) -> Result<Seq<char>, EventError> {
        let s = self.spec_data_with_offset(field_ref, data, 0);
        if s.len() == 0 {
            Ok(Seq::empty())
        } else if valid_utf8(s) {
            Ok(decode_utf8(s))
        } else {
            Err(EventError::InvalidUtf8)
        }
    }

    /// Reading `field_ref` at `offset` neither overflows nor reads past
    /// `data`.
    pub open spec fn data_defined(&self, field_ref: EventFieldRef, data: Seq<u8>, offset: nat) -> bool {
        field_ref.index() < self@.len() ==> {
            let f = self@[field_ref.index() as int];
            &&& f.offset + offset <= usize::MAX
            &&& direct_defined(f.size as nat, f.location, (f.offset + offset) as nat, data)
        }
    }

    /// The data of the field `field_ref` refers to, read `offset` bytes
    /// further on than its own offset.
    pub fn get_data_with_offset<'a>(
        &self,
        field_ref: EventFieldRef,
        data: &'a [u8],
        offset: usize,
    ) -> (r: &'a [u8])
        requires
            self.data_defined(field_ref, data@, offset as nat),
        ensures
            r@ == self.spec_data_with_offset(field_ref, data@, offset as nat),
    {
        let index: usize = field_ref.into();
        if index >= self.fields.len() {
            let empty: &'a [u8] = &data[0..0];
            assert(empty@ =~= Seq::<u8>::empty());
            return empty;
        }
        let field = &self.fields[index];
        let offset = field.offset + offset;
        Self::get_data_with_offset_direct(field.size, field.location, offset, data)
    }

    /// The data of the field `field_ref` refers to.
    pub fn get_data<'a>(&self, field_ref: EventFieldRef, data: &'a [u8]) -> (r: &'a [u8])
        requires
            self.data_defined(field_ref, data@, 0),
        ensures
            r@ == self.spec_data_with_offset(field_ref, data@, 0),
    {
        self.get_data_with_offset(field_ref, data, 0)
    }

    /// The range of the data that a 4-byte relative location field points
    /// to: the field holds the offset (low 16 bits) from its end and the
    /// length (high 16 bits).
    pub open spec fn spec_rel_loc(&self, field_ref: EventFieldRef, data: Seq<u8>) -> Result<
        (int, int),
        EventError,
    > {
        if field_ref.index() >= self@.len() {
            Err(EventError::InvalidFieldRef)
        } else {
            let f = self@[field_ref.index() as int];
            if f.size != 4 {
                Err(EventError::FieldSizeMustBe4)
            } else if data.len() < f.offset + 4 {
                Err(EventError::NotEnoughData)
            } else {
                let rel = ne_uint(data.subrange(f.offset as int, f.offset + 4int));
                let start = f.offset + 4 + rel % 0x10000;
                let end = start + rel / 0x10000;
                if data.len() < end {
                    Err(EventError::NotEnoughData)
                } else {
                    Ok((start, end))
                }
            }
        }
    }

    /// The range of the data that the relative location field `field_ref`
    /// points to.
    pub fn get_rel_loc(&self, field_ref: EventFieldRef, data: &[u8]) -> (r: Result<
        std::ops::Range<usize>,
        EventError,
    >)
        requires
            data@.len() <= isize::MAX,
            field_ref.index() < self@.len() && self@[field_ref.index() as int].size == 4
                ==> self@[field_ref.index() as int].offset + 4 <= usize::MAX,
        ensures
            match self.spec_rel_loc(field_ref, data@) {
                Ok((s, e)) => r matches Ok(range) && range.start == s && range.end == e,
                Err(err) => r == Err::<std::ops::Range<usize>, EventError>(err),
            },
    {
        let index: usize = field_ref.into();
        if index >= self.fields.len() {
            return Err(EventError::InvalidFieldRef);
        }
        let field = &self.fields[index];
        if field.size != 4 {
            return Err(EventError::FieldSizeMustBe4);
        }
        let start = field.offset;
        let end = start + 4;
        if data.len() < end {
            return Err(EventError::NotEnoughData);
        }
        let rel_loc = read_ne_u32(data, start);
        let start = end + (rel_loc % 0x10000) as usize;
        let length = (rel_loc / 0x10000) as usize;
        let end = start + length;
        if data.len() < end {
            return Err(EventError::NotEnoughData);
        }
        Ok(start..end)
    }

    /// The field `field_ref` refers to as a `u64` in native byte order, from
    /// its first 8 bytes.
    pub fn get_u64(&self, field_ref: EventFieldRef, data: &[u8]) -> (r: Result<u64, EventError>)
        requires
            self.data_defined(field_ref, data@, 0),
        ensures
            r == self.field_u64(field_ref, data@),
    {
        let slice = self.get_data(field_ref, data);
        if slice.len() < 8 {
            return Err(EventError::NotEnoughData);
        }
        let v = read_ne_u64(slice, 0);
        assert(slice@.subrange(0, 8) =~= slice@.take(8));
        Ok(v)
    }

    /// The field `field_ref` refers to as a `u64` in native byte order, from
    /// its first 8 bytes; `None` when it is shorter.
    pub fn try_get_u64(&self, field_ref: EventFieldRef, data: &[u8]) -> (r: Option<u64>)
        requires
            self.data_defined(field_ref, data@, 0),
        ensures
            r == ok_of(self.field_u64(field_ref, data@)),
    {
        let slice = self.get_data(field_ref, data);
        if slice.len() < 8 {
            return None;
        }
        let v = read_ne_u64(slice, 0);
        assert(slice@.subrange(0, 8) =~= slice@.take(8));
        Some(v)
    }

    /// The field `field_ref` refers to as a `u32` in native byte order, from
    /// its first 4 bytes.
    pub fn get_u32(&self, field_ref: EventFieldRef, data: &[u8]) -> (r: Result<u32, EventError>)
        requires
            self.data_defined(field_ref, data@, 0),
        ensures
            r == self.field_u32(field_ref, data@),
    {
        let slice = self.get_data(field_ref, data);
        if slice.len() < 4 {
            return Err(EventError::NotEnoughData);
        }
        let v = read_ne_u32(slice, 0);
        assert(slice@.subrange(0, 4) =~= slice@.take(4));
        Ok(v)
    }

    /// The field `field_ref` refers to as a `u32` in native byte order, from
    /// its first 4 bytes; `None` when it is shorter.
    pub fn try_get_u32(&self, field_ref: EventFieldRef, data: &[u8]) -> (r: Option<u32>)
        requires
            self.data_defined(field_ref, data@, 0),
        ensures
            r == ok_of(self.field_u32(field_ref, data@)),
    {
        let slice = self.get_data(field_ref, data);
        if slice.len() < 4 {
            return None;
        }
        let v = read_ne_u32(slice, 0);
        assert(slice@.subrange(0, 4) =~= slice@.take(4));
        Some(v)
    }

    /// The field `field_ref` refers to as a `u16` in native byte order, from
    /// its first 2 bytes.
    pub fn get_u16(&self, field_ref: EventFieldRef, data: &[u8]) -> (r: Result<u16, EventError>)
        requires
            self.data_defined(field_ref, data@, 0),
        ensures
            r == self.field_u16(field_ref, data@),
    {
        let slice = self.get_data(field_ref, data);
        if slice.len() < 2 {
            return Err(EventError::NotEnoughData);
        }
        let v = read_ne_u16(slice, 0);
        assert(slice@.subrange(0, 2) =~= slice@.take(2));
        Ok(v)
    }

    /// The field `field_ref` refers to as a `u16` in native byte order, from
    /// its first 2 bytes; `None` when it is shorter.
    pub fn try_get_u16(&self, field_ref: EventFieldRef, data: &[u8]) -> (r: Option<u16>)
        requires
            self.data_defined(field_ref, data@, 0),
        ensures
            r == ok_of(self.field_u16(field_ref, data@)),
    {
        let slice = self.get_data(field_ref, data);
        if slice.len() < 2 {
            return None;
        }
        let v = read_ne_u16(slice, 0);
        assert(slice@.subrange(0, 2) =~= slice@.take(2));
        Some(v)
    }

    /// The first byte of the field `field_ref` refers to.
    pub fn get_u8(&self, field_ref: EventFieldRef, data: &[u8]) -> (r: Result<u8, EventError>)
        requires
            self.data_defined(field_ref, data@, 0),
        ensures
            r == self.field_u8(field_ref, data@),
    {
        let slice = self.get_data(field_ref, data);
        if slice.len() == 0 {
            return Err(EventError::NotEnoughData);
        }
        Ok(slice[0])
    }

    /// The first byte of the field `field_ref` refers to; `None` when the
    /// field is empty.
    pub fn try_get_u8(&self, field_ref: EventFieldRef, data: &[u8]) -> (r: Option<u8>)
        requires
            self.data_defined(field_ref, data@, 0),
        ensures
            r == ok_of(self.field_u8(field_ref, data@)),
    {
        let slice = self.get_data(field_ref, data);
        if slice.len() == 0 {
            return None;
        }
        Some(slice[0])
    }

    /// The field `field_ref` refers to as UTF-8 text; empty text for an
    /// empty field.
    pub fn get_str<'a>(&self, field_ref: EventFieldRef, data: &'a [u8]) -> (r: Result<
        &'a str,
        EventError,
    >)
        requires
            self.data_defined(field_ref, data@, 0),
        ensures
            match r {
                Ok(t) => self.field_str(field_ref, data@) == Ok::<Seq<char>, EventError>(t@),
                Err(e) => self.field_str(field_ref, data@) == Err::<Seq<char>, EventError>(e),
            },
    {
        let slice = self.get_data(field_ref, data);
        if slice.len() == 0 {
            let e = "";
            proof {
                reveal_strlit("");
                assert(e@ =~= Seq::<char>::empty());
            }
            return Ok(e);
        }
        match utf8_str(slice) {
            Some(t) => Ok(t),
            None => Err(EventError::InvalidUtf8),
        }
    }

    /// The field `field_ref` refers to as UTF-8 text; empty text for an
    /// empty field, `None` when it is not valid UTF-8.
    pub fn try_get_str<'a>(&self, field_ref: EventFieldRef, data: &'a [u8]) -> (r: Option<&'a str>)
        requires
            self.data_defined(field_ref, data@, 0),
        ensures
            match r {
                Some(t) => ok_of(self.field_str(field_ref, data@)) == Some(t@),
                None => ok_of(self.field_str(field_ref, data@)) is None,
            },
    {
        let slice = self.get_data(field_ref, data);
        if slice.len() == 0 {
            let e = "";
            proof {
                reveal_strlit("");
                assert(e@ =~= Seq::<char>::empty());
            }
            return Some(e);
        }
        utf8_str(slice)
    }

    fn get_data_with_offset_direct<'a>(
        size: usize,
        loc_type: LocationType,
        offset: usize,
        data: &'a [u8],
    ) -> (r: &'a [u8])
        requires
            direct_defined(size as nat, loc_type, offset as nat, data@),
        ensures
            r@ == direct_slice(size as nat, loc_type, offset as nat, data@),
    {
        let empty: &'a [u8] = &data[0..0];
        assert(empty@ =~= Seq::<u8>::empty());
        match loc_type {
            LocationType::Static => {
                let end = offset + size;
                if end > data.len() {
                    return empty;
                }
                &data[offset..end]
            },
            LocationType::StaticString => {
                if offset > data.len() {
                    return empty;
                }
                let slice = &data[offset..data.len()];
                assert(slice@ =~= data@.skip(offset as int));
                let len = find_nul(slice);
                proof {
                    lemma_nul_len_bounds(slice@);
                }
                let r = &slice[0..len];
                assert(r@ =~= data@.subrange(offset as int, offset + len));
                r
            },
            LocationType::StaticUTF16String => {
                if offset > data.len() {
                    return empty;
                }
                let slice = &data[offset..data.len()];
                assert(slice@ =~= data@.skip(offset as int));
                let len = find_nul16(slice);
                proof {
                    lemma_nul16_len_bounds(slice@);
                }
                let r = &slice[0..len];
                assert(r@ =~= data@.subrange(offset as int, offset + len));
                r
            },
            LocationType::StaticLenPrefixArray => {
                if offset > data.len() {
                    return empty;
                }
                let slice = &data[offset..data.len()];
                if slice.len() <= 2 {
                    return empty;
                }
                let len = read_ne_u16(slice, 0);
                assert(slice@.subrange(0, 2) =~= data@.subrange(offset as int, offset + 2));
                let bytes = len as usize * size;
                let r = &slice[2..2 + bytes];
                assert(r@ =~= data@.subrange(offset + 2, offset + 2 + bytes));
                r
            },
            LocationType::DynRelative => { empty },
            LocationType::DynAbsolute => { empty },
        }
    }

    fn get_field_data_closure<'a>(
        offset: usize,
        size: usize,
        loc_type: LocationType,
        skips: &Vec<FieldSkip>,
        data: &'a [u8],
    ) -> (r: &'a [u8])
        requires
            ({
                let acc = FieldDataAccessor { offset, size, location: loc_type, skips: *skips };
                acc.get_defined(data@)
            }),
        ensures
            r@ == (FieldDataAccessor { offset, size, location: loc_type, skips: *skips }).spec_get(
                data@,
            ),
    {
        let empty: &'a [u8] = &data[0..0];
        assert(empty@ =~= Seq::<u8>::empty());
        let mut skip_offset: usize = 0;
        let mut i: usize = 0;
        let n = skips.len();
        assert(skips@.take(0) =~= Seq::<FieldSkip>::empty());
        while i < n
            invariant
                n == skips@.len(),
                i <= n,
                skip_walk_fits(skips@, data@),
                skip_walk(skips@.take(i as int), data@) == Some(skip_offset as nat),
                empty@ == Seq::<u8>::empty(),
            decreases n - i,
        {
            proof {
                lemma_walk_prefix(skips@, data@, i as int + 1);
                assert(skips@.take(i + 1).drop_last() =~= skips@.take(i as int));
                assert(skips@.take(i + 1).last() == skips@[i as int]);
            }
            let skip = skips[i];
            let start = skip_offset + skip.offset;
            if start > data.len() {
                proof {
                    lemma_walk_none_extends(skips@, data@, i as int + 1);
                }
                return empty;
            }
            let rest = &data[start..data.len()];
            assert(rest@ =~= data@.skip(start as int));
            match skip.loc_type {
                LocationType::StaticString => {
                    let k = find_nul(rest);
                    proof {
                        lemma_nul_len_bounds(rest@);
                    }
                    if k < rest.len() {
                        skip_offset = skip_offset + k + 1;
                    } else {
                        skip_offset = skip_offset + k;
                    }
                },
                LocationType::StaticUTF16String => {
                    let k = find_nul16(rest);
                    proof {
                        lemma_nul16_len_bounds(rest@);
                    }
                    if rest.len() - k >= 2 {
                        skip_offset = skip_offset + k + 2;
                    } else {
                        skip_offset = skip_offset + k;
                    }
                },
                LocationType::StaticLenPrefixArray => {
                    let element_size: usize = match skip.size {
                        Some(e) => e as usize,
                        None => 0,
                    };
                    if rest.len() < 2 {
                        proof {
                            lemma_walk_none_extends(skips@, data@, i as int + 1);
                        }
                        return empty;
                    }
                    let len = read_ne_u16(rest, 0);
                    assert(rest@.subrange(0, 2) =~= rest@.take(2));
                    proof {
                        assert(element_size * len <= 0xFFFF * 0xFFFF) by (nonlinear_arith)
                            requires
                                element_size <= 0xFFFF,
                                len <= 0xFFFF,
                        ;
                    }
                    skip_offset = skip_offset + 2;
                    skip_offset = skip_offset + element_size * len as usize;
                },
                _ => {
                    proof {
                        lemma_walk_none_extends(skips@, data@, i as int + 1);
                    }
                    return empty;
                },
            }
            i += 1;
        }
        assert(skips@.take(n as int) =~= skips@);
        Self::get_data_with_offset_direct(size, loc_type, offset + skip_offset, data)
    }
}

/// The skips that reading a field after `fields` steps over, or `None`
/// when one of `fields` has a size that cannot be known before reading.
pub open spec fn plan_skips(fields: Seq<EventField>) -> Option<Seq<FieldSkip>>
    decreases fields.len(),
{
    if fields.len() == 0 {
        Some(Seq::empty())
    } else {
        match plan_skips(fields.drop_last()) {
            None => None,
            Some(sk) => {
                let f = fields.last();
                let off = sum_sizes(fields.drop_last()) as usize;
                if f.size != 0 {
                    Some(sk)
                } else if f.location == LocationType::StaticString || f.location
                    == LocationType::StaticUTF16String {
                    Some(sk.push(FieldSkip { loc_type: f.location, offset: off, size: None }))
                } else if f.location == LocationType::StaticLenPrefixArray {
                    match element_size_of(f.field_type@) {
                        None => None,
                        Some(e) => Some(
                            sk.push(FieldSkip { loc_type: f.location, offset: off, size: Some(e) }),
                        ),
                    }
                } else {
                    None
                }
            },
        }
    }
}

/// How the data of the first field named `name` is read: its offset, size,
/// layout and the skips before it; `None` when no field has that name or
/// its place cannot be determined.
pub open spec fn field_access(fields: Seq<EventField>, name: Seq<char>) -> Option<
    (usize, usize, LocationType, Seq<FieldSkip>),
> {
    match find_named(fields, name) {
        None => None,
        Some(k) => match plan_skips(fields.take(k as int)) {
            None => None,
            Some(sk) => {
                let f = fields[k as int];
                let prefixed = f.size == 0 && f.location == LocationType::StaticLenPrefixArray;
                if prefixed && element_size_of(f.field_type@) is None {
                    None
                } else {
                    let size: usize = if prefixed {
                        element_size_of(f.field_type@)->0 as usize
                    } else {
                        f.size
                    };
                    let offset: usize = if sk.len() == 0 {
                        f.offset
                    } else {
                        sum_sizes(fields.take(k as int)) as usize
                    };
                    Some((offset, size, f.location, sk))
                }
            },
        },
    }
}

pub proof fn lemma_plan_none_extends(fields: Seq<EventField>, i: int, k: int)
    requires
        0 <= i <= k <= fields.len(),
        plan_skips(fields.take(i)) is None,
    ensures
        plan_skips(fields.take(k)) is None,
    decreases k - i,
{
    if i < k {
        assert(fields.take(i + 1).drop_last() =~= fields.take(i));
        lemma_plan_none_extends(fields, i + 1, k);
    }
}

/// The walk over a prefix of `skips` fits whenever the whole walk does, and
/// a prefix that stops early makes the whole walk stop.
pub proof fn lemma_walk_prefix(skips: Seq<FieldSkip>, data: Seq<u8>, i: int)
    requires
        0 <= i <= skips.len(),
        skip_walk_fits(skips, data),
    ensures
        skip_walk_fits(skips.take(i), data),
    decreases skips.len() - i,
{
    if i < skips.len() {
        assert(skips.take(i + 1).drop_last() =~= skips.take(i));
        lemma_walk_prefix(skips, data, i + 1);
    } else {
        assert(skips.take(i) =~= skips);
    }
}

pub proof fn lemma_walk_none_extends(skips: Seq<FieldSkip>, data: Seq<u8>, i: int)
    requires
        0 <= i <= skips.len(),
        skip_walk(skips.take(i), data) is None,
    ensures
        skip_walk(skips, data) is None,
    decreases skips.len() - i,
{
    if i < skips.len() {
        assert(skips.take(i + 1).drop_last() =~= skips.take(i));
        lemma_walk_none_extends(skips, data, i + 1);
    } else {
        assert(skips.take(i) =~= skips);
    }
}

/// Adding a field never changes which field an existing name finds, and a
/// name no field had before finds the new field when it carries that name.
pub proof fn lemma_add_field_lookup(fields: Seq<EventField>, f: EventField, name: Seq<char>)
    ensures
        find_named(fields.push(f), name) == match find_named(fields, name) {
            Some(i) => Some(i),
            None => if f.name@ == name {
                Some(fields.len())
            } else {
                None
            },
        },
{
    let all = fields.push(f);
    lemma_find_named(fields, name);
    match find_named(fields, name) {
        Some(i) => {
            assert forall|j: int| 0 <= j < i implies #[trigger] all[j].name@ != name by {
                assert(all[j] == fields[j]);
            }
            assert(all[i as int] == fields[i as int]);
            lemma_find_named_at(all, name, i as int);
        },
        None => {
            assert forall|j: int| 0 <= j < fields.len() implies #[trigger] all[j].name@ != name by {
                assert(all[j] == fields[j]);
            }
            if f.name@ == name {
                lemma_find_named_at(all, name, fields.len() as int);
            } else {
                assert forall|j: int| 0 <= j < all.len() implies #[trigger] all[j].name@ != name by {
                    if j < fields.len() {
                        assert(all[j] == fields[j]);
                    }
                }
                lemma_find_named_at(all, name, all.len() as int);
            }
        },
    }
}

/// Fields that all have a size leave nothing to step over.
pub proof fn lemma_sized_fields_plan(fields: Seq<EventField>)
    requires
        forall|j: int| 0 <= j < fields.len() ==> #[trigger] fields[j].size != 0,
    ensures
        plan_skips(fields) == Some(Seq::<FieldSkip>::empty()),
    decreases fields.len(),
{
    if fields.len() > 0 {
        let init = fields.drop_last();
        assert forall|j: int| 0 <= j < init.len() implies #[trigger] init[j].size != 0 by {
            assert(init[j] == fields[j]);
        }
        lemma_sized_fields_plan(init);
        assert(fields.last().size != 0);
    }
}

/// A `Static` field preceded only by fields that have a size is read at
/// its own offset: its accessor yields the `size` bytes there, whenever
/// they lie within the data.
pub proof fn lemma_static_field_data(fields: Seq<EventField>, name: Seq<char>, data: Seq<u8>)
    requires
        find_named(fields, name) is Some,
        fields[find_named(fields, name)->0 as int].location == LocationType::Static,
        forall|j: int| 0 <= j < find_named(fields, name)->0 ==> #[trigger] fields[j].size != 0,
        fields[find_named(fields, name)->0 as int].offset + fields[find_named(
            fields,
            name,
        )->0 as int].size <= data.len(),
    ensures
        ({
            let f = fields[find_named(fields, name)->0 as int];
            &&& field_access(fields, name) == Some(
                (f.offset, f.size, LocationType::Static, Seq::<FieldSkip>::empty()),
            )
            &&& forall|a: FieldDataAccessor|
                a.offset == f.offset && a.size == f.size && a.location == LocationType::Static
                    && a.skips@.len() == 0 ==> #[trigger] a.spec_get(data) == data.subrange(
                    f.offset as int,
                    f.offset + f.size,
                )
        }),
{
    let k = find_named(fields, name)->0;
    lemma_find_named(fields, name);
    let pre = fields.take(k as int);
    assert forall|j: int| 0 <= j < pre.len() implies #[trigger] pre[j].size != 0 by {
        assert(pre[j] == fields[j]);
    }
    lemma_sized_fields_plan(pre);
    assert forall|a: FieldDataAccessor|
        a.offset == fields[k as int].offset && a.size == fields[k as int].size && a.location
            == LocationType::Static && a.skips@.len() == 0 implies #[trigger] a.spec_get(data)
        == data.subrange(
        fields[k as int].offset as int,
        fields[k as int].offset + fields[k as int].size,
    ) by {
        assert(skip_walk(a.skips@, data) == Some(0nat));
    }
}

/// Field data is always one stretch of the event data, never reaching
/// past its end.
pub proof fn lemma_field_data_within(acc: FieldDataAccessor, data: Seq<u8>)
    requires
        acc.get_defined(data),
    ensures
        exists|a: int, b: int|
            0 <= a <= b <= data.len() && #[trigger] data.subrange(a, b) == acc.spec_get(data),
{
    match skip_walk(acc.skips@, data) {
        None => {
            assert(data.subrange(0, 0) =~= acc.spec_get(data));
        },
        Some(so) => {
            let off = (acc.offset + so) as nat;
            let size = acc.size as nat;
            let d = acc.spec_get(data);
            match acc.location {
                LocationType::Static => {
                    if off + size > data.len() {
                        assert(data.subrange(0, 0) =~= d);
                    } else {
                        assert(data.subrange(off as int, (off + size) as int) == d);
                    }
                },
                LocationType::StaticString => {
                    if off > data.len() {
                        assert(data.subrange(0, 0) =~= d);
                    } else {
                        lemma_nul_len_bounds(data.skip(off as int));
                        let e = off + nul_len(data.skip(off as int));
                        assert(data.subrange(off as int, e as int) == d);
                    }
                },
                LocationType::StaticUTF16String => {
                    if off > data.len() {
                        assert(data.subrange(0, 0) =~= d);
                    } else {
                        lemma_nul16_len_bounds(data.skip(off as int));
                        let e = off + nul16_len(data.skip(off as int));
                        assert(data.subrange(off as int, e as int) == d);
                    }
                },
                LocationType::StaticLenPrefixArray => {
                    if off > data.len() || data.len() - off <= 2 {
                        assert(data.subrange(0, 0) =~= d);
                    } else {
                        let e = off + 2 + ne_uint(data.subrange(off as int, off + 2int)) * size;
                        assert(data.subrange(off + 2int, e as int) == d);
                    }
                },
                _ => {
                    assert(data.subrange(0, 0) =~= d);
                },
            }
        },
    }
}

} // verus!
