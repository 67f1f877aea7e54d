//! Building an [`EventFormat`] from the `TRACE_EVENT_INFO` schema that TDH
//! returns for an event.
//!
//! The schema is read from its bytes. Each `EVENT_PROPERTY_INFO` becomes a
//! field: fixed-width scalars are `Static`, strings are
//! `StaticUTF16String` / `StaticString`, counted strings are
//! `StaticLenPrefixArray` of `u8`, and structs are flattened with
//! dot-separated names. Shapes the field model cannot express become
//! zero-length `object` placeholders.

use crate::bytes::{ne_uint, read_ne_u16, read_ne_u32};
use crate::event::format::{EventField, EventFormat, LocationType};
use crate::guid::Guid;
use crate::text::{decimal, push_char, push_signed_decimal, push_str, utf16_lossy, utf16_lossy_chars};
use vstd::prelude::*;
use vstd::string::StringExecFns;

verus! {

/// Size of `TRACE_EVENT_INFO`.
pub const TRACE_EVENT_INFO_SIZE: usize = 136;

/// Offset of `PropertyCount` in `TRACE_EVENT_INFO`.
pub const PROPERTY_COUNT_OFFSET: usize = 100;

/// Offset of `TopLevelPropertyCount` in `TRACE_EVENT_INFO`.
pub const TOP_LEVEL_PROPERTY_COUNT_OFFSET: usize = 104;

/// Offset of `EventPropertyInfoArray` in `TRACE_EVENT_INFO`.
pub const PROPERTY_ARRAY_OFFSET: usize = 112;

/// Size of `EVENT_PROPERTY_INFO`.
pub const PROPERTY_INFO_SIZE: usize = 24;

/// `PropertyStruct` flag: the property is a struct of other properties.
pub const PROPERTY_STRUCT: u32 = 1;

/// `PropertyParamLength` flag.
pub const PROPERTY_PARAM_LENGTH: u32 = 2;

/// `PropertyParamCount` flag.
pub const PROPERTY_PARAM_COUNT: u32 = 4;

/// `PropertyParamFixedCount` flag.
pub const PROPERTY_PARAM_FIXED_COUNT: u32 = 32;

pub const TDH_INTYPE_UNICODESTRING: i32 = 1;
pub const TDH_INTYPE_ANSISTRING: i32 = 2;
pub const TDH_INTYPE_INT8: i32 = 3;
pub const TDH_INTYPE_UINT8: i32 = 4;
pub const TDH_INTYPE_INT16: i32 = 5;
pub const TDH_INTYPE_UINT16: i32 = 6;
pub const TDH_INTYPE_INT32: i32 = 7;
pub const TDH_INTYPE_UINT32: i32 = 8;
pub const TDH_INTYPE_INT64: i32 = 9;
pub const TDH_INTYPE_UINT64: i32 = 10;
pub const TDH_INTYPE_FLOAT: i32 = 11;
pub const TDH_INTYPE_DOUBLE: i32 = 12;
pub const TDH_INTYPE_BOOLEAN: i32 = 13;
pub const TDH_INTYPE_GUID: i32 = 15;
pub const TDH_INTYPE_POINTER: i32 = 16;
pub const TDH_INTYPE_FILETIME: i32 = 17;
pub const TDH_INTYPE_SYSTEMTIME: i32 = 18;
pub const TDH_INTYPE_HEXINT32: i32 = 20;
pub const TDH_INTYPE_HEXINT64: i32 = 21;
pub const TDH_INTYPE_MANIFEST_COUNTEDSTRING: i32 = 22;
pub const TDH_INTYPE_MANIFEST_COUNTEDANSISTRING: i32 = 23;
pub const TDH_INTYPE_MANIFEST_COUNTEDBINARY: i32 = 25;
pub const TDH_INTYPE_COUNTEDSTRING: i32 = 300;
pub const TDH_INTYPE_COUNTEDANSISTRING: i32 = 301;
pub const TDH_INTYPE_UNICODECHAR: i32 = 306;
pub const TDH_INTYPE_ANSICHAR: i32 = 307;
pub const TDH_INTYPE_SIZET: i32 = 308;

/// `EVENT_HEADER.Flags` bit set for events of 32-bit processes, whose
/// pointers are 4 bytes wide.
pub const EVENT_HEADER_FLAG_32_BIT_HEADER: u16 = 32;

/// Errors from decoding an event through TDH.
#[derive(Debug, Clone, Copy)]
pub enum TdhDecodeError {
    /// No manifest or self-describing schema is registered for the event.
    NotFound,
    /// `TdhGetEventInformation` returned this Win32 status code.
    Win32(u32),
    /// The `TRACE_EVENT_INFO` buffer could not be parsed, for this reason.
    Malformed(&'static str),
}

impl TdhDecodeError {
    /// The text describing the error.
    pub open spec fn spec_message(self) -> Seq<char> {
        match self {
            TdhDecodeError::NotFound => "TDH schema not found for event"@,
            TdhDecodeError::Win32(code) => "TdhGetEventInformation failed with Win32 status "@
                + decimal(code as nat),
            TdhDecodeError::Malformed(reason) => "TRACE_EVENT_INFO buffer was malformed: "@
                + reason@,
        }
    }

    /// The text describing the error.
    pub fn message(&self) -> (r: String)
        ensures
            r@ == self.spec_message(),
    {
        let mut s = String::new();
        match self {
            TdhDecodeError::NotFound => {
                push_str(&mut s, "TDH schema not found for event");
            },
            TdhDecodeError::Win32(code) => {
                push_str(&mut s, "TdhGetEventInformation failed with Win32 status ");
                push_signed_decimal(&mut s, *code as i128);
            },
            TdhDecodeError::Malformed(reason) => {
                push_str(&mut s, "TRACE_EVENT_INFO buffer was malformed: ");
                push_str(&mut s, reason);
            },
        }
        s
    }
}

/// Win32 status: the call succeeded.
pub const ERROR_SUCCESS: u32 = 0;

/// Win32 status: the buffer passed was too small; the required size was
/// written back.
pub const ERROR_INSUFFICIENT_BUFFER: u32 = 122;

/// Win32 status: no schema is registered for the event.
pub const ERROR_NOT_FOUND: u32 = 1168;

/// What the answer to the size probe (a `TdhGetEventInformation` call with no
/// buffer) means: the size of the buffer to allocate, or why decoding stops.
pub open spec fn probe_outcome(status: u32, required: u32) -> Result<usize, TdhDecodeError> {
    if status != ERROR_INSUFFICIENT_BUFFER {
        if status == ERROR_NOT_FOUND {
            Err(TdhDecodeError::NotFound)
        } else {
            Err(TdhDecodeError::Win32(status))
        }
    } else if (required as usize) < TRACE_EVENT_INFO_SIZE {
        Err(TdhDecodeError::Malformed("buffer smaller than TRACE_EVENT_INFO"))
    } else {
        Ok(required as usize)
    }
}

/// Decides on the answer to the size probe: a probe is expected to report
/// `ERROR_INSUFFICIENT_BUFFER` with the size of a whole `TRACE_EVENT_INFO`
/// or more; `ERROR_NOT_FOUND` means the event has no schema, and any other
/// status is passed on.
pub fn schema_probe_outcome(status: u32, required: u32) -> (r: Result<usize, TdhDecodeError>)
    ensures
        r == probe_outcome(status, required),
        status != ERROR_INSUFFICIENT_BUFFER && status == ERROR_NOT_FOUND ==> r == Err::<
            usize,
            TdhDecodeError,
        >(TdhDecodeError::NotFound),
        status != ERROR_INSUFFICIENT_BUFFER && status != ERROR_NOT_FOUND ==> r == Err::<
            usize,
            TdhDecodeError,
        >(TdhDecodeError::Win32(status)),
        status == ERROR_INSUFFICIENT_BUFFER && required < TRACE_EVENT_INFO_SIZE ==> (r matches Err(
            TdhDecodeError::Malformed(m),
        ) && m@ == "buffer smaller than TRACE_EVENT_INFO"@),
        status == ERROR_INSUFFICIENT_BUFFER && required >= TRACE_EVENT_INFO_SIZE ==> r == Ok::<
            usize,
            TdhDecodeError,
        >(required as usize),
{
    if status != ERROR_INSUFFICIENT_BUFFER {
        if status == ERROR_NOT_FOUND {
            return Err(TdhDecodeError::NotFound);
        }
        return Err(TdhDecodeError::Win32(status));
    }
    if (required as usize) < TRACE_EVENT_INFO_SIZE {
        return Err(TdhDecodeError::Malformed("buffer smaller than TRACE_EVENT_INFO"));
    }
    Ok(required as usize)
}

/// Decides on the status of the call that fills the schema buffer: only
/// `ERROR_SUCCESS` lets decoding go on; any other status is passed on.
pub fn schema_fill_outcome(status: u32) -> (r: Result<(), TdhDecodeError>)
    ensures
        status == ERROR_SUCCESS <==> r is Ok,
        status != ERROR_SUCCESS ==> r == Err::<(), TdhDecodeError>(TdhDecodeError::Win32(status)),
{
    if status != ERROR_SUCCESS {
        return Err(TdhDecodeError::Win32(status));
    }
    Ok(())
}

/// What decoding reads of an event record's header.
#[derive(Clone, Copy)]
pub struct RecordHeader {
    pub provider: Guid,
    pub id: u16,
    pub version: u8,
    pub opcode: u8,
    pub channel: u8,
    pub keyword: u64,
    /// `EVENT_HEADER.Flags`.
    pub flags: u16,
}

/// Identifies the schema TDH returns for an event. The pointer size is
/// part of it because pointer-typed properties widen for 64-bit emitters.
#[derive(Clone, Copy, Debug, PartialEq, Eq, Hash)]
pub struct CacheKey {
    pub provider: Guid,
    pub id: u16,
    pub version: u8,
    pub opcode: u8,
    pub channel: u8,
    pub keyword: u64,
    pub pointer_size: u8,
}

/// Pointer width of the process that emitted an event with header flags
/// `flags`.
pub open spec fn pointer_size_of(flags: u16) -> u8 {
    if flags & EVENT_HEADER_FLAG_32_BIT_HEADER != 0 {
        4
    } else {
        8
    }
}

/// Pointer width, in bytes, of the process that emitted the event.
pub fn pointer_size_from_record(header: &RecordHeader) -> (r: u8)
    ensures
        r == pointer_size_of(header.flags),
{
    if header.flags & EVENT_HEADER_FLAG_32_BIT_HEADER != 0 {
        4
    } else {
        8
    }
}

/// The schema cache key of an event.
pub fn cache_key_from_record(header: &RecordHeader) -> (r: CacheKey)
    ensures
        r.provider == header.provider,
        r.id == header.id,
        r.version == header.version,
        r.opcode == header.opcode,
        r.channel == header.channel,
        r.keyword == header.keyword,
        r.pointer_size == pointer_size_of(header.flags),
{
    CacheKey {
        provider: header.provider,
        id: header.id,
        version: header.version,
        opcode: header.opcode,
        channel: header.channel,
        keyword: header.keyword,
        pointer_size: pointer_size_from_record(header),
    }
}

/// The field description a TDH `InType` maps to.
#[derive(Clone, Copy)]
pub struct TdhMapping {
    pub field_type: &'static str,
    pub size: usize,
    pub location: LocationType,
}

/// Type name, size and layout of the field for `InType` `t` when pointers
/// are `ps` bytes wide; `None` for types that cannot be represented.
pub open spec fn tdh_mapping(t: i32, ps: u8) -> Option<(Seq<char>, usize, LocationType)> {
    if t == TDH_INTYPE_UNICODESTRING {
        Some(("wstring"@, 0, LocationType::StaticUTF16String))
    } else if t == TDH_INTYPE_ANSISTRING {
        Some(("string"@, 0, LocationType::StaticString))
    } else if t == TDH_INTYPE_INT8 {
        Some(("s8"@, 1, LocationType::Static))
    } else if t == TDH_INTYPE_UINT8 || t == TDH_INTYPE_BOOLEAN || t == TDH_INTYPE_ANSICHAR {
        Some(("u8"@, 1, LocationType::Static))
    } else if t == TDH_INTYPE_INT16 {
        Some(("s16"@, 2, LocationType::Static))
    } else if t == TDH_INTYPE_UINT16 || t == TDH_INTYPE_UNICODECHAR {
        Some(("u16"@, 2, LocationType::Static))
    } else if t == TDH_INTYPE_INT32 {
        Some(("s32"@, 4, LocationType::Static))
    } else if t == TDH_INTYPE_UINT32 || t == TDH_INTYPE_HEXINT32 {
        Some(("u32"@, 4, LocationType::Static))
    } else if t == TDH_INTYPE_INT64 {
        Some(("s64"@, 8, LocationType::Static))
    } else if t == TDH_INTYPE_UINT64 || t == TDH_INTYPE_HEXINT64 || t == TDH_INTYPE_FILETIME {
        Some(("u64"@, 8, LocationType::Static))
    } else if t == TDH_INTYPE_FLOAT {
        Some(("u32"@, 4, LocationType::Static))
    } else if t == TDH_INTYPE_DOUBLE {
        Some(("u64"@, 8, LocationType::Static))
    } else if t == TDH_INTYPE_GUID || t == TDH_INTYPE_SYSTEMTIME {
        Some(("u8"@, 16, LocationType::Static))
    } else if t == TDH_INTYPE_POINTER || t == TDH_INTYPE_SIZET {
        if ps == 4 {
            Some(("u32"@, 4, LocationType::Static))
        } else {
            Some(("u64"@, 8, LocationType::Static))
        }
    } else if t == TDH_INTYPE_COUNTEDSTRING || t == TDH_INTYPE_COUNTEDANSISTRING || t
        == TDH_INTYPE_MANIFEST_COUNTEDSTRING || t == TDH_INTYPE_MANIFEST_COUNTEDANSISTRING || t
        == TDH_INTYPE_MANIFEST_COUNTEDBINARY {
        Some(("u8"@, 0, LocationType::StaticLenPrefixArray))
    } else {
        None
    }
}

/// The mapping's content, for contracts.
pub open spec fn mapping_view(m: TdhMapping) -> (Seq<char>, usize, LocationType) {
    (m.field_type@, m.size, m.location)
}

fn mapping(field_type: &'static str, size: usize, location: LocationType) -> (r: Option<TdhMapping>)
    ensures
        r matches Some(m) && mapping_view(m) == (field_type@, size, location),
{
    Some(TdhMapping { field_type, size, location })
}

/// Maps a TDH `InType` to the field that represents it; `None` for types
/// the field model cannot represent.
pub fn map_tdh_intype(in_type: i32, pointer_size: u8) -> (r: Option<TdhMapping>)
    ensures
        match tdh_mapping(in_type, pointer_size) {
            Some(m) => r matches Some(x) && mapping_view(x) == m,
            None => r is None,
        },
{
    if in_type == TDH_INTYPE_UNICODESTRING {
        mapping("wstring", 0, LocationType::StaticUTF16String)
    } else if in_type == TDH_INTYPE_ANSISTRING {
        mapping("string", 0, LocationType::StaticString)
    } else if in_type == TDH_INTYPE_INT8 {
        mapping("s8", 1, LocationType::Static)
    } else if in_type == TDH_INTYPE_UINT8 || in_type == TDH_INTYPE_BOOLEAN || in_type
        == TDH_INTYPE_ANSICHAR {
        mapping("u8", 1, LocationType::Static)
    } else if in_type == TDH_INTYPE_INT16 {
        mapping("s16", 2, LocationType::Static)
    } else if in_type == TDH_INTYPE_UINT16 || in_type == TDH_INTYPE_UNICODECHAR {
        mapping("u16", 2, LocationType::Static)
    } else if in_type == TDH_INTYPE_INT32 {
        mapping("s32", 4, LocationType::Static)
    } else if in_type == TDH_INTYPE_UINT32 || in_type == TDH_INTYPE_HEXINT32 {
        mapping("u32", 4, LocationType::Static)
    } else if in_type == TDH_INTYPE_INT64 {
        mapping("s64", 8, LocationType::Static)
    } else if in_type == TDH_INTYPE_UINT64 || in_type == TDH_INTYPE_HEXINT64 || in_type
        == TDH_INTYPE_FILETIME {
        mapping("u64", 8, LocationType::Static)
    } else if in_type == TDH_INTYPE_FLOAT {
        mapping("u32", 4, LocationType::Static)
    } else if in_type == TDH_INTYPE_DOUBLE {
        mapping("u64", 8, LocationType::Static)
    } else if in_type == TDH_INTYPE_GUID || in_type == TDH_INTYPE_SYSTEMTIME {
        mapping("u8", 16, LocationType::Static)
    } else if in_type == TDH_INTYPE_POINTER || in_type == TDH_INTYPE_SIZET {
        if pointer_size == 4 {
            mapping("u32", 4, LocationType::Static)
        } else {
            mapping("u64", 8, LocationType::Static)
        }
    } else if in_type == TDH_INTYPE_COUNTEDSTRING || in_type == TDH_INTYPE_COUNTEDANSISTRING
        || in_type == TDH_INTYPE_MANIFEST_COUNTEDSTRING || in_type
        == TDH_INTYPE_MANIFEST_COUNTEDANSISTRING || in_type == TDH_INTYPE_MANIFEST_COUNTEDBINARY {
        mapping("u8", 0, LocationType::StaticLenPrefixArray)
    } else {
        None
    }
}

/// The little-endian UTF-16 units at the start of `b`, up to the first zero
/// unit or the last whole unit.
pub open spec fn le_units(b: Seq<u8>) -> Seq<u16>
    decreases b.len(),
{
    if b.len() < 2 || (b[0] as nat + 256 * b[1] as nat) == 0 {
        Seq::empty()
    } else {
        seq![(b[0] as nat + 256 * b[1] as nat) as u16] + le_units(b.skip(2))
    }
}

/// The NUL-terminated UTF-16LE string at `offset` in `buffer`; `None` for
/// offset 0 or one past the buffer.
pub open spec fn wide_string_at(buffer: Seq<u8>, offset: nat) -> Option<Seq<char>> {
    if offset == 0 || offset >= buffer.len() {
        None
    } else {
        Some(utf16_lossy_chars(le_units(buffer.skip(offset as int))))
    }
}

/// Reads a NUL-terminated UTF-16LE string from `buffer` at `offset`.
pub fn read_wide_string_at(buffer: &[u8], offset: usize) -> (r: Option<String>)
    ensures
        match wide_string_at(buffer@, offset as nat) {
            Some(s) => r matches Some(t) && t@ == s,
            None => r is None,
        },
{
    if offset == 0 || offset >= buffer.len() {
        return None;
    }
    let n = buffer.len();
    let mut units: Vec<u16> = Vec::new();
    let mut idx: usize = offset;
    let mut done = false;
    assert(buffer@.skip(offset as int) =~= buffer@.skip(idx as int));
    while !done && n - idx > 1
        invariant
            n == buffer@.len(),
            offset <= idx <= n,
            (idx - offset) % 2 == 0,
            done ==> le_units(buffer@.skip(idx as int)) =~= Seq::<u16>::empty(),
            units@ + le_units(buffer@.skip(idx as int)) == le_units(buffer@.skip(offset as int)),
        decreases (n - idx) + (if done { 0int } else { 1int }),
    {
        let c: u16 = buffer[idx] as u16 + 256 * (buffer[idx + 1] as u16);
        let ghost rest = buffer@.skip(idx as int);
        proof {
            assert(rest[0] == buffer@[idx as int]);
            assert(rest[1] == buffer@[idx + 1]);
            assert(rest.skip(2) =~= buffer@.skip(idx + 2));
        }
        if c == 0 {
            done = true;
        } else {
            let ghost before = units@;
            units.push(c);
            proof {
                assert(units@ + le_units(buffer@.skip(idx + 2)) =~= before + le_units(rest));
            }
            idx = idx + 2;
        }
    }
    proof {
        assert(le_units(buffer@.skip(idx as int)) =~= Seq::<u16>::empty());
        assert(units@ + Seq::<u16>::empty() =~= units@);
    }
    Some(utf16_lossy(units.as_slice()))
}

/// Where property `i` starts in a `TRACE_EVENT_INFO` buffer.
pub open spec fn prop_base(i: int) -> int {
    112 + 24 * i
}

/// The `Flags` of property `i`.
pub open spec fn prop_flags(buf: Seq<u8>, i: int) -> u32 {
    ne_uint(buf.subrange(prop_base(i), prop_base(i) + 4)) as u32
}

/// The `NameOffset` of property `i`.
pub open spec fn prop_name_offset(buf: Seq<u8>, i: int) -> nat {
    ne_uint(buf.subrange(prop_base(i) + 4, prop_base(i) + 8))
}

/// The `InType` of property `i`, which for a struct is the index of its
/// first member.
pub open spec fn prop_in_type(buf: Seq<u8>, i: int) -> nat {
    ne_uint(buf.subrange(prop_base(i) + 8, prop_base(i) + 10))
}

/// The number of members of struct property `i`.
pub open spec fn prop_members(buf: Seq<u8>, i: int) -> nat {
    ne_uint(buf.subrange(prop_base(i) + 10, prop_base(i) + 12))
}

/// The `count` of property `i`.
pub open spec fn prop_count(buf: Seq<u8>, i: int) -> nat {
    ne_uint(buf.subrange(prop_base(i) + 16, prop_base(i) + 18))
}

/// Property `i` is a struct.
pub open spec fn prop_is_struct(buf: Seq<u8>, i: int) -> bool {
    prop_flags(buf, i) & PROPERTY_STRUCT != 0
}

/// The end of a range of `count` properties from `start` among `total`.
pub open spec fn range_end(start: nat, count: nat, total: nat) -> nat {
    if start + count < total {
        start + count
    } else {
        total
    }
}

/// The name of property `i` under `prefix`: its name in the buffer, or
/// `field` and its index, after `prefix` and a dot when there is a prefix.
pub open spec fn prop_name(buf: Seq<u8>, i: int, prefix: Seq<char>) -> Seq<char> {
    let raw = match wide_string_at(buf, prop_name_offset(buf, i)) {
        Some(s) => s,
        None => "field"@ + decimal(i as nat),
    };
    if prefix.len() == 0 {
        raw
    } else {
        prefix + seq!['.'] + raw
    }
}

/// How far a walk over the properties has got.
#[derive(Clone, Copy)]
pub struct WalkState {
    /// Offset of the next field, while no variable-length field was seen.
    pub offset: usize,
    /// A variable-length field was emitted; later fields get offset 0, to
    /// be located by stepping over the dynamic ones.
    pub dynamic_seen: bool,
}

/// The content of an emitted field: name, type, layout, offset and size.
pub type FieldView = (Seq<char>, Seq<char>, LocationType, usize, usize);

pub open spec fn field_view(f: EventField) -> FieldView {
    (f.name@, f.field_type@, f.location, f.offset, f.size)
}

pub open spec fn views(fields: Seq<EventField>) -> Seq<FieldView> {
    fields.map_values(|f: EventField| field_view(f))
}

/// The placeholder emitted for a property that cannot be represented.
pub open spec fn unsupported_field(name: Seq<char>, st: WalkState) -> (FieldView, WalkState) {
    let off: usize = if st.dynamic_seen {
        0
    } else {
        st.offset
    };
    ((name, "object"@, LocationType::Static, off, 0), WalkState { offset: st.offset, dynamic_seen: true })
}

/// The field emitted for non-struct property `i` named `name`, and the
/// state after it.
pub open spec fn emit_prop(buf: Seq<u8>, i: int, name: Seq<char>, st: WalkState, ps: u8) -> (
    FieldView,
    WalkState,
) {
    let flags = prop_flags(buf, i);
    let unsupported = flags & PROPERTY_PARAM_LENGTH != 0 || flags & PROPERTY_PARAM_COUNT != 0
        || flags & PROPERTY_PARAM_FIXED_COUNT != 0 || prop_count(buf, i) > 1;
    if unsupported {
        unsupported_field(name, st)
    } else {
        match tdh_mapping(prop_in_type(buf, i) as i32, ps) {
            None => unsupported_field(name, st),
            Some((t, size, loc)) => {
                let off: usize = if st.dynamic_seen {
                    0
                } else {
                    st.offset
                };
                let variable = loc == LocationType::StaticString || loc
                    == LocationType::StaticUTF16String || loc == LocationType::StaticLenPrefixArray
                    || size == 0;
                let next = if variable {
                    WalkState { offset: st.offset, dynamic_seen: true }
                } else if !st.dynamic_seen {
                    WalkState {
                        offset: if st.offset + size > usize::MAX {
                            usize::MAX
                        } else {
                            (st.offset + size) as usize
                        },
                        dynamic_seen: false,
                    }
                } else {
                    st
                };
                ((name, t, loc, off, size), next)
            },
        }
    }
}

/// The fields a walk over properties `i..end` emits under `prefix`,
/// recursing into structs at most `depth` deep, and the state it ends in.
pub open spec fn walk_range(
    buf: Seq<u8>,
    total: nat,
    i: int,
    end: int,
    prefix: Seq<char>,
    st: WalkState,
    ps: u8,
    depth: nat,
) -> (Seq<FieldView>, WalkState)
    decreases depth, end - i,
{
    if i >= end {
        (Seq::empty(), st)
    } else {
        let name = prop_name(buf, i, prefix);
        if prop_is_struct(buf, i) {
            if depth == 0 {
                (Seq::empty(), st)
            } else {
                let cs = prop_in_type(buf, i);
                let ce = range_end(cs, prop_members(buf, i), total);
                let inner = walk_range(buf, total, cs as int, ce as int, name, st, ps, (depth - 1) as nat);
                let rest = walk_range(buf, total, i + 1, end, prefix, inner.1, ps, depth);
                (inner.0 + rest.0, rest.1)
            }
        } else {
            let e = emit_prop(buf, i, name, st, ps);
            let rest = walk_range(buf, total, i + 1, end, prefix, e.1, ps, depth);
            (seq![e.0] + rest.0, rest.1)
        }
    }
}

/// Every struct among properties `i..end` nests at most `depth` deep.
pub open spec fn nests(buf: Seq<u8>, total: nat, i: int, end: int, depth: nat) -> bool
    decreases depth, end - i,
{
    if i >= end {
        true
    } else {
        &&& (prop_is_struct(buf, i) ==> depth > 0 && nests(
            buf,
            total,
            prop_in_type(buf, i) as int,
            range_end(prop_in_type(buf, i), prop_members(buf, i), total) as int,
            (depth - 1) as nat,
        ))
        &&& nests(buf, total, i + 1, end, depth)
    }
}

/// `PropertyCount` of a `TRACE_EVENT_INFO` buffer.
pub open spec fn property_count(buf: Seq<u8>) -> nat {
    ne_uint(buf.subrange(100, 104))
}

/// `TopLevelPropertyCount` of a `TRACE_EVENT_INFO` buffer.
pub open spec fn top_level_count(buf: Seq<u8>) -> nat {
    ne_uint(buf.subrange(104, 108))
}

/// The reason a `TRACE_EVENT_INFO` buffer is rejected before its properties
/// are walked, if any.
pub open spec fn header_error(buf: Seq<u8>) -> Option<Seq<char>> {
    if buf.len() < TRACE_EVENT_INFO_SIZE {
        Some("buffer smaller than TRACE_EVENT_INFO"@)
    } else if top_level_count(buf) > property_count(buf) {
        Some("TopLevelPropertyCount exceeds PropertyCount"@)
    } else if property_count(buf) * 24 > usize::MAX {
        Some("property array size overflow"@)
    } else if 112 + property_count(buf) * 24 > usize::MAX {
        Some("property array end overflow"@)
    } else if 112 + property_count(buf) * 24 > buf.len() {
        Some("property array extends past buffer"@)
    } else {
        None
    }
}

/// Walking the properties of `buf` ends: a chain of nested structs never
/// revisits a property, so it is at most `PropertyCount` long.
pub open spec fn walk_terminates(buf: Seq<u8>) -> bool {
    header_error(buf) is None ==> nests(
        buf,
        property_count(buf),
        0,
        top_level_count(buf) as int,
        property_count(buf) + 1,
    )
}

/// The fields built from `buf`, or the reason it is malformed.
pub open spec fn parse_result(buf: Seq<u8>, ps: u8) -> Result<Seq<FieldView>, Seq<char>> {
    match header_error(buf) {
        Some(reason) => Err(reason),
        None => Ok(
            walk_range(
                buf,
                property_count(buf),
                0,
                top_level_count(buf) as int,
                Seq::empty(),
                WalkState { offset: 0, dynamic_seen: false },
                ps,
                property_count(buf) + 1,
            ).0,
        ),
    }
}

fn prop_pos(buf: &[u8], total: usize, i: usize, off: usize) -> (r: usize)
    requires
        i < total,
        off < 24,
        112 + 24 * total <= buf@.len(),
    ensures
        r == prop_base(i as int) + off,
{
    let n = buf.len();
    assert(112 + 24 * i + off < n);
    112 + 24 * i + off
}

fn flags_at(buf: &[u8], total: usize, i: usize) -> (r: u32)
    requires
        i < total,
        112 + 24 * total <= buf@.len(),
    ensures
        r == prop_flags(buf@, i as int),
{
    read_ne_u32(buf, prop_pos(buf, total, i, 0))
}

fn name_offset_at(buf: &[u8], total: usize, i: usize) -> (r: u32)
    requires
        i < total,
        112 + 24 * total <= buf@.len(),
    ensures
        r == prop_name_offset(buf@, i as int),
{
    read_ne_u32(buf, prop_pos(buf, total, i, 4))
}

fn in_type_at(buf: &[u8], total: usize, i: usize) -> (r: u16)
    requires
        i < total,
        112 + 24 * total <= buf@.len(),
    ensures
        r == prop_in_type(buf@, i as int),
{
    read_ne_u16(buf, prop_pos(buf, total, i, 8))
}

fn members_at(buf: &[u8], total: usize, i: usize) -> (r: u16)
    requires
        i < total,
        112 + 24 * total <= buf@.len(),
    ensures
        r == prop_members(buf@, i as int),
{
    read_ne_u16(buf, prop_pos(buf, total, i, 10))
}

fn count_at(buf: &[u8], total: usize, i: usize) -> (r: u16)
    requires
        i < total,
        112 + 24 * total <= buf@.len(),
    ensures
        r == prop_count(buf@, i as int),
{
    read_ne_u16(buf, prop_pos(buf, total, i, 16))
}

/// Decides `nests` for properties `start..end`.
fn nests_within(buf: &[u8], total: usize, start: usize, end: usize, depth: usize) -> (r: bool)
    requires
        end <= total,
        112 + 24 * total <= buf@.len(),
    ensures
        r == nests(buf@, total as nat, start as int, end as int, depth as nat),
    decreases depth,
{
    if start >= end {
        return true;
    }
    let mut i: usize = start;
    while i < end
        invariant
            start <= i <= end,
            end <= total,
            112 + 24 * total <= buf@.len(),
            nests(buf@, total as nat, start as int, end as int, depth as nat) == nests(
                buf@,
                total as nat,
                i as int,
                end as int,
                depth as nat,
            ),
        decreases end - i,
    {
        if flags_at(buf, total, i) & PROPERTY_STRUCT != 0 {
            if depth == 0 {
                return false;
            }
            let cs = in_type_at(buf, total, i) as usize;
            let cc = members_at(buf, total, i) as usize;
            let ce = if cs + cc < total {
                cs + cc
            } else {
                total
            };
            if !nests_within(buf, total, cs, ce, depth - 1) {
                return false;
            }
        }
        i += 1;
    }
    true
}

/// The properties of `buffer` are not malformed in their header, and the
/// fixed parts of their header, as `(PropertyCount, TopLevelPropertyCount)`.
fn header_counts(buffer: &[u8]) -> (r: Result<(usize, usize), &'static str>)
    ensures
        match header_error(buffer@) {
            Some(reason) => r matches Err(m) && m@ == reason,
            None => r matches Ok((t, top)) && t == property_count(buffer@) && top
                == top_level_count(buffer@),
        },
{
    if buffer.len() < TRACE_EVENT_INFO_SIZE {
        return Err("buffer smaller than TRACE_EVENT_INFO");
    }
    let total = read_ne_u32(buffer, PROPERTY_COUNT_OFFSET) as usize;
    let top = read_ne_u32(buffer, TOP_LEVEL_PROPERTY_COUNT_OFFSET) as usize;
    if top > total {
        return Err("TopLevelPropertyCount exceeds PropertyCount");
    }
    let byte_len = match total.checked_mul(PROPERTY_INFO_SIZE) {
        Some(n) => n,
        None => {
            return Err("property array size overflow");
        },
    };
    let end = match PROPERTY_ARRAY_OFFSET.checked_add(byte_len) {
        Some(n) => n,
        None => {
            return Err("property array end overflow");
        },
    };
    if end > buffer.len() {
        return Err("property array extends past buffer");
    }
    Ok((total, top))
}

/// Whether walking the properties of `buffer` ends; see
/// [`walk_terminates`].
pub fn schema_walk_terminates(buffer: &[u8]) -> (r: bool)
    ensures
        r == walk_terminates(buffer@),
{
    match header_counts(buffer) {
        Err(_) => true,
        Ok((total, top)) => nests_within(buffer, total, 0, top, total + 1),
    }
}

/// Adds the placeholder for a property that cannot be represented.
fn emit_unsupported(format: &mut EventFormat, state: &mut WalkState, name: String)
    ensures
        views(final(format)@) == views(old(format)@).push(unsupported_field(name@, *old(state)).0),
        *final(state) == unsupported_field(name@, *old(state)).1,
{
    let field_offset = if state.dynamic_seen {
        0
    } else {
        state.offset
    };
    let object = String::from_str("object");
    format.add_field(EventField::new(name, object, LocationType::Static, field_offset, 0));
    state.dynamic_seen = true;
    proof {
        reveal_strlit("object");
        assert(views(final(format)@) =~= views(old(format)@).push(
            unsupported_field(name@, *old(state)).0,
        ));
    }
}

/// The name of property `i` under `prefix`; see [`prop_name`].
fn property_name(buffer: &[u8], total: usize, i: usize, prefix: &str) -> (r: String)
    requires
        i < total,
        112 + 24 * total <= buffer@.len(),
    ensures
        r@ == prop_name(buffer@, i as int, prefix@),
{
    let raw_name = match read_wide_string_at(buffer, name_offset_at(buffer, total, i) as usize) {
        Some(s) => s,
        None => {
            let mut s = String::new();
            push_str(&mut s, "field");
            push_signed_decimal(&mut s, i as i128);
            proof {
                reveal_strlit("field");
            }
            s
        },
    };
    if prefix.is_empty() {
        raw_name
    } else {
        let mut combined = String::new();
        push_str(&mut combined, prefix);
        push_char(&mut combined, '.');
        push_str(&mut combined, raw_name.as_str());
        combined
    }
}

/// Adds the field for non-struct property `i` named `name`.
fn emit_property(
    buffer: &[u8],
    total: usize,
    i: usize,
    name: String,
    format: &mut EventFormat,
    state: &mut WalkState,
    pointer_size: u8,
)
    requires
        i < total,
        112 + 24 * total <= buffer@.len(),
    ensures
        views(final(format)@) == views(old(format)@).push(
            emit_prop(buffer@, i as int, name@, *old(state), pointer_size).0,
        ),
        *final(state) == emit_prop(buffer@, i as int, name@, *old(state), pointer_size).1,
{
    let flags = flags_at(buffer, total, i);
    let unsupported_shape = flags & PROPERTY_PARAM_LENGTH != 0 || flags & PROPERTY_PARAM_COUNT != 0
        || flags & PROPERTY_PARAM_FIXED_COUNT != 0 || count_at(buffer, total, i) > 1;
    if unsupported_shape {
        emit_unsupported(format, state, name);
        return ;
    }
    let in_type = in_type_at(buffer, total, i) as i32;
    let m = match map_tdh_intype(in_type, pointer_size) {
        Some(m) => m,
        None => {
            emit_unsupported(format, state, name);
            return ;
        },
    };
    let field_offset = if state.dynamic_seen {
        0
    } else {
        state.offset
    };
    let ghost name_view = name@;
    format.add_field(
        EventField::new(name, String::from_str(m.field_type), m.location, field_offset, m.size),
    );
    let is_variable = m.location == LocationType::StaticString || m.location
        == LocationType::StaticUTF16String || m.location == LocationType::StaticLenPrefixArray
        || m.size == 0;
    if is_variable {
        state.dynamic_seen = true;
    } else if !state.dynamic_seen {
        state.offset = state.offset.saturating_add(m.size);
    }
    proof {
        assert(views(final(format)@) =~= views(old(format)@).push(
            emit_prop(buffer@, i as int, name_view, *old(state), pointer_size).0,
        ));
    }
}

/// Adds the fields for properties `start..start + count` (within the
/// first `total`) under `prefix`, flattening structs.
fn walk_properties(
    buffer: &[u8],
    total: usize,
    start: usize,
    count: usize,
    prefix: &str,
    format: &mut EventFormat,
    state: &mut WalkState,
    pointer_size: u8,
    Ghost(depth): Ghost<nat>,
)
    requires
        112 + 24 * total <= buffer@.len(),
        nests(
            buffer@,
            total as nat,
            start as int,
            range_end(start as nat, count as nat, total as nat) as int,
            depth,
        ),
    ensures
        ({
            let w = walk_range(
                buffer@,
                total as nat,
                start as int,
                range_end(start as nat, count as nat, total as nat) as int,
                prefix@,
                *old(state),
                pointer_size,
                depth,
            );
            &&& views(final(format)@) == views(old(format)@) + w.0
            &&& *final(state) == w.1
        }),
    decreases depth,
{
    let sum = start.saturating_add(count);
    let end = if sum < total {
        sum
    } else {
        total
    };
    assert(end == range_end(start as nat, count as nat, total as nat));
    let ghost whole = walk_range(
        buffer@,
        total as nat,
        start as int,
        end as int,
        prefix@,
        *old(state),
        pointer_size,
        depth,
    );
    let mut i: usize = start;
    assert(views(old(format)@) + whole.0 =~= views(format@) + whole.0);
    while i < end
        invariant
            start <= i,
            end <= total,
            112 + 24 * total <= buffer@.len(),
            nests(buffer@, total as nat, i as int, end as int, depth),
            views(format@) + walk_range(
                buffer@,
                total as nat,
                i as int,
                end as int,
                prefix@,
                *state,
                pointer_size,
                depth,
            ).0 == views(old(format)@) + whole.0,
            walk_range(
                buffer@,
                total as nat,
                i as int,
                end as int,
                prefix@,
                *state,
                pointer_size,
                depth,
            ).1 == whole.1,
        decreases end - i,
    {
        let ghost st = *state;
        let ghost before = views(format@);
        let name = property_name(buffer, total, i, prefix);
        let ghost here = walk_range(
            buffer@,
            total as nat,
            i as int,
            end as int,
            prefix@,
            st,
            pointer_size,
            depth,
        );
        if flags_at(buffer, total, i) & PROPERTY_STRUCT != 0 {
            let child_start = in_type_at(buffer, total, i) as usize;
            let child_count = members_at(buffer, total, i) as usize;
            assert(depth > 0);
            walk_properties(
                buffer,
                total,
                child_start,
                child_count,
                name.as_str(),
                format,
                state,
                pointer_size,
                Ghost((depth - 1) as nat),
            );
            proof {
                let inner = walk_range(
                    buffer@,
                    total as nat,
                    child_start as int,
                    range_end(child_start as nat, child_count as nat, total as nat) as int,
                    name@,
                    st,
                    pointer_size,
                    (depth - 1) as nat,
                );
                let rest = walk_range(
                    buffer@,
                    total as nat,
                    i + 1,
                    end as int,
                    prefix@,
                    inner.1,
                    pointer_size,
                    depth,
                );
                assert(here == (inner.0 + rest.0, rest.1));
                assert(views(format@) + rest.0 =~= before + here.0);
            }
        } else {
            let ghost nm = name@;
            emit_property(buffer, total, i, name, format, state, pointer_size);
            proof {
                let e = emit_prop(buffer@, i as int, nm, st, pointer_size);
                let rest = walk_range(
                    buffer@,
                    total as nat,
                    i + 1,
                    end as int,
                    prefix@,
                    e.1,
                    pointer_size,
                    depth,
                );
                assert(here == (seq![e.0] + rest.0, rest.1));
                assert(views(format@) + rest.0 =~= before + here.0);
            }
        }
        i += 1;
    }
    proof {
        assert(views(format@) + Seq::<FieldView>::empty() =~= views(format@));
    }
}

/// A parsed schema: the format of the events it describes.
pub struct CachedSchema {
    pub format: EventFormat,
}

/// Builds the format of an event from the `TRACE_EVENT_INFO` bytes TDH
/// returned for it; `pointer_size` is the emitter's pointer width.
pub fn parse_trace_event_info(buffer: &[u8], pointer_size: u8) -> (r: Result<
    CachedSchema,
    TdhDecodeError,
>)
    requires
        walk_terminates(buffer@),
    ensures
        match parse_result(buffer@, pointer_size) {
            Ok(fields) => r matches Ok(schema) && views(schema.format@) == fields,
            Err(reason) => r matches Err(TdhDecodeError::Malformed(m)) && m@ == reason,
        },
{
    let (total, top) = match header_counts(buffer) {
        Ok(c) => c,
        Err(reason) => {
            return Err(TdhDecodeError::Malformed(reason));
        },
    };
    let mut format = EventFormat::new();
    let mut state = WalkState { offset: 0, dynamic_seen: false };
    let top_props = if top < total {
        top
    } else {
        total
    };
    proof {
        assert(views(format@) =~= Seq::<FieldView>::empty());
        assert(range_end(0, top_props as nat, total as nat) == top);
        reveal_strlit("");
        assert(""@ =~= Seq::<char>::empty());
    }
    walk_properties(
        buffer,
        total,
        0,
        top_props,
        "",
        &mut format,
        &mut state,
        pointer_size,
        Ghost((total + 1) as nat),
    );
    proof {
        assert(Seq::<FieldView>::empty() + walk_range(
            buffer@,
            total as nat,
            0,
            top as int,
            Seq::empty(),
            WalkState { offset: 0, dynamic_seen: false },
            pointer_size,
            (total + 1) as nat,
        ).0 =~= walk_range(
            buffer@,
            total as nat,
            0,
            top as int,
            Seq::empty(),
            WalkState { offset: 0, dynamic_seen: false },
            pointer_size,
            (total + 1) as nat,
        ).0);
    }
    Ok(CachedSchema { format })
}

/// Once a variable-length field has been emitted, every later field gets
/// offset 0, to be found by stepping over the dynamic fields before it,
/// and the walk stays in that state.
pub proof fn lemma_walk_after_dynamic(
    buf: Seq<u8>,
    total: nat,
    i: int,
    end: int,
    prefix: Seq<char>,
    st: WalkState,
    ps: u8,
    depth: nat,
)
    requires
        st.dynamic_seen,
    ensures
        ({
            let w = walk_range(buf, total, i, end, prefix, st, ps, depth);
            &&& w.1.dynamic_seen
            &&& forall|k: int| 0 <= k < w.0.len() ==> (#[trigger] w.0[k]).3 == 0
        }),
    decreases depth, end - i,
{
    if i < end {
        let name = prop_name(buf, i, prefix);
        if prop_is_struct(buf, i) {
            if depth > 0 {
                let cs = prop_in_type(buf, i);
                let ce = range_end(cs, prop_members(buf, i), total);
                lemma_walk_after_dynamic(buf, total, cs as int, ce as int, name, st, ps, (depth - 1) as nat);
                let inner = walk_range(buf, total, cs as int, ce as int, name, st, ps, (depth - 1) as nat);
                lemma_walk_after_dynamic(buf, total, i + 1, end, prefix, inner.1, ps, depth);
                let rest = walk_range(buf, total, i + 1, end, prefix, inner.1, ps, depth);
                let all = inner.0 + rest.0;
                assert forall|k: int| 0 <= k < all.len() implies (#[trigger] all[k]).3 == 0 by {
                    if k < inner.0.len() {
                        assert(all[k] == inner.0[k]);
                    } else {
                        assert(all[k] == rest.0[k - inner.0.len()]);
                    }
                }
            }
        } else {
            let e = emit_prop(buf, i, name, st, ps);
            lemma_walk_after_dynamic(buf, total, i + 1, end, prefix, e.1, ps, depth);
            let rest = walk_range(buf, total, i + 1, end, prefix, e.1, ps, depth);
            let all = seq![e.0] + rest.0;
            assert forall|k: int| 0 <= k < all.len() implies (#[trigger] all[k]).3 == 0 by {
                if k > 0 {
                    assert(all[k] == rest.0[k - 1]);
                }
            }
        }
    }
}


/// The schemas `entries` hold, keyed by kind of event; a later entry for a
/// key stands over an earlier one.
pub open spec fn entries_map(entries: Seq<(CacheKey, CachedSchema)>) -> Map<CacheKey, CachedSchema>
    decreases entries.len(),
{
    if entries.len() == 0 {
        Map::empty()
    } else {
        entries_map(entries.drop_last()).insert(entries.last().0, entries.last().1)
    }
}

/// No key occurs twice in `entries`.
pub open spec fn keys_distinct(entries: Seq<(CacheKey, CachedSchema)>) -> bool {
    forall|i: int, j: int|
        0 <= i < j < entries.len() ==> #[trigger] entries[i].0 != #[trigger] entries[j].0
}

/// With distinct keys, the map of `entries` has one key per entry, holds
/// exactly their keys, and maps each to its schema.
proof fn lemma_entries_map(entries: Seq<(CacheKey, CachedSchema)>)
    requires
        keys_distinct(entries),
    ensures
        entries_map(entries).dom().finite(),
        entries_map(entries).len() == entries.len(),
        forall|k: CacheKey|
            entries_map(entries).contains_key(k) <==> exists|i: int|
                0 <= i < entries.len() && #[trigger] entries[i].0 == k,
        forall|i: int|
            0 <= i < entries.len() ==> entries_map(entries)[#[trigger] entries[i].0] == entries[i].1,
    decreases entries.len(),
{
    if entries.len() > 0 {
        let p = entries.drop_last();
        let n = entries.len() - 1;
        assert(keys_distinct(p)) by {
            assert forall|i: int, j: int| 0 <= i < j < p.len() implies #[trigger] p[i].0 != #[trigger] p[j].0 by {
                assert(p[i] == entries[i] && p[j] == entries[j]);
            }
        }
        lemma_entries_map(p);
        let last = entries.last();
        assert(!entries_map(p).contains_key(last.0)) by {
            if entries_map(p).contains_key(last.0) {
                let i = choose|i: int| 0 <= i < p.len() && #[trigger] p[i].0 == last.0;
                assert(entries[i].0 == entries[n].0);
            }
        }
        assert forall|k: CacheKey|
            entries_map(entries).contains_key(k) <==> exists|i: int|
                0 <= i < entries.len() && #[trigger] entries[i].0 == k by {
            if entries_map(entries).contains_key(k) {
                if k == last.0 {
                    assert(entries[n].0 == k);
                } else {
                    let i = choose|i: int| 0 <= i < p.len() && #[trigger] p[i].0 == k;
                    assert(entries[i].0 == k);
                }
            }
            if exists|i: int| 0 <= i < entries.len() && #[trigger] entries[i].0 == k {
                let i = choose|i: int| 0 <= i < entries.len() && #[trigger] entries[i].0 == k;
                if i < n {
                    assert(p[i].0 == k);
                }
            }
        }
        assert forall|i: int| 0 <= i < entries.len() implies entries_map(entries)[#[trigger] entries[i].0]
            == entries[i].1 by {
            if i < n {
                assert(p[i] == entries[i]);
                assert(entries[i].0 != entries[n].0);
            }
        }
    }
}

/// `a` and `b` name the same kind of event.
fn same_key(a: &CacheKey, b: &CacheKey) -> (r: bool)
    ensures
        r == (*a == *b),
{
    if a.id != b.id || a.version != b.version || a.opcode != b.opcode || a.channel != b.channel
        || a.keyword != b.keyword || a.pointer_size != b.pointer_size || a.provider.data1
        != b.provider.data1 || a.provider.data2 != b.provider.data2 || a.provider.data3
        != b.provider.data3 {
        return false;
    }
    let mut k: usize = 0;
    while k < 8
        invariant
            k <= 8,
            forall|j: int| 0 <= j < k ==> a.provider.data4[j] == b.provider.data4[j],
        decreases 8 - k,
    {
        if a.provider.data4[k] != b.provider.data4[k] {
            return false;
        }
        k += 1;
    }
    assert(a.provider.data4 =~= b.provider.data4);
    true
}

/// What decoding does for an event, by whether its kind of event has a
/// cached schema.
#[derive(Clone, Copy, PartialEq, Eq, Structural, Debug)]
pub enum DecodeAction {
    /// The cached schema is used; TDH is not asked.
    Serve,
    /// TDH is asked for the schema, which is then cached.
    Fetch,
}

/// The schemas built so far, one for each kind of event seen, so that TDH
/// is asked once per kind of event.
pub struct SchemaCache {
    entries: Vec<(CacheKey, CachedSchema)>,
}

impl View for SchemaCache {
    type V = Map<CacheKey, CachedSchema>;

    closed spec fn view(&self) -> Map<CacheKey, CachedSchema> {
        entries_map(self.entries@)
    }
}

impl SchemaCache {
    #[verifier::type_invariant]
    closed spec fn wf(&self) -> bool {
        keys_distinct(self.entries@)
    }

    /// A cache of no schemas.
    pub fn new() -> (r: Self)
        ensures
            r@ == Map::<CacheKey, CachedSchema>::empty(),
    {
        SchemaCache { entries: Vec::new() }
    }

    /// The number of schemas cached.
    pub fn len(&self) -> (r: usize)
        ensures
            r == self@.len(),
            self@.dom().finite(),
    {
        proof {
            use_type_invariant(self);
            lemma_entries_map(self.entries@);
        }
        self.entries.len()
    }

    /// Where the schema for `key` is, if it is cached.
    fn find(&self, key: &CacheKey) -> (r: Option<usize>)
        ensures
            match r {
                Some(i) => i < self.entries@.len() && self.entries@[i as int].0 == *key,
                None => forall|i: int| 0 <= i < self.entries@.len() ==> #[trigger] self.entries@[i].0 != *key,
            },
    {
        let mut i: usize = 0;
        while i < self.entries.len()
            invariant
                i <= self.entries@.len(),
                forall|j: int| 0 <= j < i ==> #[trigger] self.entries@[j].0 != *key,
            decreases self.entries@.len() - i,
        {
            if same_key(&self.entries[i].0, key) {
                return Some(i);
            }
            i += 1;
        }
        None
    }

    /// The cached schema for `key`, if any.
    pub fn get(&self, key: &CacheKey) -> (r: Option<&CachedSchema>)
        ensures
            (r is Some) == self@.contains_key(*key),
            r matches Some(s) ==> *s == self@[*key],
    {
        proof {
            use_type_invariant(self);
            lemma_entries_map(self.entries@);
        }
        match self.find(key) {
            Some(i) => Some(&self.entries[i].1),
            None => None,
        }
    }

    /// Whether a schema for `key` is cached.
    pub fn contains_key(&self, key: &CacheKey) -> (r: bool)
        ensures
            r == self@.contains_key(*key),
    {
        proof {
            use_type_invariant(self);
            lemma_entries_map(self.entries@);
        }
        self.find(key).is_some()
    }

    /// What decoding an event of kind `key` does: use the cached schema when
    /// there is one, else fetch it.
    pub fn decode_step(&self, key: &CacheKey) -> (r: DecodeAction)
        ensures
            r == (if self@.contains_key(*key) {
                DecodeAction::Serve
            } else {
                DecodeAction::Fetch
            }),
    {
        if self.contains_key(key) {
            DecodeAction::Serve
        } else {
            DecodeAction::Fetch
        }
    }

    /// Caches `schema` for `key`, which has none yet: one schema more.
    pub fn insert_new(&mut self, key: CacheKey, schema: CachedSchema)
        requires
            !old(self)@.contains_key(key),
        ensures
            final(self)@ == old(self)@.insert(key, schema),
            final(self)@.len() == old(self)@.len() + 1,
    {
        proof {
            use_type_invariant(&*self);
            lemma_entries_map(self.entries@);
        }
        let ghost before = self.entries@;
        let mut entries = Vec::new();
        std::mem::swap(&mut entries, &mut self.entries);
        entries.push((key, schema));
        proof {
            assert(entries@.drop_last() =~= before);
            assert forall|i: int, j: int| 0 <= i < j < entries@.len() implies #[trigger] entries@[i].0
                != #[trigger] entries@[j].0 by {
                if j == before.len() {
                    assert(before[i].0 == entries@[i].0);
                } else {
                    assert(before[i] == entries@[i] && before[j] == entries@[j]);
                }
            }
            lemma_entries_map(entries@);
        }
        self.entries = entries;
    }

    /// Takes in what fetching the schema for `key`, which has none yet,
    /// gave: a schema is cached, an error is passed on and nothing changes.
    pub fn store_fetched(&mut self, key: CacheKey, fetched: Result<CachedSchema, TdhDecodeError>) -> (r:
        Result<(), TdhDecodeError>)
        requires
            !old(self)@.contains_key(key),
        ensures
            match fetched {
                Ok(s) => r is Ok && final(self)@ == old(self)@.insert(key, s) && final(self)@.len()
                    == old(self)@.len() + 1,
                Err(e) => r == Err::<(), TdhDecodeError>(e) && final(self)@ == old(self)@,
            },
    {
        match fetched {
            Ok(s) => {
                self.insert_new(key, s);
                Ok(())
            },
            Err(e) => Err(e),
        }
    }
}

/// Caching a schema for a kind of event not cached yet makes the cache one
/// schema larger and that kind served from then on, keeps every schema
/// cached before; a new cache holds none.
pub proof fn lemma_schema_cache_growth(
    cached: Map<CacheKey, CachedSchema>,
    key: CacheKey,
    schema: CachedSchema,
    other: CacheKey,
)
    requires
        cached.dom().finite(),
        !cached.contains_key(key),
    ensures
        Map::<CacheKey, CachedSchema>::empty().len() == 0,
        cached.insert(key, schema).contains_key(key),
        cached.insert(key, schema)[key] == schema,
        cached.insert(key, schema).len() == cached.len() + 1,
        cached.contains_key(other) ==> cached.insert(key, schema).contains_key(other)
            && cached.insert(key, schema)[other] == cached[other],
{
}

/// Bytes per value and signedness of a TDH integer `InType`: the InTypes
/// from `TDH_INTYPE_INT8` to `TDH_INTYPE_UINT64` come in pairs, signed then
/// unsigned, of 1, 2, 4 and 8 bytes.
pub open spec fn tdh_integer_layout(t: i32) -> (nat, bool) {
    let k = t - TDH_INTYPE_INT8;
    (seq![1nat, 2nat, 4nat, 8nat][k / 2], k % 2 == 0)
}

/// Each TDH integer `InType` becomes a `Static` field of its width whose
/// type name is read, by filters, as an integer of that width and of the
/// same signedness; hex integers become unsigned fields of their width, and
/// pointers unsigned fields of the emitter's pointer width.
pub proof fn lemma_tdh_integer_fields(t: i32, ps: u8)
    ensures
        TDH_INTYPE_INT8 <= t <= TDH_INTYPE_UINT64 ==> (tdh_mapping(t, ps) matches Some(m) && m.2
            == LocationType::Static && m.1 == tdh_integer_layout(t).0
            && crate::event::filter::numeric_type_of(m.0) == Some(tdh_integer_layout(t))),
        t == TDH_INTYPE_HEXINT32 ==> (tdh_mapping(t, ps) matches Some(m) && m.2
            == LocationType::Static && m.1 == 4 && crate::event::filter::numeric_type_of(m.0)
            == Some((4nat, false))),
        t == TDH_INTYPE_HEXINT64 ==> (tdh_mapping(t, ps) matches Some(m) && m.2
            == LocationType::Static && m.1 == 8 && crate::event::filter::numeric_type_of(m.0)
            == Some((8nat, false))),
        (t == TDH_INTYPE_POINTER || t == TDH_INTYPE_SIZET) && (ps == 4 || ps == 8) ==> (tdh_mapping(
            t,
            ps,
        ) matches Some(m) && m.2 == LocationType::Static && m.1 == ps
            && crate::event::filter::numeric_type_of(m.0) == Some((ps as nat, false))),
{
    reveal_strlit("u8");
    reveal_strlit("s8");
    reveal_strlit("u16");
    reveal_strlit("s16");
    reveal_strlit("u32");
    reveal_strlit("s32");
    reveal_strlit("u64");
    reveal_strlit("s64");
    reveal_strlit("unsigned short");
    reveal_strlit("short");
    reveal_strlit("unsigned int");
    reveal_strlit("int");
    reveal_strlit("unsigned long");
    reveal_strlit("long");
    assert("s8"@[0] != "u8"@[0]);
    assert("s16"@[0] != "u16"@[0]);
    assert("s32"@[0] != "u16"@[0]);
    assert("s32"@[1] != "s16"@[1]);
    assert("s32"@[0] != "u32"@[0]);
    assert("u32"@[1] != "u16"@[1]);
    assert("u32"@[0] != "s16"@[0]);
    assert("s64"@[0] != "u16"@[0]);
    assert("s64"@[1] != "s16"@[1]);
    assert("s64"@[0] != "u32"@[0]);
    assert("s64"@[1] != "s32"@[1]);
    assert("s64"@[0] != "int"@[0]);
    assert("s64"@[0] != "u64"@[0]);
    assert("u64"@[1] != "u16"@[1]);
    assert("u64"@[0] != "s16"@[0]);
    assert("u64"@[1] != "u32"@[1]);
    assert("u64"@[0] != "s32"@[0]);
    assert("u64"@[0] != "int"@[0]);
    assert(crate::event::filter::numeric_type_of("s8"@) == Some((1nat, true)));
    assert(crate::event::filter::numeric_type_of("u8"@) == Some((1nat, false)));
    assert(crate::event::filter::numeric_type_of("s16"@) == Some((2nat, true)));
    assert(crate::event::filter::numeric_type_of("u16"@) == Some((2nat, false)));
    assert(crate::event::filter::numeric_type_of("s32"@) == Some((4nat, true)));
    assert(crate::event::filter::numeric_type_of("u32"@) == Some((4nat, false)));
    assert(crate::event::filter::numeric_type_of("s64"@) == Some((8nat, true)));
    assert(crate::event::filter::numeric_type_of("u64"@) == Some((8nat, false)));
    if TDH_INTYPE_INT8 <= t <= TDH_INTYPE_UINT64 {
        assert(tdh_integer_layout(3) == (1nat, true));
        assert(tdh_integer_layout(4) == (1nat, false));
        assert(tdh_integer_layout(5) == (2nat, true));
        assert(tdh_integer_layout(6) == (2nat, false));
        assert(tdh_integer_layout(7) == (4nat, true));
        assert(tdh_integer_layout(8) == (4nat, false));
        assert(tdh_integer_layout(9) == (8nat, true));
        assert(tdh_integer_layout(10) == (8nat, false));
    }
}

} // verus!
