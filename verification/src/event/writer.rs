//! Rendering field data as text.

use crate::bytes::{ne_uint, read_ne_u16, read_ne_u32, read_ne_u64};
use crate::event::filter::to_signed;
use crate::event::format::{
    field_access, find_named, offsets_fit, EventField, EventFormat, FieldDataAccessor, FieldSkip,
    LocationType,
};
use crate::text::{
    char_from_u32, hex_byte, push_char, push_hex_byte, push_signed_decimal, push_str,
    signed_decimal, str_eq,
};
use vstd::prelude::*;
use vstd::utf8::is_scalar;

verus! {

/// How the data of a field is rendered.
#[derive(Debug, PartialEq, Eq, Structural, Clone, Copy)]
pub enum WriteKind {
    /// Each 2 bytes as an unsigned integer, followed by a space.
    U16,
    /// Each 2 bytes as a signed integer, followed by a space.
    S16,
    /// Each 4 bytes as an unsigned integer, followed by a space.
    U32,
    /// Each 4 bytes as a signed integer, followed by a space.
    S32,
    /// Each 8 bytes as an unsigned integer, followed by a space.
    U64,
    /// Each 8 bytes as a signed integer, followed by a space.
    S64,
    /// Each 4 bytes as a single precision float, followed by a space.
    F32,
    /// Each 8 bytes as a double precision float, followed by a space.
    F64,
    /// UTF-16 code units up to the first zero unit, then a space.
    Utf16Text,
    /// Bytes as characters up to the first zero byte, then a space.
    Utf8Text,
    /// Each byte as `0x` and two upper-case hex digits, followed by a space.
    Hex,
}

impl WriteKind {
    /// The kind renders floating point values.
    pub open spec fn is_float(self) -> bool {
        self == WriteKind::F32 || self == WriteKind::F64
    }

    /// Bytes per rendered integer.
    pub open spec fn width(self) -> nat {
        match self {
            WriteKind::U16 | WriteKind::S16 => 2,
            WriteKind::U32 | WriteKind::S32 | WriteKind::F32 => 4,
            WriteKind::U64 | WriteKind::S64 | WriteKind::F64 => 8,
            _ => 1,
        }
    }

    /// The kind renders signed integers.
    pub open spec fn signed(self) -> bool {
        self == WriteKind::S16 || self == WriteKind::S32 || self == WriteKind::S64
    }
}

/// How a field of type `t` laid out as `loc` is rendered.
pub open spec fn write_kind_of(t: Seq<char>, loc: LocationType) -> WriteKind {
    if t == "u16"@ || t == "unsigned short"@ {
        WriteKind::U16
    } else if t == "s16"@ || t == "short"@ {
        WriteKind::S16
    } else if t == "u32"@ || t == "unsigned int"@ {
        WriteKind::U32
    } else if t == "s32"@ || t == "int"@ {
        WriteKind::S32
    } else if t == "u64"@ || t == "unsigned long"@ {
        WriteKind::U64
    } else if t == "s64"@ || t == "long"@ {
        WriteKind::S64
    } else if t == "float"@ {
        WriteKind::F32
    } else if t == "double"@ {
        WriteKind::F64
    } else if t == "char"@ || t == "unsigned char"@ || t == "string"@ || t == "wstring"@ {
        if loc == LocationType::StaticUTF16String || t == "wstring"@ {
            WriteKind::Utf16Text
        } else {
            WriteKind::Utf8Text
        }
    } else {
        WriteKind::Hex
    }
}

/// Each whole group of `w` bytes of `d` as a decimal integer and a space.
pub open spec fn render_ints(d: Seq<u8>, w: nat, signed: bool) -> Seq<char>
    decreases d.len(),
{
    if w == 0 || d.len() < w {
        Seq::empty()
    } else {
        let u = ne_uint(d.take(w as int));
        let v = if signed {
            to_signed(u, w)
        } else {
            u as int
        };
        signed_decimal(v) + seq![' '] + render_ints(d.skip(w as int), w, signed)
    }
}

/// The character for a UTF-16 code unit, `?` for a surrogate.
pub open spec fn unit_char(u: u16) -> char {
    if is_scalar(u as u32) {
        u as u32 as char
    } else {
        '?'
    }
}

/// The code units of `d` up to the first zero unit, as characters.
pub open spec fn render_utf16(d: Seq<u8>) -> Seq<char>
    decreases d.len(),
{
    if d.len() < 2 || ne_uint(d.take(2)) == 0 {
        Seq::empty()
    } else {
        seq![unit_char(ne_uint(d.take(2)) as u16)] + render_utf16(d.skip(2))
    }
}

/// The bytes of `d` up to the first zero byte, each as the character with
/// that code.
pub open spec fn render_bytes(d: Seq<u8>) -> Seq<char>
    decreases d.len(),
{
    if d.len() == 0 || d[0] == 0 {
        Seq::empty()
    } else {
        seq![d[0] as char] + render_bytes(d.drop_first())
    }
}

/// Each byte of `d` in hex, followed by a space.
pub open spec fn render_hex(d: Seq<u8>) -> Seq<char>
    decreases d.len(),
{
    if d.len() == 0 {
        Seq::empty()
    } else {
        hex_byte(d[0]) + seq![' '] + render_hex(d.drop_first())
    }
}

/// The text written for field data `d` of kind `k` (other than floats).
pub open spec fn render(k: WriteKind, d: Seq<u8>) -> Seq<char> {
    match k {
        WriteKind::Utf16Text => render_utf16(d) + seq![' '],
        WriteKind::Utf8Text => render_bytes(d) + seq![' '],
        WriteKind::Hex => render_hex(d),
        _ => render_ints(d, k.width(), k.signed()),
    }
}

/// Writes the data of one field as text.
pub struct FieldWriter {
    /// Finds the field data.
    pub accessor: FieldDataAccessor,
    /// How the data is rendered.
    pub kind: WriteKind,
}

fn write_ints(out: &mut String, d: &[u8], w: usize, signed: bool)
    requires
        w == 2 || w == 4 || w == 8,
    ensures
        final(out)@ == old(out)@ + render_ints(d@, w as nat, signed),
{
    let n = d.len();
    let mut p: usize = 0;
    assert(d@.skip(0) =~= d@);
    while w <= n - p
        invariant
            n == d@.len(),
            w == 2 || w == 4 || w == 8,
            p <= n,
            out@ + render_ints(d@.skip(p as int), w as nat, signed) == old(out)@ + render_ints(
                d@,
                w as nat,
                signed,
            ),
        decreases n - p,
    {
        let u: u64 = if w == 2 {
            read_ne_u16(d, p) as u64
        } else if w == 4 {
            read_ne_u32(d, p) as u64
        } else {
            read_ne_u64(d, p)
        };
        let v: i128 = if signed {
            if w == 2 {
                if u >= 0x8000 {
                    u as i128 - 0x1_0000
                } else {
                    u as i128
                }
            } else if w == 4 {
                if u >= 0x8000_0000 {
                    u as i128 - 0x1_0000_0000
                } else {
                    u as i128
                }
            } else {
                if u >= 0x8000_0000_0000_0000 {
                    u as i128 - 0x1_0000_0000_0000_0000
                } else {
                    u as i128
                }
            }
        } else {
            u as i128
        };
        let ghost before = out@;
        push_signed_decimal(out, v);
        push_char(out, ' ');
        proof {
            let rest = d@.skip(p as int);
            assert(rest.take(w as int) =~= d@.subrange(p as int, p + w));
            assert(rest.skip(w as int) =~= d@.skip(p + w));
            assert(out@ =~= before + (signed_decimal(v as int) + seq![' ']));
            assert(render_ints(rest, w as nat, signed) == signed_decimal(v as int) + seq![' ']
                + render_ints(d@.skip(p + w), w as nat, signed));
            assert(out@ + render_ints(d@.skip(p + w), w as nat, signed) =~= before
                + render_ints(rest, w as nat, signed));
        }
        p = p + w;
    }
    proof {
        assert(render_ints(d@.skip(p as int), w as nat, signed) =~= Seq::<char>::empty());
        assert(out@ + Seq::<char>::empty() =~= out@);
    }
}

fn write_utf16(out: &mut String, d: &[u8])
    ensures
        final(out)@ == old(out)@ + render_utf16(d@),
{
    let n = d.len();
    let mut p: usize = 0;
    let mut done = false;
    assert(d@.skip(0) =~= d@);
    while !done && 2 <= n - p
        invariant
            n == d@.len(),
            p <= n,
            done ==> render_utf16(d@.skip(p as int)) =~= Seq::<char>::empty(),
            out@ + render_utf16(d@.skip(p as int)) == old(out)@ + render_utf16(d@),
        decreases (n - p) + (if done { 0int } else { 1int }),
    {
        let unit = read_ne_u16(d, p);
        let ghost rest = d@.skip(p as int);
        proof {
            assert(rest.take(2) =~= d@.subrange(p as int, p + 2));
            assert(rest.skip(2) =~= d@.skip(p + 2));
        }
        if unit == 0 {
            done = true;
        } else {
            let c = match char_from_u32(unit as u32) {
                Some(c) => c,
                None => '?',
            };
            let ghost before = out@;
            push_char(out, c);
            proof {
                assert(out@ + render_utf16(d@.skip(p + 2)) =~= before + render_utf16(rest));
            }
            p = p + 2;
        }
    }
    proof {
        assert(render_utf16(d@.skip(p as int)) =~= Seq::<char>::empty());
        assert(out@ + Seq::<char>::empty() =~= out@);
    }
}

fn write_bytes(out: &mut String, d: &[u8])
    ensures
        final(out)@ == old(out)@ + render_bytes(d@),
{
    let n = d.len();
    let mut p: usize = 0;
    let mut done = false;
    assert(d@.skip(0) =~= d@);
    while !done && p < n
        invariant
            n == d@.len(),
            p <= n,
            done ==> render_bytes(d@.skip(p as int)) =~= Seq::<char>::empty(),
            out@ + render_bytes(d@.skip(p as int)) == old(out)@ + render_bytes(d@),
        decreases (n - p) + (if done { 0int } else { 1int }),
    {
        let b = d[p];
        let ghost rest = d@.skip(p as int);
        proof {
            assert(rest.drop_first() =~= d@.skip(p + 1));
        }
        if b == 0 {
            done = true;
        } else {
            let ghost before = out@;
            push_char(out, b as char);
            proof {
                assert(out@ + render_bytes(d@.skip(p + 1)) =~= before + render_bytes(rest));
            }
            p = p + 1;
        }
    }
    proof {
        assert(render_bytes(d@.skip(p as int)) =~= Seq::<char>::empty());
        assert(out@ + Seq::<char>::empty() =~= out@);
    }
}

fn write_hex(out: &mut String, d: &[u8])
    ensures
        final(out)@ == old(out)@ + render_hex(d@),
{
    let n = d.len();
    let mut p: usize = 0;
    assert(d@.skip(0) =~= d@);
    while p < n
        invariant
            n == d@.len(),
            p <= n,
            out@ + render_hex(d@.skip(p as int)) == old(out)@ + render_hex(d@),
        decreases n - p,
    {
        let ghost rest = d@.skip(p as int);
        let ghost before = out@;
        push_hex_byte(out, d[p]);
        push_char(out, ' ');
        proof {
            assert(rest.drop_first() =~= d@.skip(p + 1));
            assert(out@ + render_hex(d@.skip(p + 1)) =~= before + render_hex(rest));
        }
        p = p + 1;
    }
    proof {
        assert(render_hex(d@.skip(p as int)) =~= Seq::<char>::empty());
        assert(out@ + Seq::<char>::empty() =~= out@);
    }
}

impl FieldWriter {
    /// Appends the text for the field's data in `data`.
    pub fn write(&self, out: &mut String, data: &[u8])
        requires
            self.accessor.get_defined(data@),
            !self.kind.is_float(),
        ensures
            final(out)@ == old(out)@ + render(self.kind, self.accessor.spec_get(data@)),
    {
        let d = self.accessor.get(data);
        match self.kind {
            WriteKind::U16 => write_ints(out, d, 2, false),
            WriteKind::S16 => write_ints(out, d, 2, true),
            WriteKind::U32 => write_ints(out, d, 4, false),
            WriteKind::S32 => write_ints(out, d, 4, true),
            WriteKind::U64 => write_ints(out, d, 8, false),
            WriteKind::S64 => write_ints(out, d, 8, true),
            WriteKind::Utf16Text => {
                let ghost before = out@;
                write_utf16(out, d);
                push_char(out, ' ');
                assert(out@ =~= before + (render_utf16(d@) + seq![' ']));
            },
            WriteKind::Utf8Text => {
                let ghost before = out@;
                write_bytes(out, d);
                push_char(out, ' ');
                assert(out@ =~= before + (render_bytes(d@) + seq![' ']));
            },
            WriteKind::Hex => write_hex(out, d),
            WriteKind::F32 => {},
            WriteKind::F64 => {},
        }
    }
}

fn write_kind(t: &str, loc: LocationType) -> (r: WriteKind)
    ensures
        r == write_kind_of(t@, loc),
{
    if str_eq(t, "u16") || str_eq(t, "unsigned short") {
        WriteKind::U16
    } else if str_eq(t, "s16") || str_eq(t, "short") {
        WriteKind::S16
    } else if str_eq(t, "u32") || str_eq(t, "unsigned int") {
        WriteKind::U32
    } else if str_eq(t, "s32") || str_eq(t, "int") {
        WriteKind::S32
    } else if str_eq(t, "u64") || str_eq(t, "unsigned long") {
        WriteKind::U64
    } else if str_eq(t, "s64") || str_eq(t, "long") {
        WriteKind::S64
    } else if str_eq(t, "float") {
        WriteKind::F32
    } else if str_eq(t, "double") {
        WriteKind::F64
    } else if str_eq(t, "char") || str_eq(t, "unsigned char") || str_eq(t, "string") || str_eq(
        t,
        "wstring",
    ) {
        if loc == LocationType::StaticUTF16String || str_eq(t, "wstring") {
            WriteKind::Utf16Text
        } else {
            WriteKind::Utf8Text
        }
    } else {
        WriteKind::Hex
    }
}

impl FieldWriter {
    /// Where the writer reads and how it renders.
    pub open spec fn model(&self) -> ((usize, usize, LocationType, Seq<FieldSkip>), WriteKind) {
        (
            (self.accessor.offset, self.accessor.size, self.accessor.location, self.accessor.skips@),
            self.kind,
        )
    }
}

/// The writer for the first field named `name`: where it reads and how it
/// renders; `None` when its data cannot be located.
pub open spec fn writer_model(fields: Seq<EventField>, name: Seq<char>) -> Option<
    ((usize, usize, LocationType, Seq<FieldSkip>), WriteKind),
> {
    match field_access(fields, name) {
        None => None,
        Some(p) => {
            let f = fields[find_named(fields, name)->0 as int];
            Some((p, write_kind_of(f.field_type@, f.location)))
        },
    }
}

/// A field name and the writer for its data.
pub struct FormatEntry {
    /// The name written before the data.
    pub name: String,
    /// Writes the data.
    pub writer: FieldWriter,
}

/// Writes every field of an event whose data can be located, each as its
/// name, `=`, and its data.
pub struct FormatWriter {
    /// The fields written, in order.
    pub entries: Vec<FormatEntry>,
}

/// Names of the first `k` of `fields` that have a writer, in order.
pub open spec fn write_names(fields: Seq<EventField>, k: nat) -> Seq<Seq<char>>
    decreases k,
{
    if k == 0 {
        Seq::empty()
    } else {
        let prev = write_names(fields, (k - 1) as nat);
        let nm = fields[k - 1].name@;
        if writer_model(fields, nm) is Some {
            prev.push(nm)
        } else {
            prev
        }
    }
}

/// The text written for `entries` over `data`.
pub open spec fn render_entries(entries: Seq<FormatEntry>, data: Seq<u8>) -> Seq<char>
    decreases entries.len(),
{
    if entries.len() == 0 {
        Seq::empty()
    } else {
        let e = entries.last();
        render_entries(entries.drop_last(), data) + e.name@ + seq!['='] + render(
            e.writer.kind,
            e.writer.accessor.spec_get(data),
        )
    }
}

impl FormatWriter {
    /// Every entry can be written for `data`.
    pub open spec fn writable(&self, data: Seq<u8>) -> bool {
        forall|i: int|
            0 <= i < self.entries@.len() ==> #[trigger] self.entries@[i].writer.accessor.get_defined(
                data,
            ) && !self.entries@[i].writer.kind.is_float()
    }

    /// Appends `name=` and the data of every entry, in order.
    pub fn write(&self, out: &mut String, data: &[u8])
        requires
            self.writable(data@),
        ensures
            final(out)@ == old(out)@ + render_entries(self.entries@, data@),
    {
        let mut i: usize = 0;
        assert(self.entries@.take(0) =~= Seq::<FormatEntry>::empty());
        assert(old(out)@ + Seq::<char>::empty() =~= old(out)@);
        while i < self.entries.len()
            invariant
                i <= self.entries@.len(),
                self.writable(data@),
                out@ == old(out)@ + render_entries(self.entries@.take(i as int), data@),
            decreases self.entries@.len() - i,
        {
            let e = &self.entries[i];
            let ghost before = out@;
            push_str(out, e.name.as_str());
            push_char(out, '=');
            assert(self.entries@[i as int].writer.accessor.get_defined(data@));
            e.writer.write(out, data);
            proof {
                let t = self.entries@.take(i + 1);
                assert(t.drop_last() =~= self.entries@.take(i as int));
                assert(t.last() == self.entries@[i as int]);
                assert(out@ =~= old(out)@ + render_entries(t, data@));
            }
            i += 1;
        }
        assert(self.entries@.take(i as int) =~= self.entries@);
    }
}

impl EventFormat {
    /// A writer for the data of the first field named `field_name`, when its
    /// place in the data can be determined: integers in decimal, text up to
    /// its terminator, anything else as hex bytes.
    pub fn try_get_field_write_closure(&self, field_name: &str) -> (r: Option<FieldWriter>)
        requires
            offsets_fit(self@, field_name@),
        ensures
            match writer_model(self@, field_name@) {
                None => r is None,
                Some(m) => r matches Some(w) && w.model() == m,
            },
    {
        let accessor = match self.try_get_field_data_closure(field_name) {
            Some(a) => a,
            None => {
                return None;
            },
        };
        let field = match self.get_field(field_name) {
            Some(f) => f,
            None => {
                return None;
            },
        };
        let kind = write_kind(field.field_type.as_str(), field.location);
        Some(FieldWriter { accessor, kind })
    }

    /// A writer for every field whose data can be located.
    pub fn get_write_closure(&self) -> (r: FormatWriter)
        requires
            forall|k: int| 0 <= k < self@.len() ==> offsets_fit(self@, #[trigger] self@[k].name@),
        ensures
            r.entries@.len() == write_names(self@, self@.len()).len(),
            forall|i: int|
                0 <= i < r.entries@.len() ==> {
                    let nm = write_names(self@, self@.len())[i];
                    &&& #[trigger] r.entries@[i].name@ == nm
                    &&& writer_model(self@, nm) == Some(r.entries@[i].writer.model())
                },
    {
        let fields = self.fields();
        let mut entries: Vec<FormatEntry> = Vec::new();
        let mut k: usize = 0;
        while k < fields.len()
            invariant
                fields@ == self@,
                k <= fields@.len(),
                forall|j: int| 0 <= j < self@.len() ==> offsets_fit(self@, #[trigger] self@[j].name@),
                entries@.len() == write_names(self@, k as nat).len(),
                forall|i: int|
                    0 <= i < entries@.len() ==> {
                        let nm = write_names(self@, k as nat)[i];
                        &&& #[trigger] entries@[i].name@ == nm
                        &&& writer_model(self@, nm) == Some(entries@[i].writer.model())
                    },
            decreases fields@.len() - k,
        {
            let field = &fields[k];
            let ghost prev = entries@;
            let ghost names = write_names(self@, k as nat);
            let ghost nm = self@[k as int].name@;
            match self.try_get_field_write_closure(field.name.as_str()) {
                Some(w) => {
                    let name = field.name.clone();
                    entries.push(FormatEntry { name, writer: w });
                    proof {
                        assert(write_names(self@, (k + 1) as nat) == names.push(nm));
                        assert forall|i: int| 0 <= i < entries@.len() implies {
                            let n2 = write_names(self@, (k + 1) as nat)[i];
                            &&& #[trigger] entries@[i].name@ == n2
                            &&& writer_model(self@, n2) == Some(entries@[i].writer.model())
                        } by {
                            if i < prev.len() {
                                assert(entries@[i] == prev[i]);
                            }
                        }
                    }
                },
                None => {
                    assert(write_names(self@, (k + 1) as nat) == names);
                },
            }
            k += 1;
        }
        FormatWriter { entries }
    }
}


/// For an integer type name, the bytes per value and whether values are
/// signed.
pub open spec fn integer_layout(t: Seq<char>) -> Option<(nat, bool)> {
    if t == "u16"@ || t == "unsigned short"@ {
        Some((2, false))
    } else if t == "s16"@ || t == "short"@ {
        Some((2, true))
    } else if t == "u32"@ || t == "unsigned int"@ {
        Some((4, false))
    } else if t == "s32"@ || t == "int"@ {
        Some((4, true))
    } else if t == "u64"@ || t == "unsigned long"@ {
        Some((8, false))
    } else if t == "s64"@ || t == "long"@ {
        Some((8, true))
    } else {
        None
    }
}

/// A field has a writer exactly when its data can be located, and the
/// writer of a field whose type names an integer appends, for each whole
/// group of the type's width among the field's bytes, the value in native
/// byte order as a decimal number and a space, in order; a partial group at
/// the end is skipped.
pub proof fn lemma_write_closure_renders_integers(
    fields: Seq<EventField>,
    name: Seq<char>,
    w: FieldWriter,
    data: Seq<u8>,
)
    ensures
        (writer_model(fields, name) is Some) == (field_access(fields, name) is Some),
        writer_model(fields, name) == Some(w.model()) ==> match integer_layout(
            fields[find_named(fields, name)->0 as int].field_type@,
        ) {
            Some(l) => render(w.kind, w.accessor.spec_get(data)) == render_ints(
                w.accessor.spec_get(data),
                l.0,
                l.1,
            ),
            None => true,
        },
{
}


/// What a field's writer appends, by the field's type: `char`,
/// `unsigned char` and `string` fields not laid out as UTF-16 are written as
/// their bytes up to the first zero, each as the character of that code,
/// then a space; `wstring` fields, and text fields laid out as UTF-16, as
/// their two-byte units up to the first zero unit, each as its character
/// (`?` for a surrogate), then a space; fields of any type that is neither
/// text, an integer of 2 to 8 bytes nor floating point, as each byte in hex
/// followed by a space.
pub proof fn lemma_write_closure_renders_by_type(
    fields: Seq<EventField>,
    name: Seq<char>,
    w: FieldWriter,
    d: Seq<u8>,
)
    requires
        writer_model(fields, name) == Some(w.model()),
    ensures
        ({
            let f = fields[find_named(fields, name)->0 as int];
            let t = f.field_type@;
            let text = t == "char"@ || t == "unsigned char"@ || t == "string"@ || t == "wstring"@;
            let wide = t == "wstring"@ || f.location == LocationType::StaticUTF16String;
            &&& text && !wide ==> render(w.kind, d) == render_bytes(d) + seq![' ']
            &&& text && wide ==> render(w.kind, d) == render_utf16(d) + seq![' ']
            &&& !text && integer_layout(t) is None && t != "float"@ && t != "double"@ ==> render(
                w.kind,
                d,
            ) == render_hex(d)
        }),
{
    reveal_strlit("u16");
    reveal_strlit("unsigned short");
    reveal_strlit("s16");
    reveal_strlit("short");
    reveal_strlit("u32");
    reveal_strlit("unsigned int");
    reveal_strlit("s32");
    reveal_strlit("int");
    reveal_strlit("u64");
    reveal_strlit("unsigned long");
    reveal_strlit("s64");
    reveal_strlit("long");
    reveal_strlit("float");
    reveal_strlit("double");
    reveal_strlit("char");
    reveal_strlit("unsigned char");
    reveal_strlit("string");
    reveal_strlit("wstring");
    assert("char"@[0] != "long"@[0]);
    assert("unsigned char"@[9] != "unsigned long"@[9]);
    assert("string"@[0] != "double"@[0]);
}

} // verus!
