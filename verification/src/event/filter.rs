//! Filters on field data: numeric comparisons and byte-string searches.

use crate::bytes::{
    lemma_ne_uint_single, lemma_nul16_len_bounds, lemma_nul_len_bounds, find_nul, find_nul16, ne_bytes, ne_uint,
    nul16_len, nul_len, read_ne_u16, read_ne_u32, read_ne_u64, u16_to_ne,
};
use crate::event::format::{
    field_access, find_named, offsets_fit, EventFormat, FieldDataAccessor,
};
use crate::text::{chars_of, parse_int, parse_int_bytes, str_eq};
use vstd::prelude::*;
use vstd::string::StringSliceAdditionalSpecFns;

verus! {

/// A comparison of a numeric field with a value.
#[derive(Debug, PartialEq, Eq, Structural, Clone, Copy)]
pub enum NumericOp {
    Gt,
    Ge,
    Lt,
    Le,
    Eq,
    Ne,
}

/// A test of a string field against a byte string.
#[derive(Debug, PartialEq, Eq, Structural, Clone, Copy)]
pub enum TextOp {
    Contains,
    NotContains,
    StartsWith,
    EndsWith,
    Equals,
    NotEquals,
}

/// What a filter checks of the field data.
pub enum FilterTest {
    /// The field holds exactly `width` bytes whose integer value, read in
    /// native byte order and as two's complement when `signed`, compares
    /// with `value` by `op`.
    Numeric { width: usize, signed: bool, relation: NumericOp, value: i128 },
    /// The field's bytes (up to a terminator, for some operations) relate
    /// to `bytes` by `op`; `utf16` selects two-byte terminators.
    Text { check: TextOp, bytes: Vec<u8>, utf16: bool },
}

/// The mathematical content of a [`FilterTest`].
pub enum TestModel {
    Numeric { width: nat, signed: bool, relation: NumericOp, value: int },
    Text { check: TextOp, bytes: Seq<u8>, utf16: bool },
}

impl FilterTest {
    pub open spec fn model(&self) -> TestModel {
        match self {
            FilterTest::Numeric { width, signed, relation, value } => TestModel::Numeric {
                width: *width as nat,
                signed: *signed,
                relation: *relation,
                value: *value as int,
            },
            FilterTest::Text { check, bytes, utf16 } => TestModel::Text {
                check: *check,
                bytes: bytes@,
                utf16: *utf16,
            },
        }
    }
}

/// A filter on the data of one field of an event.
pub struct FieldFilter {
    /// Finds the field data.
    pub accessor: FieldDataAccessor,
    /// What is checked of the field data.
    pub test: FilterTest,
}

/// Value of `u` read as a two's complement integer of `width` bytes.
pub open spec fn to_signed(u: nat, width: nat) -> int {
    if width == 1 {
        if u >= 0x80 {
            u - 0x100
        } else {
            u as int
        }
    } else if width == 2 {
        if u >= 0x8000 {
            u - 0x1_0000
        } else {
            u as int
        }
    } else if width == 4 {
        if u >= 0x8000_0000 {
            u - 0x1_0000_0000
        } else {
            u as int
        }
    } else {
        if u >= 0x8000_0000_0000_0000 {
            u - 0x1_0000_0000_0000_0000
        } else {
            u as int
        }
    }
}

pub open spec fn numeric_holds(op: NumericOp, lhs: int, rhs: int) -> bool {
    match op {
        NumericOp::Gt => lhs > rhs,
        NumericOp::Ge => lhs >= rhs,
        NumericOp::Lt => lhs < rhs,
        NumericOp::Le => lhs <= rhs,
        NumericOp::Eq => lhs == rhs,
        NumericOp::Ne => lhs != rhs,
    }
}

/// `pat` occurs in `d` at some position.
pub open spec fn occurs_in(d: Seq<u8>, pat: Seq<u8>) -> bool {
    exists|i: int| 0 <= i && i + pat.len() <= d.len() && #[trigger] d.subrange(i, i + pat.len()) == pat
}

/// `d` up to its terminator: the first zero byte, or for `utf16` the first
/// zero two-byte unit (all of `d` when there is none).
pub open spec fn trimmed(d: Seq<u8>, utf16: bool) -> Seq<u8> {
    if utf16 {
        if nul16_len(d) + 2 <= d.len() {
            d.take(nul16_len(d) as int)
        } else {
            d
        }
    } else {
        d.take(nul_len(d) as int)
    }
}

/// Whether the field data `d` passes the test `t`.
pub open spec fn test_holds(t: TestModel, d: Seq<u8>) -> bool {
    match t {
        TestModel::Numeric { width, signed, relation, value } => d.len() == width && {
            let u = ne_uint(d);
            let lhs = if signed {
                to_signed(u, width)
            } else {
                u as int
            };
            numeric_holds(relation, lhs, value)
        },
        TestModel::Text { check, bytes, utf16 } => match check {
            TextOp::Contains => occurs_in(d, bytes),
            TextOp::NotContains => !occurs_in(d, bytes),
            TextOp::StartsWith => bytes.len() <= d.len() && d.take(bytes.len() as int) == bytes,
            TextOp::EndsWith => {
                let s = trimmed(d, utf16);
                bytes.len() <= s.len() && s.skip(s.len() - bytes.len()) == bytes
            },
            TextOp::Equals => trimmed(d, utf16) == bytes,
            TextOp::NotEquals => trimmed(d, utf16) != bytes,
        },
    }
}

/// A test can be run: a substring search needs a non-empty pattern and a
/// numeric test a width of 1, 2, 4 or 8 bytes.
pub open spec fn test_runnable(t: TestModel) -> bool {
    match t {
        TestModel::Numeric { width, .. } => width == 1 || width == 2 || width == 4 || width == 8,
        TestModel::Text { check, bytes, .. } => (check == TextOp::Contains || check
            == TextOp::NotContains)
            ==> bytes.len() > 0,
    }
}

/// Type names whose `==` and `!=` compare text.
pub open spec fn is_text_type(t: Seq<char>) -> bool {
    t == "char"@ || t == "unsigned char"@ || t == "string"@ || t == "wstring"@ || t == "wchar"@
}

/// The operation used for field type `t`: `=` is `==`, and `==` and `!=`
/// on a text type mean `equals` and `not_equals`.
pub open spec fn effective_op(op: Seq<char>, t: Seq<char>) -> Seq<char> {
    if (op == "=="@ || op == "="@) && is_text_type(t) {
        "equals"@
    } else if op == "!="@ && is_text_type(t) {
        "not_equals"@
    } else if op == "="@ {
        "=="@
    } else {
        op
    }
}

pub open spec fn numeric_op_of(op: Seq<char>) -> Option<NumericOp> {
    if op == ">"@ {
        Some(NumericOp::Gt)
    } else if op == ">="@ {
        Some(NumericOp::Ge)
    } else if op == "<"@ {
        Some(NumericOp::Lt)
    } else if op == "<="@ {
        Some(NumericOp::Le)
    } else if op == "=="@ {
        Some(NumericOp::Eq)
    } else if op == "!="@ {
        Some(NumericOp::Ne)
    } else {
        None
    }
}

pub open spec fn text_op_of(op: Seq<char>) -> Option<TextOp> {
    if op == "contains"@ {
        Some(TextOp::Contains)
    } else if op == "not_contains"@ {
        Some(TextOp::NotContains)
    } else if op == "starts_with"@ {
        Some(TextOp::StartsWith)
    } else if op == "ends_with"@ {
        Some(TextOp::EndsWith)
    } else if op == "equals"@ {
        Some(TextOp::Equals)
    } else if op == "not_equals"@ {
        Some(TextOp::NotEquals)
    } else {
        None
    }
}

/// Width in bytes and signedness of the numeric type named `t`.
pub open spec fn numeric_type_of(t: Seq<char>) -> Option<(nat, bool)> {
    if t == "u8"@ {
        Some((1, false))
    } else if t == "s8"@ {
        Some((1, true))
    } else if t == "u16"@ || t == "unsigned short"@ {
        Some((2, false))
    } else if t == "s16"@ || t == "short"@ {
        Some((2, true))
    } else if t == "u32"@ || t == "unsigned int"@ {
        Some((4, false))
    } else if t == "s32"@ || t == "int"@ {
        Some((4, true))
    } else if t == "u64"@ || t == "unsigned long"@ {
        Some((8, false))
    } else if t == "s64"@ || t == "long"@ {
        Some((8, true))
    } else {
        None
    }
}

/// Smallest value of an integer type of `width` bytes.
pub open spec fn type_min(width: nat, signed: bool) -> int {
    if !signed {
        0
    } else if width == 1 {
        -0x80
    } else if width == 2 {
        -0x8000
    } else if width == 4 {
        -0x8000_0000
    } else {
        -0x8000_0000_0000_0000
    }
}

/// Largest value of an integer type of `width` bytes.
pub open spec fn type_max(width: nat, signed: bool) -> int {
    if width == 1 {
        if signed {
            0x7F
        } else {
            0xFF
        }
    } else if width == 2 {
        if signed {
            0x7FFF
        } else {
            0xFFFF
        }
    } else if width == 4 {
        if signed {
            0x7FFF_FFFF
        } else {
            0xFFFF_FFFF
        }
    } else {
        if signed {
            0x7FFF_FFFF_FFFF_FFFF
        } else {
            0xFFFF_FFFF_FFFF_FFFF
        }
    }
}

/// Each character as the native-order bytes of its code truncated to 16
/// bits.
pub open spec fn wide_bytes(cs: Seq<char>) -> Seq<u8>
    decreases cs.len(),
{
    if cs.len() == 0 {
        Seq::empty()
    } else {
        wide_bytes(cs.drop_last()) + ne_bytes((cs.last() as u32 as nat) % 0x10000, 2)
    }
}

/// The byte string a text filter on a field of type `t` compares with, and
/// whether the field holds UTF-16.
pub open spec fn text_bytes_of(t: Seq<char>, value: &str) -> Option<(Seq<u8>, bool)> {
    if t == "char"@ || t == "unsigned char"@ || t == "string"@ {
        Some((value.spec_bytes(), false))
    } else if t == "wchar"@ || t == "wstring"@ {
        Some((wide_bytes(value@), true))
    } else {
        None
    }
}

/// The test a filter with `op` and `value` applies to a field of type `t`.
pub open spec fn filter_test(t: Seq<char>, op: Seq<char>, value: &str) -> Option<TestModel> {
    let eop = effective_op(op, t);
    match numeric_op_of(eop) {
        Some(nop) => match numeric_type_of(t) {
            None => None,
            Some((w, sg)) => match parse_int(value.spec_bytes(), sg, type_min(w, sg), type_max(w, sg)) {
                None => None,
                Some(v) => Some(TestModel::Numeric { width: w, signed: sg, relation: nop, value: v }),
            },
        },
        None => match text_op_of(eop) {
            Some(top) => match text_bytes_of(t, value) {
                None => None,
                Some((b, u)) => Some(TestModel::Text { check: top, bytes: b, utf16: u }),
            },
            None => None,
        },
    }
}

fn numeric_op(op: &str) -> (r: Option<NumericOp>)
    ensures
        r == numeric_op_of(op@),
{
    if str_eq(op, ">") {
        Some(NumericOp::Gt)
    } else if str_eq(op, ">=") {
        Some(NumericOp::Ge)
    } else if str_eq(op, "<") {
        Some(NumericOp::Lt)
    } else if str_eq(op, "<=") {
        Some(NumericOp::Le)
    } else if str_eq(op, "==") {
        Some(NumericOp::Eq)
    } else if str_eq(op, "!=") {
        Some(NumericOp::Ne)
    } else {
        None
    }
}

fn text_op(op: &str) -> (r: Option<TextOp>)
    ensures
        r == text_op_of(op@),
{
    if str_eq(op, "contains") {
        Some(TextOp::Contains)
    } else if str_eq(op, "not_contains") {
        Some(TextOp::NotContains)
    } else if str_eq(op, "starts_with") {
        Some(TextOp::StartsWith)
    } else if str_eq(op, "ends_with") {
        Some(TextOp::EndsWith)
    } else if str_eq(op, "equals") {
        Some(TextOp::Equals)
    } else if str_eq(op, "not_equals") {
        Some(TextOp::NotEquals)
    } else {
        None
    }
}

fn numeric_type(t: &str) -> (r: Option<(usize, bool)>)
    ensures
        match numeric_type_of(t@) {
            Some((w, s)) => r == Some((w as usize, s)),
            None => r is None,
        },
{
    if str_eq(t, "u8") {
        Some((1, false))
    } else if str_eq(t, "s8") {
        Some((1, true))
    } else if str_eq(t, "u16") || str_eq(t, "unsigned short") {
        Some((2, false))
    } else if str_eq(t, "s16") || str_eq(t, "short") {
        Some((2, true))
    } else if str_eq(t, "u32") || str_eq(t, "unsigned int") {
        Some((4, false))
    } else if str_eq(t, "s32") || str_eq(t, "int") {
        Some((4, true))
    } else if str_eq(t, "u64") || str_eq(t, "unsigned long") {
        Some((8, false))
    } else if str_eq(t, "s64") || str_eq(t, "long") {
        Some((8, true))
    } else {
        None
    }
}

fn is_text(t: &str) -> (r: bool)
    ensures
        r == is_text_type(t@),
{
    str_eq(t, "char") || str_eq(t, "unsigned char") || str_eq(t, "string") || str_eq(t, "wstring")
        || str_eq(t, "wchar")
}

/// The operation as applied to a field of type `t`.
fn effective_operation<'a>(op: &'a str, t: &str) -> (r: &'a str)
    ensures
        r@ == effective_op(op@, t@),
{
    if (str_eq(op, "==") || str_eq(op, "=")) && is_text(t) {
        "equals"
    } else if str_eq(op, "!=") && is_text(t) {
        "not_equals"
    } else if str_eq(op, "=") {
        "=="
    } else {
        op
    }
}

fn type_bounds(width: usize, signed: bool) -> (r: (i128, i128))
    ensures
        r.0 == type_min(width as nat, signed),
        r.1 == type_max(width as nat, signed),
{
    let lo: i128 = if !signed {
        0
    } else if width == 1 {
        -0x80
    } else if width == 2 {
        -0x8000
    } else if width == 4 {
        -0x8000_0000
    } else {
        -0x8000_0000_0000_0000
    };
    let hi: i128 = if width == 1 {
        if signed {
            0x7F
        } else {
            0xFF
        }
    } else if width == 2 {
        if signed {
            0x7FFF
        } else {
            0xFFFF
        }
    } else if width == 4 {
        if signed {
            0x7FFF_FFFF
        } else {
            0xFFFF_FFFF
        }
    } else {
        if signed {
            0x7FFF_FFFF_FFFF_FFFF
        } else {
            0xFFFF_FFFF_FFFF_FFFF
        }
    };
    (lo, hi)
}

/// The native-order UTF-16 code unit bytes of `value`, each character
/// truncated to 16 bits.
fn wide_string_bytes(value: &str) -> (r: Vec<u8>)
    ensures
        r@ == wide_bytes(value@),
{
    let cs = chars_of(value);
    let mut out: Vec<u8> = Vec::new();
    let mut i: usize = 0;
    assert(cs@.take(0) =~= Seq::<char>::empty());
    while i < cs.len()
        invariant
            i <= cs@.len(),
            cs@ == value@,
            out@ == wide_bytes(cs@.take(i as int)),
        decreases cs@.len() - i,
    {
        let c = cs[i];
        let unit = ((c as u32) % 0x10000) as u16;
        let b = u16_to_ne(unit);
        out.push(b[0]);
        out.push(b[1]);
        proof {
            crate::bytes::lemma_ne_bytes_len(unit as nat, 2);
            assert(cs@.take(i + 1).drop_last() =~= cs@.take(i as int));
            assert(cs@.take(i + 1).last() == c);
            assert(out@ =~= wide_bytes(cs@.take(i as int)) + b@);
        }
        i += 1;
    }
    assert(cs@.take(i as int) =~= cs@);
    out
}

fn utf8_bytes(value: &str) -> (r: Vec<u8>)
    ensures
        r@ == value.spec_bytes(),
{
    let b = value.as_bytes();
    let mut out: Vec<u8> = Vec::new();
    let mut i: usize = 0;
    while i < b.len()
        invariant
            i <= b@.len(),
            out@ == b@.take(i as int),
        decreases b@.len() - i,
    {
        out.push(b[i]);
        i += 1;
        assert(out@ =~= b@.take(i as int));
    }
    assert(b@.take(i as int) =~= b@);
    out
}

/// Whether `pat` occurs in `d` at position `at`.
fn window_eq(d: &[u8], at: usize, pat: &[u8]) -> (r: bool)
    requires
        at + pat@.len() <= d@.len(),
    ensures
        r == (d@.subrange(at as int, at + pat@.len()) == pat@),
{
    let n = d.len();
    let mut j: usize = 0;
    while j < pat.len()
        invariant
            n == d@.len(),
            at + pat@.len() <= n,
            j <= pat@.len(),
            forall|k: int| 0 <= k < j ==> d@[at + k] == pat@[k],
        decreases pat@.len() - j,
    {
        if d[at + j] != pat[j] {
            assert(d@.subrange(at as int, at + pat@.len())[j as int] != pat@[j as int]);
            return false;
        }
        j += 1;
    }
    assert(d@.subrange(at as int, at + pat@.len()) =~= pat@);
    true
}

fn occurs(d: &[u8], pat: &[u8]) -> (r: bool)
    requires
        pat@.len() > 0,
    ensures
        r == occurs_in(d@, pat@),
{
    if pat.len() > d.len() {
        return false;
    }
    let n = d.len();
    let last = n - pat.len();
    let mut i: usize = 0;
    while i <= last
        invariant
            n == d@.len(),
            last + pat@.len() == d@.len(),
            pat@.len() > 0,
            i <= last + 1,
            forall|k: int| 0 <= k < i ==> #[trigger] d@.subrange(k, k + pat@.len()) != pat@,
        decreases last + 1 - i,
    {
        if window_eq(d, i, pat) {
            return true;
        }
        i += 1;
    }
    assert forall|k: int| 0 <= k && k + pat@.len() <= d@.len() implies #[trigger] d@.subrange(
        k,
        k + pat@.len(),
    ) != pat@ by {
        assert(k < i);
    }
    false
}

fn trim_to(d: &[u8], utf16: bool) -> (r: &[u8])
    ensures
        r@ == trimmed(d@, utf16),
{
    if utf16 {
        let n = find_nul16(d);
        proof {
            lemma_nul16_len_bounds(d@);
        }
        if d.len() - n >= 2 {
            let r = &d[0..n];
            assert(r@ =~= d@.take(n as int));
            r
        } else {
            d
        }
    } else {
        let n = find_nul(d);
        proof {
            lemma_nul_len_bounds(d@);
        }
        let r = &d[0..n];
        assert(r@ =~= d@.take(n as int));
        r
    }
}

fn bytes_eq(a: &[u8], b: &[u8]) -> (r: bool)
    ensures
        r == (a@ == b@),
{
    if a.len() != b.len() {
        return false;
    }
    let r = window_eq(a, 0, b);
    assert(a@.subrange(0, b@.len() as int) =~= a@);
    r
}

impl FieldFilter {
    /// The filter can be applied to `data`.
    pub open spec fn runnable(&self, data: Seq<u8>) -> bool {
        self.accessor.get_defined(data) && test_runnable(self.test.model())
    }

    /// Applies the filter to event data.
    pub fn matches(&self, data: &[u8]) -> (r: bool)
        requires
            self.runnable(data@),
        ensures
            r == test_holds(self.test.model(), self.accessor.spec_get(data@)),
    {
        let d = self.accessor.get(data);
        match &self.test {
            FilterTest::Numeric { width, signed, relation, value } => {
                let width = *width;
                if d.len() != width {
                    return false;
                }
                let u: u64 = if width == 1 {
                    proof {
                        lemma_ne_uint_single(d@);
                    }
                    d[0] as u64
                } else if width == 2 {
                    assert(d@.subrange(0, 2) =~= d@);
                    read_ne_u16(d, 0) as u64
                } else if width == 4 {
                    assert(d@.subrange(0, 4) =~= d@);
                    read_ne_u32(d, 0) as u64
                } else {
                    assert(d@.subrange(0, 8) =~= d@);
                    read_ne_u64(d, 0)
                };
                let lhs: i128 = if *signed {
                    if width == 1 {
                        if u >= 0x80 {
                            u as i128 - 0x100
                        } else {
                            u as i128
                        }
                    } else if width == 2 {
                        if u >= 0x8000 {
                            u as i128 - 0x1_0000
                        } else {
                            u as i128
                        }
                    } else if width == 4 {
                        if u >= 0x8000_0000 {
                            u as i128 - 0x1_0000_0000
                        } else {
                            u as i128
                        }
                    } else {
                        if u >= 0x8000_0000_0000_0000 {
                            u as i128 - 0x1_0000_0000_0000_0000
                        } else {
                            u as i128
                        }
                    }
                } else {
                    u as i128
                };
                let rhs = *value;
                match relation {
                    NumericOp::Gt => lhs > rhs,
                    NumericOp::Ge => lhs >= rhs,
                    NumericOp::Lt => lhs < rhs,
                    NumericOp::Le => lhs <= rhs,
                    NumericOp::Eq => lhs == rhs,
                    NumericOp::Ne => lhs != rhs,
                }
            },
            FilterTest::Text { check, bytes, utf16 } => {
                let pat = bytes.as_slice();
                match check {
                    TextOp::Contains => occurs(d, pat),
                    TextOp::NotContains => !occurs(d, pat),
                    TextOp::StartsWith => {
                        if pat.len() > d.len() {
                            false
                        } else {
                            let r = window_eq(d, 0, pat);
                            assert(d@.subrange(0, pat@.len() as int) =~= d@.take(
                                pat@.len() as int,
                            ));
                            r
                        }
                    },
                    TextOp::EndsWith => {
                        let s = trim_to(d, *utf16);
                        if pat.len() > s.len() {
                            false
                        } else {
                            let at = s.len() - pat.len();
                            let r = window_eq(s, at, pat);
                            assert(s@.subrange(at as int, at + pat@.len()) =~= s@.skip(
                                at as int,
                            ));
                            r
                        }
                    },
                    TextOp::Equals => bytes_eq(trim_to(d, *utf16), pat),
                    TextOp::NotEquals => !bytes_eq(trim_to(d, *utf16), pat),
                }
            },
        }
    }
}

impl EventFormat {
    /// A filter on the first field named `field_name`: numeric fields
    /// (`u8`/`s8`, `u16`/`s16`/`short`, `u32`/`s32`/`int`, `u64`/`s64`/`long`
    /// and their `unsigned` spellings) take `=` or `==`, `!=`, `>`, `>=`,
    /// `<` and `<=` with a value of their type; text fields (`char`,
    /// `unsigned char`, `string`, `wchar`, `wstring`) take `=` or `==`,
    /// `!=`, `equals`,
    /// `not_equals`, `contains`, `not_contains`, `starts_with` and
    /// `ends_with`, case sensitively. `None` for any other combination, or
    /// when the field's place in the data cannot be determined.
    pub fn try_get_field_filter_closure(
        &self,
        field_name: &str,
        operation: &str,
        value: &str,
    ) -> (r: Option<FieldFilter>)
        requires
            offsets_fit(self@, field_name@),
        ensures
            match field_access(self@, field_name@) {
                None => r is None,
                Some(p) => match filter_test(
                    self@[find_named(self@, field_name@)->0 as int].field_type@,
                    operation@,
                    value,
                ) {
                    None => r is None,
                    Some(t) => r matches Some(f) && f.accessor.offset == p.0 && f.accessor.size
                        == p.1 && f.accessor.location == p.2 && f.accessor.skips@ == p.3
                        && f.test.model() == t,
                },
            },
    {
        let accessor = match self.try_get_field_data_closure(field_name) {
            Some(a) => a,
            None => {
                return None;
            },
        };
        let field = match self.get_field(field_name) {
            Some(f) => f,
            None => {
                return None;
            },
        };
        let t = field.field_type.as_str();
        let op = effective_operation(operation, t);
        if let Some(nop) = numeric_op(op) {
            let (width, signed) = match numeric_type(t) {
                Some(ws) => ws,
                None => {
                    return None;
                },
            };
            let (lo, hi) = type_bounds(width, signed);
            match parse_int_bytes(value.as_bytes(), signed, lo, hi) {
                Some(v) => {
                    return Some(
                        FieldFilter {
                            accessor,
                            test: FilterTest::Numeric { width, signed, relation: nop, value: v },
                        },
                    );
                },
                None => {
                    return None;
                },
            }
        }
        if let Some(top) = text_op(op) {
            if str_eq(t, "char") || str_eq(t, "unsigned char") || str_eq(t, "string") {
                let bytes = utf8_bytes(value);
                return Some(
                    FieldFilter { accessor, test: FilterTest::Text { check: top, bytes, utf16: false } },
                );
            } else if str_eq(t, "wchar") || str_eq(t, "wstring") {
                let bytes = wide_string_bytes(value);
                return Some(
                    FieldFilter { accessor, test: FilterTest::Text { check: top, bytes, utf16: true } },
                );
            } else {
                return None;
            }
        }
        None
    }
}

/// On the same field data and value, `==` and `!=`, `<` and `>=`, and `>`
/// and `<=` never agree when the data has the field's width, and neither
/// do `contains` and `not_contains` or `equals` and `not_equals`; `>=` is
/// `>` or `==`.
pub proof fn lemma_filter_complements(
    width: nat,
    signed: bool,
    value: int,
    bytes: Seq<u8>,
    utf16: bool,
    d: Seq<u8>,
)
    requires
        d.len() == width,
    ensures
        ({
            let num = |op: NumericOp|
                test_holds(TestModel::Numeric { width, signed, relation: op, value }, d);
            let txt = |op: TextOp| test_holds(TestModel::Text { check: op, bytes, utf16 }, d);
            &&& num(NumericOp::Eq) == !num(NumericOp::Ne)
            &&& num(NumericOp::Lt) == !num(NumericOp::Ge)
            &&& num(NumericOp::Gt) == !num(NumericOp::Le)
            &&& num(NumericOp::Ge) == (num(NumericOp::Gt) || num(NumericOp::Eq))
            &&& txt(TextOp::Contains) == !txt(TextOp::NotContains)
            &&& txt(TextOp::Equals) == !txt(TextOp::NotEquals)
        }),
{
}


/// On a text field, `==` and `=` hold exactly when the field's bytes before
/// the terminator are the bytes of the value (each character as two
/// native-order bytes for wide text), and `!=` exactly when they are not: the
/// whole text is compared, not a part of it, and `==` and `!=` never agree.
pub proof fn lemma_text_equality_filters(t: Seq<char>, value: &str, d: Seq<u8>)
    requires
        is_text_type(t),
    ensures
        ({
            let narrow = t == "char"@ || t == "unsigned char"@ || t == "string"@;
            let field_text = if narrow {
                d.take(crate::bytes::nul_len(d) as int)
            } else if crate::bytes::nul16_len(d) + 2 <= d.len() {
                d.take(crate::bytes::nul16_len(d) as int)
            } else {
                d
            };
            let value_bytes = if narrow {
                value.spec_bytes()
            } else {
                wide_bytes(value@)
            };
            &&& filter_test(t, "=="@, value) matches Some(eq) && test_holds(eq, d) == (field_text
                == value_bytes)
            &&& filter_test(t, "="@, value) matches Some(eq) && test_holds(eq, d) == (field_text
                == value_bytes)
            &&& filter_test(t, "!="@, value) matches Some(ne) && test_holds(ne, d) == (field_text
                != value_bytes)
        }),
{
    reveal_strlit("==");
    reveal_strlit("=");
    reveal_strlit("!=");
    reveal_strlit("equals");
    reveal_strlit("not_equals");
    reveal_strlit(">");
    reveal_strlit(">=");
    reveal_strlit("<");
    reveal_strlit("<=");
    reveal_strlit("char");
    reveal_strlit("unsigned char");
    reveal_strlit("string");
    reveal_strlit("wstring");
    reveal_strlit("wchar");
    reveal_strlit("contains");
    reveal_strlit("not_contains");
    reveal_strlit("starts_with");
    reveal_strlit("ends_with");
    assert("!="@[0] != "=="@[0]);
    assert("!="@ != "=="@);
    assert("equals"@.len() == 6 && "not_equals"@.len() == 10);
    assert(numeric_op_of("equals"@) is None);
    assert(numeric_op_of("not_equals"@) is None);
    assert(text_op_of("equals"@) == Some(TextOp::Equals));
    assert(text_op_of("not_equals"@) == Some(TextOp::NotEquals));
    assert(text_bytes_of(t, value) is Some);
}


/// Whether field data `d` passes the filter with `op` and `value` on a field
/// of type `t`; `None` when no such filter can be built.
pub open spec fn filter_outcome(t: Seq<char>, op: Seq<char>, value: &str, d: Seq<u8>) -> Option<bool> {
    match filter_test(t, op, value) {
        Some(x) => Some(test_holds(x, d)),
        None => None,
    }
}

/// On a field of an integer type, a filter can be built exactly when the
/// value is a number in the type's range, and it then compares the field's
/// value (its bytes read in native order, as two's complement for a signed
/// type) with that number as the operation says: `>`, `>=`, `<`, `<=`,
/// `==` or `=`, and `!=`; data of another length than the type's never
/// passes.
pub proof fn lemma_numeric_filters(t: Seq<char>, value: &str, d: Seq<u8>)
    requires
        numeric_type_of(t) is Some,
    ensures
        ({
            let layout = numeric_type_of(t)->0;
            let w = layout.0;
            let sg = layout.1;
            let x = if sg {
                to_signed(ne_uint(d), w)
            } else {
                ne_uint(d) as int
            };
            let fits = d.len() == w;
            match parse_int(value.spec_bytes(), sg, type_min(w, sg), type_max(w, sg)) {
                None => {
                    &&& filter_outcome(t, ">"@, value, d) is None
                    &&& filter_outcome(t, ">="@, value, d) is None
                    &&& filter_outcome(t, "<"@, value, d) is None
                    &&& filter_outcome(t, "<="@, value, d) is None
                    &&& filter_outcome(t, "=="@, value, d) is None
                    &&& filter_outcome(t, "="@, value, d) is None
                    &&& filter_outcome(t, "!="@, value, d) is None
                },
                Some(v) => {
                    &&& filter_outcome(t, ">"@, value, d) == Some(fits && x > v)
                    &&& filter_outcome(t, ">="@, value, d) == Some(fits && x >= v)
                    &&& filter_outcome(t, "<"@, value, d) == Some(fits && x < v)
                    &&& filter_outcome(t, "<="@, value, d) == Some(fits && x <= v)
                    &&& filter_outcome(t, "=="@, value, d) == Some(fits && x == v)
                    &&& filter_outcome(t, "="@, value, d) == Some(fits && x == v)
                    &&& filter_outcome(t, "!="@, value, d) == Some(fits && x != v)
                },
            }
        }),
{
    reveal_strlit("==");
    reveal_strlit("=");
    reveal_strlit("!=");
    reveal_strlit(">");
    reveal_strlit(">=");
    reveal_strlit("<");
    reveal_strlit("<=");
    reveal_strlit("char");
    reveal_strlit("unsigned char");
    reveal_strlit("string");
    reveal_strlit("wstring");
    reveal_strlit("wchar");
    reveal_strlit("u8");
    reveal_strlit("s8");
    reveal_strlit("u16");
    reveal_strlit("s16");
    reveal_strlit("u32");
    reveal_strlit("s32");
    reveal_strlit("u64");
    reveal_strlit("s64");
    reveal_strlit("unsigned short");
    reveal_strlit("short");
    reveal_strlit("unsigned int");
    reveal_strlit("int");
    reveal_strlit("unsigned long");
    reveal_strlit("long");
    assert("char"@[0] != "long"@[0]);
    assert("wchar"@[0] != "short"@[0]);
    assert("unsigned char"@[9] != "unsigned long"@[9]);
    assert(">"@.len() == 1 && "<"@.len() == 1 && "="@.len() == 1);
    assert(">="@.len() == 2 && "<="@.len() == 2 && "=="@.len() == 2 && "!="@.len() == 2);
    lemma_text_names_not_numeric();
    assert(!is_text_type(t));
    assert(">"@[0] != "<"@[0] && ">"@[0] != "="@[0] && "<"@[0] != "="@[0]);
    assert(">="@[0] != "<="@[0] && ">="@[0] != "=="@[0] && ">="@[0] != "!="@[0]);
    assert("<="@[0] != "=="@[0] && "<="@[0] != "!="@[0] && "=="@[0] != "!="@[0]);
    assert(numeric_op_of(">"@) == Some(NumericOp::Gt));
    assert(numeric_op_of(">="@) == Some(NumericOp::Ge));
    assert(numeric_op_of("<"@) == Some(NumericOp::Lt));
    assert(numeric_op_of("<="@) == Some(NumericOp::Le));
    assert(numeric_op_of("=="@) == Some(NumericOp::Eq));
    assert(numeric_op_of("!="@) == Some(NumericOp::Ne));
}


/// No text type name is an integer type name.
proof fn lemma_text_names_not_numeric()
    ensures
        numeric_type_of("char"@) is None,
        numeric_type_of("unsigned char"@) is None,
        numeric_type_of("string"@) is None,
        numeric_type_of("wstring"@) is None,
        numeric_type_of("wchar"@) is None,
{
    reveal_strlit("char");
    reveal_strlit("unsigned char");
    reveal_strlit("string");
    reveal_strlit("wstring");
    reveal_strlit("wchar");
    reveal_strlit("u8");
    reveal_strlit("s8");
    reveal_strlit("u16");
    reveal_strlit("s16");
    reveal_strlit("u32");
    reveal_strlit("s32");
    reveal_strlit("u64");
    reveal_strlit("s64");
    reveal_strlit("unsigned short");
    reveal_strlit("short");
    reveal_strlit("unsigned int");
    reveal_strlit("int");
    reveal_strlit("unsigned long");
    reveal_strlit("long");
    assert("char"@[0] != "long"@[0]);
    assert("wchar"@[0] != "short"@[0]);
    assert("unsigned char"@[9] != "unsigned long"@[9]);
    assert("unsigned char"@.len() != "u8"@.len());
    assert("unsigned char"@ != "u8"@);
    assert("unsigned char"@.len() != "s8"@.len());
    assert("unsigned char"@ != "s8"@);
    assert("unsigned char"@.len() != "u16"@.len());
    assert("unsigned char"@ != "u16"@);
    assert("unsigned char"@.len() != "unsigned short"@.len());
    assert("unsigned char"@ != "unsigned short"@);
    assert("unsigned char"@.len() != "s16"@.len());
    assert("unsigned char"@ != "s16"@);
    assert("unsigned char"@.len() != "short"@.len());
    assert("unsigned char"@ != "short"@);
    assert("unsigned char"@.len() != "u32"@.len());
    assert("unsigned char"@ != "u32"@);
    assert("unsigned char"@.len() != "unsigned int"@.len());
    assert("unsigned char"@ != "unsigned int"@);
    assert("unsigned char"@.len() != "s32"@.len());
    assert("unsigned char"@ != "s32"@);
    assert("unsigned char"@.len() != "int"@.len());
    assert("unsigned char"@ != "int"@);
    assert("unsigned char"@.len() != "u64"@.len());
    assert("unsigned char"@ != "u64"@);
    assert("unsigned char"@[9] != "unsigned long"@[9]);
    assert("unsigned char"@ != "unsigned long"@);
    assert("unsigned char"@.len() != "s64"@.len());
    assert("unsigned char"@ != "s64"@);
    assert("unsigned char"@.len() != "long"@.len());
    assert("unsigned char"@ != "long"@);
    assert("string"@.len() != "u8"@.len());
    assert("string"@ != "u8"@);
    assert("string"@.len() != "s8"@.len());
    assert("string"@ != "s8"@);
    assert("string"@.len() != "u16"@.len());
    assert("string"@ != "u16"@);
    assert("string"@.len() != "unsigned short"@.len());
    assert("string"@ != "unsigned short"@);
    assert("string"@.len() != "s16"@.len());
    assert("string"@ != "s16"@);
    assert("string"@.len() != "short"@.len());
    assert("string"@ != "short"@);
    assert("string"@.len() != "u32"@.len());
    assert("string"@ != "u32"@);
    assert("string"@.len() != "unsigned int"@.len());
    assert("string"@ != "unsigned int"@);
    assert("string"@.len() != "s32"@.len());
    assert("string"@ != "s32"@);
    assert("string"@.len() != "int"@.len());
    assert("string"@ != "int"@);
    assert("string"@.len() != "u64"@.len());
    assert("string"@ != "u64"@);
    assert("string"@.len() != "unsigned long"@.len());
    assert("string"@ != "unsigned long"@);
    assert("string"@.len() != "s64"@.len());
    assert("string"@ != "s64"@);
    assert("string"@.len() != "long"@.len());
    assert("string"@ != "long"@);
}

} // verus!
