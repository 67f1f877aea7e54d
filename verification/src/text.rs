//! Text helpers: string comparison, whitespace tokens, decimal and hex
//! rendering, decimal parsing and the character conversions the event
//! formats need.

use vstd::prelude::*;
use vstd::utf8::*;

verus! {

broadcast use vstd::utf8::group_utf8_lib;

/// `String::push`: appends one character.
#[verifier::external_body]
pub(crate) fn push_char(s: &mut String, c: char)
    ensures
        final(s)@ == old(s)@.push(c),
{
    s.push(c);
}

/// `char::from_u32`: the documentation says it returns `Some` exactly for
/// Unicode scalar values, holding the character with that value.
#[verifier::external_body]
pub(crate) fn char_from_u32(v: u32) -> (r: Option<char>)
    ensures
        r == (if is_scalar(v) {
            Some(v as char)
        } else {
            None
        }),
{
    char::from_u32(v)
}

/// `std::str::from_utf8`: the documentation says it succeeds exactly on valid
/// UTF-8, and the string then holds the decoded characters.
#[verifier::external_body]
pub(crate) fn utf8_str(b: &[u8]) -> (r: Option<&str>)
    ensures
        r is Some <==> valid_utf8(b@),
        r matches Some(s) ==> s@ == decode_utf8(b@),
{
    std::str::from_utf8(b).ok()
}

pub open spec fn is_high_surrogate(u: u16) -> bool {
    0xD800 <= u <= 0xDBFF
}

pub open spec fn is_low_surrogate(u: u16) -> bool {
    0xDC00 <= u <= 0xDFFF
}

/// UTF-16 decoding in which every unpaired surrogate becomes U+FFFD.
pub open spec fn utf16_lossy_chars(u: Seq<u16>) -> Seq<char>
    decreases u.len(),
{
    if u.len() == 0 {
        Seq::empty()
    } else if is_high_surrogate(u[0]) && u.len() >= 2 && is_low_surrogate(u[1]) {
        let c = 0x10000 + (u[0] - 0xD800) * 0x400 + (u[1] - 0xDC00);
        seq![c as char] + utf16_lossy_chars(u.skip(2))
    } else if is_high_surrogate(u[0]) || is_low_surrogate(u[0]) {
        seq!['\u{FFFD}'] + utf16_lossy_chars(u.drop_first())
    } else {
        seq![u[0] as char] + utf16_lossy_chars(u.drop_first())
    }
}

/// `String::from_utf16_lossy`: the documentation says it decodes UTF-16 and
/// replaces invalid data with U+FFFD; claimed here as `utf16_lossy_chars`.
#[verifier::external_body]
pub(crate) fn utf16_lossy(units: &[u16]) -> (s: String)
    ensures
        s@ == utf16_lossy_chars(units@),
{
    String::from_utf16_lossy(units)
}

/// Equality of two strings, decided on their UTF-8 bytes.
pub fn str_eq(a: &str, b: &str) -> (r: bool)
    ensures
        r == (a@ == b@),
{
    let x = a.as_bytes();
    let y = b.as_bytes();
    proof {
        encode_utf8_decode_utf8(a@);
        encode_utf8_decode_utf8(b@);
    }
    if x.len() != y.len() {
        assert(x@.len() != y@.len());
        return false;
    }
    let mut i: usize = 0;
    while i < x.len()
        invariant
            x@.len() == y@.len(),
            i <= x@.len(),
            x@ == encode_utf8(a@),
            y@ == encode_utf8(b@),
            forall|j: int| 0 <= j < i ==> x@[j] == y@[j],
        decreases x@.len() - i,
    {
        if x[i] != y[i] {
            assert(x@[i as int] != y@[i as int]);
            assert(x@ != y@);
            return false;
        }
        i += 1;
    }
    assert(x@ =~= y@);
    proof {
        encode_utf8_decode_utf8(a@);
        encode_utf8_decode_utf8(b@);
    }
    true
}

/// The characters of `s`.
pub fn chars_of(s: &str) -> (v: Vec<char>)
    ensures
        v@ == s@,
{
    let mut v: Vec<char> = Vec::new();
    for c in it: s.chars()
        invariant
            v@ == it.seq().take(it.index() as int),
            it.seq() == s@,
    {
        v.push(c);
    }
    v
}

/// `char::is_whitespace`: the characters with the Unicode White_Space
/// property.
pub open spec fn is_ws(c: char) -> bool {
    let v = c as u32;
    ||| 0x09 <= v <= 0x0D
    ||| v == 0x20
    ||| v == 0x85
    ||| v == 0xA0
    ||| v == 0x1680
    ||| 0x2000 <= v <= 0x200A
    ||| v == 0x2028
    ||| v == 0x2029
    ||| v == 0x202F
    ||| v == 0x205F
    ||| v == 0x3000
}

pub fn char_is_ws(c: char) -> (r: bool)
    ensures
        r == is_ws(c),
{
    let v = c as u32;
    (0x09 <= v && v <= 0x0D) || v == 0x20 || v == 0x85 || v == 0xA0 || v == 0x1680 || (0x2000
        <= v && v <= 0x200A) || v == 0x2028 || v == 0x2029 || v == 0x202F || v == 0x205F || v
        == 0x3000
}

/// Length of the run of non-whitespace characters that starts `s`.
pub open spec fn word_len(s: Seq<char>) -> nat
    decreases s.len(),
{
    if s.len() == 0 || is_ws(s[0]) {
        0
    } else {
        1 + word_len(s.drop_first())
    }
}

/// The maximal runs of non-whitespace characters of `s`, in order, as
/// `str::split_whitespace` yields them.
pub open spec fn tokens(s: Seq<char>) -> Seq<Seq<char>>
    decreases s.len(),
{
    if s.len() == 0 {
        Seq::empty()
    } else if is_ws(s[0]) {
        tokens(s.drop_first())
    } else {
        let n = word_len(s);
        proof {
            lemma_word_len_pos(s);
        }
        seq![s.take(n as int)] + tokens(s.skip(n as int))
    }
}

pub proof fn lemma_word_len_pos(s: Seq<char>)
    ensures
        word_len(s) <= s.len(),
        s.len() > 0 && !is_ws(s[0]) ==> word_len(s) > 0,
        forall|j: int| 0 <= j < word_len(s) ==> !is_ws(#[trigger] s[j]),
        word_len(s) < s.len() ==> is_ws(s[word_len(s) as int]),
    decreases s.len(),
{
    if s.len() > 0 && !is_ws(s[0]) {
        lemma_word_len_pos(s.drop_first());
        assert forall|j: int| 0 <= j < word_len(s) implies !is_ws(#[trigger] s[j]) by {
            if j > 0 {
                assert(s[j] == s.drop_first()[j - 1]);
            }
        }
    }
}

proof fn lemma_word_len_at(s: Seq<char>, i: int)
    requires
        0 <= i <= s.len(),
        forall|j: int| 0 <= j < i ==> !is_ws(#[trigger] s[j]),
        i == s.len() || is_ws(s[i]),
    ensures
        word_len(s) == i,
    decreases i,
{
    if i > 0 {
        assert forall|j: int| 0 <= j < i - 1 implies !is_ws(#[trigger] s.drop_first()[j]) by {
            assert(s.drop_first()[j] == s[j + 1]);
        }
        lemma_word_len_at(s.drop_first(), i - 1);
    }
}

/// The whitespace-separated tokens of `s`, as `str::split_whitespace` yields
/// them.
pub fn split_tokens(s: &str) -> (r: Vec<Vec<char>>)
    ensures
        r@.map_values(|t: Vec<char>| t@) == tokens(s@),
{
    let cs = chars_of(s);
    let n = cs.len();
    let mut out: Vec<Vec<char>> = Vec::new();
    let mut i: usize = 0;
    assert(cs@.skip(0) =~= cs@);
    while i < n
        invariant
            n == cs@.len(),
            cs@ == s@,
            i <= n,
            tokens(s@) == out@.map_values(|t: Vec<char>| t@) + tokens(cs@.skip(i as int)),
        decreases n - i,
    {
        let start = i;
        if char_is_ws(cs[i]) {
            proof {
                assert(cs@.skip(i as int).drop_first() =~= cs@.skip(i + 1));
                assert(cs@.skip(i as int)[0] == cs@[i as int]);
            }
            i += 1;
        } else {
            let mut word: Vec<char> = Vec::new();
            while i < n && !char_is_ws(cs[i])
                invariant
                    n == cs@.len(),
                    start <= i <= n,
                    word@ == cs@.subrange(start as int, i as int),
                    forall|j: int| start <= j < i ==> !is_ws(#[trigger] cs@[j]),
                decreases n - i,
            {
                word.push(cs[i]);
                i += 1;
            }
            proof {
                let rest = cs@.skip(start as int);
                assert forall|j: int| 0 <= j < i - start implies !is_ws(#[trigger] rest[j]) by {
                    assert(rest[j] == cs@[start + j]);
                }
                if i < n {
                    assert(rest[i - start] == cs@[i as int]);
                }
                lemma_word_len_at(rest, i - start);
                assert(rest[0] == cs@[start as int]);
                assert(rest.take(i - start) =~= word@);
                assert(rest.skip(i - start) =~= cs@.skip(i as int));
                assert(tokens(rest) == seq![word@] + tokens(cs@.skip(i as int)));
            }
            let ghost prev = out@;
            out.push(word);
            proof {
                assert(out@.map_values(|t: Vec<char>| t@) =~= prev.map_values(|t: Vec<char>| t@)
                    + seq![out@.last()@]);
            }
        }
    }
    proof {
        assert(cs@.skip(n as int) =~= Seq::<char>::empty());
        assert(tokens(Seq::<char>::empty()) =~= Seq::<Seq<char>>::empty());
        assert(out@.map_values(|t: Vec<char>| t@) + Seq::<Seq<char>>::empty() =~= out@.map_values(
            |t: Vec<char>| t@,
        ));
    }
    out
}

/// Compares a character vector with a string.
pub fn chars_eq_str(a: &Vec<char>, b: &str) -> (r: bool)
    ensures
        r == (a@ == b@),
{
    let bc = chars_of(b);
    if a.len() != bc.len() {
        assert(a@.len() != bc@.len());
        return false;
    }
    let mut i: usize = 0;
    while i < a.len()
        invariant
            a@.len() == bc@.len(),
            bc@ == b@,
            i <= a@.len(),
            forall|j: int| 0 <= j < i ==> a@[j] == bc@[j],
        decreases a@.len() - i,
    {
        if a[i] != bc[i] {
            assert(a@[i as int] != bc@[i as int]);
            return false;
        }
        i += 1;
    }
    assert(a@ =~= bc@);
    true
}

/// The decimal digit character for `d < 10`.
pub open spec fn digit_char(d: nat) -> char {
    (48 + d) as char
}

/// Decimal representation of `n` without leading zeros, as `Display` writes
/// an unsigned integer.
pub open spec fn decimal(n: nat) -> Seq<char>
    decreases n,
{
    if n < 10 {
        seq![digit_char(n)]
    } else {
        decimal(n / 10).push(digit_char(n % 10))
    }
}

/// Decimal representation of `v`, with a leading `-` when negative, as
/// `Display` writes a signed integer.
pub open spec fn signed_decimal(v: int) -> Seq<char> {
    if v < 0 {
        seq!['-'] + decimal((-v) as nat)
    } else {
        decimal(v as nat)
    }
}

fn push_decimal_nat(out: &mut String, n: u64)
    ensures
        final(out)@ == old(out)@ + decimal(n as nat),
    decreases n,
{
    if n >= 10 {
        push_decimal_nat(out, n / 10);
    }
    let d = (n % 10) as u8;
    push_char(out, (48u8 + d) as char);
    proof {
        assert(old(out)@ + decimal(n as nat) =~= final(out)@) by {
            if n >= 10 {
                assert(decimal(n as nat) == decimal((n / 10) as nat).push(digit_char((n % 10) as nat)));
            }
        }
    }
}

/// Appends the decimal representation of `v`.
pub fn push_signed_decimal(out: &mut String, v: i128)
    requires
        -0x1_0000_0000_0000_0000 < v < 0x1_0000_0000_0000_0000,
    ensures
        final(out)@ == old(out)@ + signed_decimal(v as int),
{
    if v < 0 {
        push_char(out, '-');
        push_decimal_nat(out, (-v) as u64);
        proof {
            assert(final(out)@ =~= old(out)@ + signed_decimal(v as int));
        }
    } else {
        push_decimal_nat(out, v as u64);
    }
}

/// The upper-case hexadecimal digit character for `d < 16`.
pub open spec fn hex_char(d: nat) -> char {
    if d < 10 {
        (48 + d) as char
    } else {
        (55 + d) as char
    }
}

/// `0x` followed by the two upper-case hex digits of `b`.
pub open spec fn hex_byte(b: u8) -> Seq<char> {
    seq!['0', 'x', hex_char((b / 16) as nat), hex_char((b % 16) as nat)]
}

fn hex_digit(d: u8) -> (c: char)
    requires
        d < 16,
    ensures
        c == hex_char(d as nat),
{
    if d < 10 {
        (48u8 + d) as char
    } else {
        (55u8 + d) as char
    }
}

/// Appends `0x` and the two upper-case hex digits of `b`.
pub fn push_hex_byte(out: &mut String, b: u8)
    ensures
        final(out)@ == old(out)@ + hex_byte(b),
{
    push_char(out, '0');
    push_char(out, 'x');
    push_char(out, hex_digit(b / 16));
    push_char(out, hex_digit(b % 16));
    assert(final(out)@ =~= old(out)@ + hex_byte(b));
}

/// Appends every character of `s`.
pub fn push_str(out: &mut String, s: &str)
    ensures
        final(out)@ == old(out)@ + s@,
{
    let cs = chars_of(s);
    let mut i: usize = 0;
    while i < cs.len()
        invariant
            i <= cs@.len(),
            cs@ == s@,
            out@ == old(out)@ + cs@.take(i as int),
        decreases cs@.len() - i,
    {
        push_char(out, cs[i]);
        i += 1;
        assert(out@ =~= old(out)@ + cs@.take(i as int));
    }
    assert(cs@.take(i as int) =~= cs@);
}

pub open spec fn is_digit(b: u8) -> bool {
    48 <= b <= 57
}

/// Value of a run of ASCII decimal digits.
pub open spec fn digits_value(s: Seq<u8>) -> nat
    decreases s.len(),
{
    if s.len() == 0 {
        0
    } else {
        digits_value(s.drop_last()) * 10 + (s.last() - 48) as nat
    }
}

/// The integer that `str::parse` yields for a type whose range is
/// `min..=max` (`signed` when the type accepts a leading `-`): an optional
/// `+` (or `-` for signed types), then one or more ASCII digits, and a value
/// within range. `None` for every other input.
pub open spec fn all_digits(s: Seq<u8>) -> bool {
    forall|i: int| 0 <= i < s.len() ==> is_digit(#[trigger] s[i])
}

/// Whether `b` starts with a sign that `str::parse` consumes: `+`, or `-`
/// for a signed type.
pub open spec fn has_sign(b: Seq<u8>, signed: bool) -> bool {
    b[0] == 43 || (signed && b[0] == 45)
}

pub open spec fn parse_int(b: Seq<u8>, signed: bool, min: int, max: int) -> Option<int> {
    if b.len() == 0 || (b.len() == 1 && (b[0] == 43 || b[0] == 45)) {
        None
    } else {
        let digits = if has_sign(b, signed) {
            b.skip(1)
        } else {
            b
        };
        if !all_digits(digits) {
            None
        } else {
            let v = if signed && b[0] == 45 {
                -(digits_value(digits) as int)
            } else {
                digits_value(digits) as int
            };
            if min <= v <= max {
                Some(v)
            } else {
                None
            }
        }
    }
}

proof fn lemma_digits_value_mono(s: Seq<u8>, i: int)
    requires
        0 <= i <= s.len(),
        forall|k: int| 0 <= k < s.len() ==> is_digit(#[trigger] s[k]),
    ensures
        digits_value(s.take(i)) <= digits_value(s),
    decreases s.len() - i,
{
    if i < s.len() {
        lemma_digits_value_mono(s, i + 1);
        assert(s.take(i + 1).drop_last() =~= s.take(i));
    } else {
        assert(s.take(i) =~= s);
    }
}

/// Parses `b` as `str::parse` does for an integer type with range
/// `min..=max`.
pub fn parse_int_bytes(b: &[u8], signed: bool, min: i128, max: i128) -> (r: Option<i128>)
    requires
        -0x8000_0000_0000_0000 <= min <= max <= 0xFFFF_FFFF_FFFF_FFFF,
    ensures
        r matches Some(v) ==> parse_int(b@, signed, min as int, max as int) == Some(v as int),
        r is None ==> parse_int(b@, signed, min as int, max as int) is None,
{
    let len = b.len();
    if len == 0 {
        return None;
    }
    if len == 1 && (b[0] == 43 || b[0] == 45) {
        return None;
    }
    let neg = signed && b[0] == 45;
    let start: usize = if b[0] == 43 || neg {
        1
    } else {
        0
    };
    let ghost digits = b@.skip(start as int);
    assert(start == 0 ==> digits =~= b@);
    assert(start == 1 <==> has_sign(b@, signed));
    let mut acc: u128 = 0;
    let mut i: usize = start;
    while i < len
        invariant
            len == b@.len(),
            start <= i <= len,
            digits == b@.skip(start as int),
            len > 0,
            !(len == 1 && (b@[0] == 43 || b@[0] == 45)),
            -0x8000_0000_0000_0000 <= min <= max <= 0xFFFF_FFFF_FFFF_FFFF,
            start == 1 <==> has_sign(b@, signed),
            start <= 1,
            start == 0 ==> digits == b@,
            neg == (signed && b@[0] == 45),
            forall|k: int| 0 <= k < i - start ==> is_digit(#[trigger] digits[k]),
            acc as nat == digits_value(digits.take(i - start)),
            acc <= 0x1_0000_0000_0000_0000,
        decreases len - i,
    {
        let c = b[i];
        if c < 48 || c > 57 {
            proof {
                assert(digits[i - start] == c);
                assert(!all_digits(digits));
            }
            return None;
        }
        proof {
            assert(digits.take(i - start + 1).drop_last() =~= digits.take(i - start));
            assert(digits.take(i - start + 1).last() == c);
            assert(digits[i - start] == c);
        }
        acc = acc * 10 + (c - 48) as u128;
        i += 1;
        assert(acc as nat == digits_value(digits.take(i - start)));
        if acc > 0x1_0000_0000_0000_0000 {
            proof {
                if all_digits(digits) {
                    lemma_digits_value_mono(digits, i - start);
                }
            }
            return None;
        }
    }
    assert(digits.take(len - start) =~= digits);
    let v: i128 = if neg {
        -(acc as i128)
    } else {
        acc as i128
    };
    if min <= v && v <= max {
        Some(v)
    } else {
        None
    }
}

/// The bytes of an ASCII text.
pub open spec fn ascii_bytes(cs: Seq<char>) -> Seq<u8> {
    cs.map_values(|c: char| c as u8)
}

proof fn lemma_decimal_digits(n: nat)
    ensures
        decimal(n).len() > 0,
        all_digits(ascii_bytes(decimal(n))),
        digits_value(ascii_bytes(decimal(n))) == n,
    decreases n,
{
    let b = ascii_bytes(decimal(n));
    if n >= 10 {
        lemma_decimal_digits(n / 10);
        let prev = ascii_bytes(decimal(n / 10));
        assert(b.drop_last() =~= prev);
        assert(b.last() == (48 + n % 10) as u8);
        assert forall|i: int| 0 <= i < b.len() implies is_digit(#[trigger] b[i]) by {
            if i < b.len() - 1 {
                assert(b[i] == prev[i]);
            }
        }
        assert(digits_value(b) == digits_value(prev) * 10 + n % 10);
        assert(n == (n / 10) * 10 + n % 10);
    } else {
        assert(b.len() == 1);
        assert(b.drop_last().len() == 0);
        assert(b.last() == (48 + n) as u8);
        assert(digits_value(b) == digits_value(b.drop_last()) * 10 + (b.last() - 48) as nat);
    }
}

/// Parsing the decimal text of a value gives the value back, for every
/// value of the type's range (a negative one only for a signed type): a
/// numeric filter compares with exactly the value written.
pub proof fn lemma_parse_decimal(v: int, signed: bool, min: int, max: int)
    requires
        min <= v <= max,
        v < 0 ==> signed,
    ensures
        parse_int(ascii_bytes(signed_decimal(v)), signed, min, max) == Some(v),
{
    let b = ascii_bytes(signed_decimal(v));
    if v < 0 {
        let n = (-v) as nat;
        lemma_decimal_digits(n);
        let d = ascii_bytes(decimal(n));
        assert(b[0] == 45);
        assert(b.skip(1) =~= d);
    } else {
        lemma_decimal_digits(v as nat);
        assert(is_digit(b[0]));
    }
}

} // verus!
