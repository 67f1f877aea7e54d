//! Byte-level helpers: integer decoding in native byte order and scanning
//! for NUL terminators.

use vstd::endian::{endianness, Endian};
use vstd::prelude::*;

verus! {

/// Unsigned value of `b` read least significant byte first.
pub open spec fn le_uint(b: Seq<u8>) -> nat
    decreases b.len(),
{
    if b.len() == 0 {
        0
    } else {
        b[0] as nat + 256 * le_uint(b.drop_first())
    }
}

/// Unsigned value of `b` read most significant byte first.
pub open spec fn be_uint(b: Seq<u8>) -> nat
    decreases b.len(),
{
    if b.len() == 0 {
        0
    } else {
        be_uint(b.drop_last()) * 256 + b.last() as nat
    }
}

/// Unsigned value of `b` read in the byte order of the executing machine.
pub open spec fn ne_uint(b: Seq<u8>) -> nat {
    match endianness() {
        Endian::Little => le_uint(b),
        Endian::Big => be_uint(b),
    }
}

/// The `len` bytes that hold `n` least significant byte first.
pub open spec fn le_bytes(n: nat, len: nat) -> Seq<u8>
    decreases len,
{
    if len == 0 {
        Seq::empty()
    } else {
        seq![(n % 256) as u8] + le_bytes(n / 256, (len - 1) as nat)
    }
}

/// The `len` bytes that hold `n` most significant byte first.
pub open spec fn be_bytes(n: nat, len: nat) -> Seq<u8>
    decreases len,
{
    if len == 0 {
        Seq::empty()
    } else {
        be_bytes(n / 256, (len - 1) as nat).push((n % 256) as u8)
    }
}

/// The `len` bytes that hold `n` in the byte order of the executing machine.
pub open spec fn ne_bytes(n: nat, len: nat) -> Seq<u8> {
    match endianness() {
        Endian::Little => le_bytes(n, len),
        Endian::Big => be_bytes(n, len),
    }
}

pub proof fn lemma_le_bytes_len(n: nat, len: nat)
    ensures
        le_bytes(n, len).len() == len,
    decreases len,
{
    if len > 0 {
        lemma_le_bytes_len(n / 256, (len - 1) as nat);
    }
}

pub proof fn lemma_be_bytes_len(n: nat, len: nat)
    ensures
        be_bytes(n, len).len() == len,
    decreases len,
{
    if len > 0 {
        lemma_be_bytes_len(n / 256, (len - 1) as nat);
    }
}

pub proof fn lemma_ne_bytes_len(n: nat, len: nat)
    ensures
        ne_bytes(n, len).len() == len,
{
    lemma_le_bytes_len(n, len);
    lemma_be_bytes_len(n, len);
}

/// A single byte reads as itself in either byte order.
pub proof fn lemma_ne_uint_single(b: Seq<u8>)
    requires
        b.len() == 1,
    ensures
        ne_uint(b) == b[0] as nat,
{
    reveal_with_fuel(le_uint, 2);
    reveal_with_fuel(be_uint, 2);
    assert(b.drop_first().len() == 0);
    assert(b.drop_last().len() == 0);
}

/// `u16::from_ne_bytes`: the documentation says it creates the integer from
/// its memory representation in native byte order. Claimed: the result is
/// the native-order value of the two bytes.
#[verifier::external_body]
pub(crate) fn u16_from_ne(b: [u8; 2]) -> (r: u16)
    ensures
        r as nat == ne_uint(b@),
{
    u16::from_ne_bytes(b)
}

/// `u32::from_ne_bytes`: the result is the native-order value of the four
/// bytes.
#[verifier::external_body]
pub(crate) fn u32_from_ne(b: [u8; 4]) -> (r: u32)
    ensures
        r as nat == ne_uint(b@),
{
    u32::from_ne_bytes(b)
}

/// `u64::from_ne_bytes`: the result is the native-order value of the eight
/// bytes.
#[verifier::external_body]
pub(crate) fn u64_from_ne(b: [u8; 8]) -> (r: u64)
    ensures
        r as nat == ne_uint(b@),
{
    u64::from_ne_bytes(b)
}

/// `u16::to_ne_bytes`: the documentation says it returns the memory
/// representation in native byte order. Claimed: the two bytes are those of
/// `ne_bytes`.
#[verifier::external_body]
pub(crate) fn u16_to_ne(v: u16) -> (r: [u8; 2])
    ensures
        r@ == ne_bytes(v as nat, 2),
{
    v.to_ne_bytes()
}

/// `u32::to_ne_bytes`: the four bytes of `v` in native byte order.
#[verifier::external_body]
pub(crate) fn u32_to_ne(v: u32) -> (r: [u8; 4])
    ensures
        r@ == ne_bytes(v as nat, 4),
{
    v.to_ne_bytes()
}

/// `u64::to_ne_bytes`: the eight bytes of `v` in native byte order.
#[verifier::external_body]
pub(crate) fn u64_to_ne(v: u64) -> (r: [u8; 8])
    ensures
        r@ == ne_bytes(v as nat, 8),
{
    v.to_ne_bytes()
}

/// Reads two bytes at `at` in native byte order.
pub fn read_ne_u16(s: &[u8], at: usize) -> (r: u16)
    requires
        at + 2 <= s@.len(),
    ensures
        r as nat == ne_uint(s@.subrange(at as int, at + 2)),
{
    let b: [u8; 2] = [s[at], s[at + 1]];
    assert(b@ =~= s@.subrange(at as int, at + 2));
    u16_from_ne(b)
}

/// Reads four bytes at `at` in native byte order.
pub fn read_ne_u32(s: &[u8], at: usize) -> (r: u32)
    requires
        at + 4 <= s@.len(),
    ensures
        r as nat == ne_uint(s@.subrange(at as int, at + 4)),
{
    let b: [u8; 4] = [s[at], s[at + 1], s[at + 2], s[at + 3]];
    assert(b@ =~= s@.subrange(at as int, at + 4));
    u32_from_ne(b)
}

/// Reads eight bytes at `at` in native byte order.
pub fn read_ne_u64(s: &[u8], at: usize) -> (r: u64)
    requires
        at + 8 <= s@.len(),
    ensures
        r as nat == ne_uint(s@.subrange(at as int, at + 8)),
{
    let b: [u8; 8] = [
        s[at],
        s[at + 1],
        s[at + 2],
        s[at + 3],
        s[at + 4],
        s[at + 5],
        s[at + 6],
        s[at + 7],
    ];
    assert(b@ =~= s@.subrange(at as int, at + 8));
    u64_from_ne(b)
}

/// Number of bytes before the first NUL byte (all of `s` when it has none).
pub open spec fn nul_len(s: Seq<u8>) -> nat
    decreases s.len(),
{
    if s.len() == 0 {
        0
    } else if s[0] == 0 {
        0
    } else {
        1 + nul_len(s.drop_first())
    }
}

/// Number of bytes before the first two-byte unit that is zero, counting
/// whole units only (so an odd trailing byte is never counted).
pub open spec fn nul16_len(s: Seq<u8>) -> nat
    decreases s.len(),
{
    if s.len() < 2 {
        0
    } else if s[0] == 0 && s[1] == 0 {
        0
    } else {
        2 + nul16_len(s.skip(2))
    }
}

pub proof fn lemma_nul_len_at(s: Seq<u8>, i: int)
    requires
        0 <= i <= s.len(),
        forall|j: int| 0 <= j < i ==> s[j] != 0,
        i == s.len() || s[i] == 0,
    ensures
        nul_len(s) == i,
    decreases i,
{
    if i > 0 {
        lemma_nul_len_at(s.drop_first(), i - 1);
    }
}

pub proof fn lemma_nul_len_bounds(s: Seq<u8>)
    ensures
        nul_len(s) <= s.len(),
        forall|j: int| 0 <= j < nul_len(s) ==> s[j] != 0,
        nul_len(s) < s.len() ==> s[nul_len(s) as int] == 0,
    decreases s.len(),
{
    if s.len() > 0 && s[0] != 0 {
        lemma_nul_len_bounds(s.drop_first());
        assert forall|j: int| 0 <= j < nul_len(s) implies s[j] != 0 by {
            if j > 0 {
                assert(s[j] == s.drop_first()[j - 1]);
            }
        }
    }
}

pub proof fn lemma_nul16_len_at(s: Seq<u8>, i: int)
    requires
        0 <= i,
        i % 2 == 0,
        i <= s.len(),
        forall|j: int| 0 <= j < i && j % 2 == 0 ==> !(#[trigger] s[j] == 0 && s[j + 1] == 0),
        i + 2 > s.len() || (s[i] == 0 && s[i + 1] == 0),
    ensures
        nul16_len(s) == i,
    decreases i,
{
    if i > 0 {
        let t = s.skip(2);
        assert forall|j: int| 0 <= j < i - 2 && j % 2 == 0 implies !(#[trigger] t[j] == 0 && t[j + 1] == 0) by {
            assert(t[j] == s[j + 2]);
            assert(t[j + 1] == s[j + 3]);
            assert((j + 2) % 2 == 0);
        }
        assert(!(s[0] == 0 && s[1] == 0));
        lemma_nul16_len_at(t, i - 2);
    }
}

pub proof fn lemma_nul16_len_bounds(s: Seq<u8>)
    ensures
        nul16_len(s) <= s.len(),
        nul16_len(s) % 2 == 0,
        nul16_len(s) + 2 > s.len() || (s[nul16_len(s) as int] == 0 && s[nul16_len(s) + 1int] == 0),
    decreases s.len(),
{
    if s.len() >= 2 && !(s[0] == 0 && s[1] == 0) {
        lemma_nul16_len_bounds(s.skip(2));
    }
}

/// Index of the first NUL byte of `s`, or its length.
pub fn find_nul(s: &[u8]) -> (r: usize)
    ensures
        r == nul_len(s@),
{
    let mut i: usize = 0;
    while i < s.len()
        invariant
            i <= s@.len(),
            forall|j: int| 0 <= j < i ==> s@[j] != 0,
        decreases s@.len() - i,
    {
        if s[i] == 0 {
            proof {
                lemma_nul_len_at(s@, i as int);
            }
            return i;
        }
        i += 1;
    }
    proof {
        lemma_nul_len_at(s@, i as int);
    }
    i
}

/// Number of bytes before the first zero two-byte unit of `s`, counting
/// whole units only.
pub fn find_nul16(s: &[u8]) -> (r: usize)
    ensures
        r == nul16_len(s@),
{
    let mut i: usize = 0;
    while s.len() - i >= 2
        invariant
            i <= s@.len(),
            i % 2 == 0,
            forall|j: int| 0 <= j < i && j % 2 == 0 ==> !(#[trigger] s@[j] == 0 && s@[j + 1] == 0),
        decreases s@.len() - i,
    {
        if s[i] == 0 && s[i + 1] == 0 {
            proof {
                lemma_nul16_len_at(s@, i as int);
            }
            return i;
        }
        i += 2;
    }
    proof {
        lemma_nul16_len_at(s@, i as int);
    }
    i
}

} // verus!
