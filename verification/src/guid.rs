//! Globally unique identifiers in the Windows layout.

use vstd::prelude::*;

verus! {

/// A GUID: a 32-bit, two 16-bit and eight 8-bit parts, most significant
/// first when read as one 128-bit number.
#[derive(Debug, PartialEq, Eq, Clone, Copy, Hash)]
pub struct Guid {
    pub data1: u32,
    pub data2: u16,
    pub data3: u16,
    pub data4: [u8; 8],
}

/// Byte `k` (counting from the least significant, `k < 8`) of `v`.
pub open spec fn byte_of(v: u128, k: nat) -> u8 {
    ((v as nat / pow256(k)) % 256) as u8
}

/// `256` to the power `k`.
pub open spec fn pow256(k: nat) -> nat
    decreases k,
{
    if k == 0 {
        1
    } else {
        256 * pow256((k - 1) as nat)
    }
}

impl Guid {
    /// The GUID whose 128-bit reading is `v`: `data1` holds the top 32
    /// bits, `data2` and `data3` the next two 16-bit parts, and `data4` the
    /// low 64 bits, most significant byte first.
    pub fn from_u128(v: u128) -> (r: Guid)
        ensures
            r.data1 == v / 0x1_0000_0000_0000_0000_0000_0000,
            r.data2 == (v / 0x1_0000_0000_0000_0000_0000) % 0x1_0000,
            r.data3 == (v / 0x1_0000_0000_0000_0000) % 0x1_0000,
            forall|i: int| 0 <= i < 8 ==> #[trigger] r.data4@[i] == byte_of(v, (7 - i) as nat),
    {
        let data1 = (v / 0x1_0000_0000_0000_0000_0000_0000) as u32;
        let data2 = ((v / 0x1_0000_0000_0000_0000_0000) % 0x1_0000) as u16;
        let data3 = ((v / 0x1_0000_0000_0000_0000) % 0x1_0000) as u16;
        let data4: [u8; 8] = [
            ((v / 0x100_0000_0000_0000) % 256) as u8,
            ((v / 0x1_0000_0000_0000) % 256) as u8,
            ((v / 0x100_0000_0000) % 256) as u8,
            ((v / 0x1_0000_0000) % 256) as u8,
            ((v / 0x100_0000) % 256) as u8,
            ((v / 0x1_0000) % 256) as u8,
            ((v / 0x100) % 256) as u8,
            (v % 256) as u8,
        ];
        proof {
            assert(pow256(0) == 1);
            assert(pow256(1) == 0x100);
            assert(pow256(2) == 0x1_0000);
            assert(pow256(3) == 0x100_0000);
            assert(pow256(4) == 0x1_0000_0000);
            assert(pow256(5) == 0x100_0000_0000);
            assert(pow256(6) == 0x1_0000_0000_0000);
            assert(pow256(7) == 0x100_0000_0000_0000);
            assert forall|i: int| 0 <= i < 8 implies #[trigger] data4@[i] == byte_of(
                v,
                (7 - i) as nat,
            ) by {
                if i == 7 {
                    assert(v as nat / 1 == v);
                }
            }
        }
        Guid { data1, data2, data3, data4 }
    }
}

} // verus!
