//! Shared bit-scanning helpers: position of the highest set bit of a 16-bit
//! value, and position of the highest clear bit of a 32-bit value.

use vstd::prelude::*;
use vstd::std_specs::bits::axiom_u16_leading_zeros;
use vstd::std_specs::bits::axiom_u32_leading_ones;
use vstd::std_specs::bits::u16_leading_zeros;
use vstd::std_specs::bits::u32_leading_ones;

verus! {

/// Position of the highest set bit of `v`, or -1 if `v` is zero.
pub open spec fn spec_first_set(v: u16) -> int {
    15 - u16_leading_zeros(v)
}

/// Position of the highest clear bit of `v`, or -1 if every bit of `v` is set.
pub open spec fn spec_first_clear(v: u32) -> int {
    31 - u32_leading_ones(v)
}

/// The characterization of `spec_first_set`: it is -1 exactly on zero, and
/// otherwise names a set bit above which every bit of `v` is clear.
pub proof fn lemma_first_set_bits(v: u16)
    ensures
        -1 <= spec_first_set(v) <= 15,
        v == 0 <==> spec_first_set(v) == -1,
        v != 0 ==> (v >> (spec_first_set(v) as u16)) & 1 == 1,
        v != 0 ==> v >> ((spec_first_set(v) + 1) as u16) == 0,
        v < 0x8000 && v != 0 ==> spec_first_set(v) <= 14,
{
    axiom_u16_leading_zeros(v);
    if v != 0 {
        let p = spec_first_set(v) as u16;
        assert((v >> p) & 1 != 0);
        assert((v >> p) & 1 != 0 ==> (v >> p) & 1 == 1) by (bit_vector);
        assert(v < 0x8000 ==> (v >> 15u16) & 1 == 0) by (bit_vector);
    }
}

/// Position of the highest set bit of `v`, computed as `15 - leading_zeros`;
/// -1 when `v` is zero.
pub fn first_set(v: u16) -> (r: i32)
    ensures
        r == spec_first_set(v),
        -1 <= r <= 15,
        v == 0 <==> r == -1,
        v != 0 ==> (v >> (r as u16)) & 1 == 1,
        v != 0 ==> v >> ((r + 1) as u16) == 0,
{
    proof {
        lemma_first_set_bits(v);
    }
    let lz = v.leading_zeros();
    15 - (lz as i32)
}

/// Position of the highest clear bit of `v`, computed as
/// `31 - leading_ones`; -1 when every bit of `v` is set.
pub fn first_clear(v: u32) -> (r: i32)
    ensures
        r == spec_first_clear(v),
        -1 <= r <= 31,
        v == u32::MAX <==> r == -1,
        v != u32::MAX ==> (v >> (r as u32)) & 1 == 0,
{
    proof {
        axiom_u32_leading_ones(v);
        if v != u32::MAX {
            let p = spec_first_clear(v) as u32;
            assert((v >> p) & 1 == 0);
        }
    }
    let lo = v.leading_ones();
    31 - (lo as i32)
}

} // verus!
