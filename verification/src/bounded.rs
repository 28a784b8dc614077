//! Counters that stop at the ends of their range.

use vstd::prelude::*;

verus! {

/// An integer held to the range of `u64`.
pub open spec fn saturated(n: nat) -> u64 {
    if n <= u64::MAX {
        n as u64
    } else {
        u64::MAX
    }
}

/// `a - b`, at least 0.
pub open spec fn minus_floored(a: u64, b: nat) -> u64 {
    if a >= b {
        (a - b) as u64
    } else {
        0
    }
}

/// `a * b`, held to the range of `u64`.
pub fn saturating_product(a: u64, b: u64) -> (r: u64)
    ensures
        r == saturated((a * b) as nat),
{
    assert(a * b <= 0xFFFF_FFFF_FFFF_FFFF * 0xFFFF_FFFF_FFFF_FFFF) by (nonlinear_arith)
        requires
            a <= 0xFFFF_FFFF_FFFF_FFFF,
            b <= 0xFFFF_FFFF_FFFF_FFFF,
    ;
    assert(a * b >= 0) by (nonlinear_arith)
        requires
            a >= 0,
            b >= 0,
    ;
    let p: u128 = (a as u128) * (b as u128);
    if p <= u64::MAX as u128 {
        p as u64
    } else {
        u64::MAX
    }
}

} // verus!
