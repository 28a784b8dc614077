//! Percentile helpers aligned with numpy's default linear interpolation.

use vstd::arithmetic::div_mod::*;
use vstd::arithmetic::power2::*;
use vstd::prelude::*;

use crate::binary64::laws;
use crate::binary64::rounding::ONE_BITS;
use crate::binary64::{
    clamped, difference, product, signed, sum, truncated, truncated_up, unit_steps, whole_number,
    Binary64,
};

verus! {

/// Most samples whose positions are all exact binary64 numbers.
pub const MAX_SAMPLES: u64 = 0x20_0000_0000_0000;

/// Virtual index `(n - 1) · p` of the `p`-th percentile among `n` samples.
pub open spec fn virtual_index(n: nat, p: Binary64) -> Binary64 {
    product(
        whole_number((n - 1) as nat),
        clamped(p, signed(false, 0), signed(false, ONE_BITS as nat)),
    )
}

/// The `p`-th percentile of sorted samples, interpolated linearly between neighbours.
pub open spec fn percentile(values: Seq<Binary64>, p: Binary64) -> Binary64 {
    let index = virtual_index(values.len(), p);
    let lower: int = truncated(index) as int;
    let upper: int = truncated_up(index) as int;
    if values.len() == 1 {
        values[0]
    } else if lower == upper {
        values[lower]
    } else {
        sum(
            values[lower],
            product(
                difference(index, whole_number(lower as nat)),
                difference(values[upper], values[lower]),
            ),
        )
    }
}

/// The neighbours of a virtual index are positions among the samples.
pub proof fn law_virtual_index_in_range(n: nat, p: Binary64)
    requires
        1 <= n <= MAX_SAMPLES,
    ensures
        truncated(virtual_index(n, p)) <= truncated_up(virtual_index(n, p)) <= n - 1,
        truncated_up(virtual_index(n, p)) <= truncated(virtual_index(n, p)) + 1,
{
    let q = clamped(p, signed(false, 0), signed(false, ONE_BITS as nat));
    let top = whole_number((n - 1) as nat);
    let v = virtual_index(n, p);
    laws::law_small_integers_exact((n - 1) as nat);
    if !q.nan() {
        laws::law_scaled_down(top, q);
        let u: nat = unit_steps();
        lemma_pow2_pos(1074);
        lemma_fundamental_div_mod(v.size() as int, u as int);
        let w: nat = v.size() / u;
        let r: nat = v.size() % u;
        assert(w <= n - 1 && (r > 0 ==> w + 1 <= n - 1)) by (nonlinear_arith)
            requires
                v.size() == u * w + r,
                v.size() <= (n - 1) * u,
                u > 0,
        ;
    }
}

/// λ-th percentile with linear interpolation.
///
/// For sorted input of length `n` and `p ∈ [0, 1]`, uses virtual index
/// `(n - 1) · p` and linearly interpolates between adjacent samples.
#[must_use]
pub fn percentile_linear(values: &[Binary64], p: Binary64) -> (r: Binary64)
    requires
        1 <= values@.len() <= MAX_SAMPLES,
    ensures
        r == percentile(values@, p),
{
    let n: usize = values.len();
    if n == 1 {
        return values[0];
    }
    let p: Binary64 = p.clamp(Binary64::from_bits(0), Binary64::from_bits(ONE_BITS));
    let index: Binary64 = Binary64::from_u64((n - 1) as u64).times(p);
    let lower: u64 = index.to_u64();
    let upper: u64 = index.ceil_to_u64();
    proof {
        law_virtual_index_in_range(n as nat, p);
    }
    if lower == upper {
        return values[lower as usize];
    }
    let fraction: Binary64 = index.minus(Binary64::from_u64(lower));
    let low: Binary64 = values[lower as usize];
    let high: Binary64 = values[upper as usize];
    low.plus(fraction.times(high.minus(low)))
}

} // verus!
