//! Rounding of offsets to a raster unit: the policy that picks section
//! boundaries and annotation offsets.

use vstd::arithmetic::div_mod::{
    lemma_fundamental_div_mod, lemma_mod_bound, lemma_mod_multiples_basic, lemma_mod_self_0,
};
use vstd::prelude::*;

verus! {

/// Rounds `x` to the nearest multiple of `r`, ties rounding half up, with no
/// lower floor: an `x` close to zero snaps to zero.
pub open spec fn spec_snap(x: int, r: int) -> int
    recommends
        0 <= x,
        1 <= r,
{
    ((2 * x + r) / (2 * r)) * r
}

/// Rounds `x` to the nearest multiple of `r` (ties round half up), but never
/// below one raster unit `r`.
pub open spec fn spec_round(x: int, r: int) -> int
    recommends
        0 <= x,
        1 <= r,
{
    if spec_snap(x, r) < r {
        r
    } else {
        spec_snap(x, r)
    }
}

/// Rounds `offset` to the nearest multiple of `step`, half up, with no lower
/// floor.
pub fn snap(offset: u64, step: u64) -> (r: u64)
    requires
        1 <= step,
        offset <= 0x2000_0000_0000_0000,
        step <= 0x2000_0000_0000_0000,
    ensures
        r == spec_snap(offset as int, step as int),
        r <= offset + step,
{
    proof {
        lemma_snap_properties(offset as int, step as int);
    }
    let q: u64 = (2 * offset + step) / (2 * step);
    q * step
}

/// Rounds `offset` to the nearest multiple of `step`, half up, never below
/// `step` itself.
pub fn round(offset: u64, step: u64) -> (r: u64)
    requires
        1 <= step,
        offset <= 0x2000_0000_0000_0000,
        step <= 0x2000_0000_0000_0000,
    ensures
        r == spec_round(offset as int, step as int),
        r <= offset + step,
{
    proof {
        lemma_round_properties(offset as int, step as int);
    }
    let v = snap(offset, step);
    if v < step {
        step
    } else {
        v
    }
}

/// Snapping yields a non-negative multiple of the raster within half a raster
/// unit of the input.
pub proof fn lemma_snap_properties(x: int, r: int)
    requires
        0 <= x,
        1 <= r,
    ensures
        spec_snap(x, r) >= 0,
        spec_snap(x, r) % r == 0,
        spec_snap(x, r) <= x + r,
        x - spec_snap(x, r) <= r,
{
    let q = (2 * x + r) / (2 * r);
    let m = (2 * x + r) % (2 * r);
    lemma_fundamental_div_mod(2 * x + r, 2 * r);
    lemma_mod_bound(2 * x + r, 2 * r);
    assert(2 * x + r == 2 * r * q + m);
    assert(2 * (q * r) == 2 * x + r - m) by (nonlinear_arith)
        requires
            2 * x + r == 2 * r * q + m,
    ;
    assert(q * r <= x + r);
    assert(x - q * r < r);
    assert(q >= 0) by (nonlinear_arith)
        requires
            2 * (q * r) == 2 * x + r - m,
            m < 2 * r,
            0 <= x,
            1 <= r,
    ;
    assert(q * r >= 0) by (nonlinear_arith)
        requires
            q >= 0,
            1 <= r,
    ;
    lemma_mod_multiples_basic(q, r);
}

/// Rounding to a raster yields a positive multiple of the raster, at least one
/// raster unit, and lands within one raster unit of the input.
pub proof fn lemma_round_properties(x: int, r: int)
    requires
        0 <= x,
        1 <= r,
    ensures
        spec_round(x, r) >= r,
        spec_round(x, r) % r == 0,
        spec_round(x, r) <= x + r,
        x - spec_round(x, r) <= r,
{
    lemma_snap_properties(x, r);
    if spec_snap(x, r) < r {
        lemma_mod_self_0(r);
    }
}

} // verus!
