//! Saturating fixed-point arithmetic on `u64` quantities.
//!
//! A quantity is stored as a multiple of `1 / SCALE`, so `SCALE` itself is the
//! number 1.0.  Sums saturate at `u64::MAX`; a quotient with denominator zero
//! is `u64::MAX` as well, the fixed-point stand-in for infinity.

use vstd::prelude::*;

verus! {

/// Number of fixed-point units in 1.0: quantities are multiples of 1e-9.
pub const SCALE: u64 = 1_000_000_000;

/// Denominator of the relative-change tolerance of the equilibrium solver: a
/// price update from `old` to `new` counts as converged when
/// `|new - old| * TOL_DEN < old`, i.e. when the relative change is below 1e-12.
pub const TOL_DEN: u128 = 1_000_000_000_000;

/// Cap on the number of Gauss-Seidel sweeps within one solve.
pub const MAX_SWEEPS: usize = 20_000;

/// `a + b`, saturating at `u64::MAX`.
pub open spec fn fp_add(a: int, b: int) -> int {
    if a + b > u64::MAX {
        u64::MAX as int
    } else {
        a + b
    }
}

/// `floor(a * b / c)`, saturating at `u64::MAX`; a zero denominator yields
/// `u64::MAX`, the fixed-point stand-in for infinity.
pub open spec fn fp_mul_div(a: int, b: int, c: int) -> int {
    if c == 0 {
        u64::MAX as int
    } else if a * b / c > u64::MAX {
        u64::MAX as int
    } else {
        a * b / c
    }
}

/// Whether the step from price `old_q` to `new_q` has a relative change below
/// the solver tolerance.  A vanished old price never counts as converged,
/// mirroring a division of the change by zero.
pub open spec fn rel_change_small(old_q: int, new_q: int) -> bool {
    (if new_q >= old_q {
        new_q - old_q
    } else {
        old_q - new_q
    }) * (TOL_DEN as int) < old_q
}

/// Largest `r` with `r * r <= x` (0 for negative arguments).
pub open spec fn sqrt_floor(x: int) -> int
    decreases x,
{
    if x < 1 {
        0
    } else {
        let r = sqrt_floor(x - 1);
        if (r + 1) * (r + 1) <= x {
            r + 1
        } else {
            r
        }
    }
}

/// `sqrt_floor` is the floor of the square root: it is nonnegative and its
/// square brackets the argument.
pub proof fn lemma_sqrt_floor_bounds(x: int)
    requires
        x >= 0,
    ensures
        sqrt_floor(x) >= 0,
        sqrt_floor(x) * sqrt_floor(x) <= x,
        x < (sqrt_floor(x) + 1) * (sqrt_floor(x) + 1),
    decreases x,
{
    if x == 0 {
    } else {
        lemma_sqrt_floor_bounds(x - 1);
        let r = sqrt_floor(x - 1);
        if (r + 1) * (r + 1) <= x {
            assert(x < (r + 2) * (r + 2)) by (nonlinear_arith)
                requires
                    r >= 0,
                    x - 1 < (r + 1) * (r + 1),
                    (r + 1) * (r + 1) <= x,
            ;
        }
    }
}

/// Any nonnegative `r` whose square brackets `x` is `sqrt_floor(x)`.
pub proof fn lemma_sqrt_floor_unique(x: int, r: int)
    requires
        x >= 0,
        r >= 0,
        r * r <= x,
        x < (r + 1) * (r + 1),
    ensures
        r == sqrt_floor(x),
{
    lemma_sqrt_floor_bounds(x);
    let s = sqrt_floor(x);
    assert(r == s) by (nonlinear_arith)
        requires
            r >= 0,
            s >= 0,
            r * r <= x,
            x < (r + 1) * (r + 1),
            s * s <= x,
            x < (s + 1) * (s + 1),
    ;
}

/// The full-width product of two `u64` values.
pub fn mul_wide(a: u64, b: u64) -> (r: u128)
    ensures
        r as int == a as int * b as int,
{
    proof {
        assert(a as int * b as int <= u128::MAX as int) by (nonlinear_arith)
            requires
                a as int <= u64::MAX as int,
                b as int <= u64::MAX as int,
        ;
    }
    (a as u128) * (b as u128)
}

/// `a + b`, saturating at `u64::MAX`.
pub fn sat_add(a: u64, b: u64) -> (r: u64)
    ensures
        r as int == fp_add(a as int, b as int),
{
    let s: u128 = a as u128 + b as u128;
    if s > u64::MAX as u128 {
        u64::MAX
    } else {
        s as u64
    }
}

/// `floor(a * b / c)`, saturating at `u64::MAX`, with `u64::MAX` for a zero
/// denominator.
pub fn mul_div(a: u64, b: u64, c: u64) -> (r: u64)
    ensures
        r as int == fp_mul_div(a as int, b as int, c as int),
{
    if c == 0 {
        u64::MAX
    } else {
        let p: u128 = mul_wide(a, b);
        let q: u128 = p / (c as u128);
        if q > u64::MAX as u128 {
            u64::MAX
        } else {
            q as u64
        }
    }
}

/// Whether the step from price `old_q` to `new_q` is within the solver
/// tolerance.
pub fn rel_change_is_small(old_q: u64, new_q: u64) -> (r: bool)
    ensures
        r == rel_change_small(old_q as int, new_q as int),
{
    let diff: u64 = if new_q >= old_q {
        new_q - old_q
    } else {
        old_q - new_q
    };
    (diff as u128) * TOL_DEN < old_q as u128
}

/// Floor of the square root of a `u128`.
pub fn isqrt(x: u128) -> (r: u64)
    ensures
        r as int == sqrt_floor(x as int),
{
    let mut lo: u64 = 0;
    let mut hi: u64 = u64::MAX;
    proof {
        assert((u64::MAX as int + 1) * (u64::MAX as int + 1) > u128::MAX as int) by (nonlinear_arith);
    }
    while lo < hi
        invariant
            lo <= hi,
            lo as int * lo as int <= x as int,
            (x as int) < (hi as int + 1) * (hi as int + 1),
        decreases hi - lo,
    {
        let mid: u64 = ((lo as u128 + hi as u128 + 1) / 2) as u64;
        let sq: u128 = mul_wide(mid, mid);
        if sq <= x {
            lo = mid;
        } else {
            hi = mid - 1;
        }
    }
    proof {
        lemma_sqrt_floor_unique(x as int, lo as int);
    }
    lo
}

} // verus!
