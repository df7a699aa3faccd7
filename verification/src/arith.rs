//! Exact integer arithmetic that the surface formulas are built on: squares,
//! absolute values, and the floor square root.

use vstd::prelude::*;
use vstd::arithmetic::div_mod::{lemma_div_pos_is_pos, lemma_fundamental_div_mod, lemma_mod_bound};
use vstd::arithmetic::mul::lemma_mul_inequality;

verus! {

/// The square of an integer.
pub open spec fn sq(v: int) -> int {
    v * v
}

/// The absolute value of an integer.
pub open spec fn abs_val(v: int) -> int {
    if v < 0 {
        -v
    } else {
        v
    }
}

/// The floor of the square root of a natural number: the largest `r` with
/// `r * r <= n`.
pub open spec fn sqrt_floor(n: nat) -> nat
    decreases n,
{
    if n == 0 {
        0
    } else {
        let r: nat = sqrt_floor((n - 1) as nat);
        if (r + 1) * (r + 1) <= n {
            (r + 1) as nat
        } else {
            r
        }
    }
}

/// `sqrt_floor(n)` is characterized by the two bounds
/// `sqrt_floor(n)^2 <= n < (sqrt_floor(n) + 1)^2`.
pub proof fn lemma_sqrt_floor_bounds(n: nat)
    ensures
        sqrt_floor(n) * sqrt_floor(n) <= n,
        n < (sqrt_floor(n) + 1) * (sqrt_floor(n) + 1),
    decreases n,
{
    if n == 0 {
        assert(sqrt_floor(0) == 0);
        assert((sqrt_floor(n) + 1) * (sqrt_floor(n) + 1) == 1) by (nonlinear_arith)
            requires
                sqrt_floor(n) == 0,
        ;
    } else {
        let r: nat = sqrt_floor((n - 1) as nat);
        lemma_sqrt_floor_bounds((n - 1) as nat);
        if (r + 1) * (r + 1) <= n {
            assert(sqrt_floor(n) == r + 1);
            assert(n == (r + 1) * (r + 1));
            assert((r + 1) * (r + 1) < (r + 2) * (r + 2)) by (nonlinear_arith);
            assert((sqrt_floor(n) + 1) * (sqrt_floor(n) + 1) == (r + 2) * (r + 2));
        } else {
            assert(sqrt_floor(n) == r);
        }
    }
}

/// Any `r` that satisfies the floor-square-root bounds for `n` is
/// `sqrt_floor(n)`.
pub proof fn lemma_sqrt_floor_unique(n: nat, r: nat)
    requires
        r * r <= n,
        n < (r + 1) * (r + 1),
    ensures
        sqrt_floor(n) == r,
{
    lemma_sqrt_floor_bounds(n);
    let s: nat = sqrt_floor(n);
    if s < r {
        assert((s + 1) * (s + 1) <= r * r) by (nonlinear_arith)
            requires
                s < r,
        ;
    }
    if r < s {
        assert((r + 1) * (r + 1) <= s * s) by (nonlinear_arith)
            requires
                r < s,
        ;
    }
}

/// The floor square root is monotone.
pub proof fn lemma_sqrt_floor_monotone(m: nat, n: nat)
    requires
        m <= n,
    ensures
        sqrt_floor(m) <= sqrt_floor(n),
{
    lemma_sqrt_floor_bounds(m);
    lemma_sqrt_floor_bounds(n);
    let a: nat = sqrt_floor(m);
    let b: nat = sqrt_floor(n);
    if b < a {
        assert((b + 1) * (b + 1) <= a * a) by (nonlinear_arith)
            requires
                b < a,
        ;
    }
}

/// The floor square root of a perfect square is its root.
pub proof fn lemma_sqrt_floor_square(r: nat)
    ensures
        sqrt_floor(r * r) == r,
{
    assert(r * r < (r + 1) * (r + 1)) by (nonlinear_arith);
    lemma_sqrt_floor_unique(r * r, r);
}

/// A square is never negative.
pub proof fn lemma_sq_nonneg(v: int)
    ensures
        sq(v) >= 0,
{
    assert(v * v >= 0) by (nonlinear_arith);
}

/// An upper bound on the input gives an upper bound on the floor square root.
pub proof fn lemma_sqrt_floor_upper(n: nat, b: nat)
    requires
        n <= b * b,
    ensures
        sqrt_floor(n) <= b,
{
    lemma_sqrt_floor_monotone(n, b * b);
    lemma_sqrt_floor_square(b);
}

/// The floor square root of the floor quotient `n2 / s2` is the floor of
/// the exact quotient `sqrt(n2) / sqrt(s2)`: the largest `t >= 0` with
/// `t^2 * s2 <= n2`.
pub proof fn lemma_sqrt_floor_div(n2: int, s2: int)
    requires
        n2 >= 0,
        s2 >= 1,
    ensures
        (sqrt_floor((n2 / s2) as nat) as int) * (sqrt_floor((n2 / s2) as nat) as int) * s2 <= n2,
        n2 < ((sqrt_floor((n2 / s2) as nat) as int) + 1) * ((sqrt_floor((n2 / s2) as nat) as int)
            + 1) * s2,
{
    let q: int = n2 / s2;
    lemma_div_pos_is_pos(n2, s2);
    lemma_sqrt_floor_bounds(q as nat);
    let t: int = sqrt_floor(q as nat) as int;
    lemma_fundamental_div_mod(n2, s2);
    lemma_mod_bound(n2, s2);
    lemma_mul_inequality(t * t, q, s2);
    assert(q * s2 == s2 * q) by (nonlinear_arith);
    lemma_mul_inequality(q + 1, (t + 1) * (t + 1), s2);
    assert((q + 1) * s2 == s2 * q + s2) by (nonlinear_arith);
}

/// Largest argument `isqrt` accepts: `2^124 - 1`, far above anything the
/// surface formulas produce from bounded coordinates.
pub const SQRT_ARG_MAX: u128 = 21_267_647_932_558_653_966_460_912_964_485_513_215;

/// Computes the floor square root by binary search.
pub fn isqrt(n: u128) -> (r: u64)
    requires
        n <= SQRT_ARG_MAX,
    ensures
        r == sqrt_floor(n as nat),
{
    if n == 0 {
        return 0;
    }
    let mut lo: u64 = 0;
    let mut hi: u64 = 4_611_686_018_427_387_904;
    proof {
        assert((hi as int) * (hi as int) == 21_267_647_932_558_653_966_460_912_964_485_513_216int);
    }
    while lo + 1 < hi
        invariant
            lo < hi,
            hi <= 4_611_686_018_427_387_904,
            n <= SQRT_ARG_MAX,
            (lo as int) * (lo as int) <= n as int,
            (n as int) < (hi as int) * (hi as int),
        decreases hi - lo,
    {
        let mid: u64 = lo + (hi - lo) / 2;
        proof {
            assert((mid as int) * (mid as int)
                <= 21_267_647_932_558_653_966_460_912_964_485_513_216int) by (nonlinear_arith)
                requires
                    mid <= 4_611_686_018_427_387_904u64,
            ;
        }
        let m2: u128 = (mid as u128) * (mid as u128);
        if m2 <= n {
            lo = mid;
        } else {
            hi = mid;
        }
    }
    proof {
        lemma_sqrt_floor_unique(n as nat, lo as nat);
    }
    lo
}

} // verus!
