//! Fixed-point scalars and the integer primitives the simulation is built on.
//!
//! A scalar is an `i128` counting units of `1 / SCALE`. Division truncates
//! toward zero (`div_t`), which keeps negation exact: `div_t(-a, b) ==
//! -div_t(a, b)`. Square roots round down (`isqrt`).

use vstd::prelude::*;
use vstd::arithmetic::div_mod::*;

verus! {

/// Number of fixed-point units per whole unit: a scalar `s` stands for the
/// real number `s / SCALE`.
pub const SCALE: i128 = 1_000_000_000;

/// Shortest distance used in force evaluation, in fixed-point units
/// (`1/1000` of a whole unit). Pair distances below it are clamped up to it,
/// so a force evaluation is defined for every pair of positions, coincident
/// ones included. This is a deliberate design choice: the alternative of
/// letting a zero distance produce an undefined force would make `step`
/// partial.
pub const MIN_DIST: i128 = 1_000_000;

/// Largest admissible mass, in fixed-point units.
pub const MAX_MASS: i128 = 1_000_000_000_000;

/// Largest admissible magnitude for the gravitational constant.
pub const MAX_G: i128 = 1_000_000_000_000;

/// Largest admissible velocity component magnitude.
pub const MAX_VEL: i128 = 1_000_000_000_000;

/// Largest admissible time step.
pub const MAX_DT: i128 = 1_000_000_000_000;

/// Largest admissible acceleration component handed to `Body::update`.
pub const MAX_ACC: i128 = 1_000_000_000_000;

/// Largest admissible position component magnitude.
pub const MAX_COORD: i128 = 1_000_000_000_000_000_000;

/// Largest number of bodies a simulation may hold.
pub const MAX_BODIES: usize = 64;

/// Upper bound on `g * m1 * m2` over admissible values: `MAX_G * MAX_MASS *
/// MAX_MASS`.
pub const FORCE_NUM_MAX: i128 = 1_000_000_000_000_000_000_000_000_000_000_000_000;

/// Upper bound on the magnitude of one force component over admissible
/// bodies: `FORCE_NUM_MAX / (MIN_DIST * MIN_DIST)`.
pub const FORCE_COMP_MAX: i128 = 1_000_000_000_000_000_000_000_000;

/// Upper bound on the magnitude of one pairwise acceleration contribution:
/// `MAX_G * MAX_MASS * SCALE / (MIN_DIST * MIN_DIST)`.
pub const PAIR_ACCEL_MAX: i128 = 1_000_000_000_000_000_000_000;

/// Upper bound on a whole acceleration component: `MAX_BODIES *
/// PAIR_ACCEL_MAX`.
pub const ACCEL_MAX: i128 = 64_000_000_000_000_000_000_000;

/// Upper bound on one body's kinetic energy: `MAX_MASS * 2 * MAX_VEL *
/// MAX_VEL / (2 * SCALE * SCALE)`.
pub const KE_MAX: i128 = 1_000_000_000_000_000_000;

/// Upper bound on the magnitude of one pair's potential energy:
/// `FORCE_NUM_MAX / (SCALE * MIN_DIST)`.
pub const PE_PAIR_MAX: i128 = 1_000_000_000_000_000_000_000;

/// Largest input `isqrt` accepts: `8 * MAX_COORD * MAX_COORD`, enough for
/// the squared distance of any two admissible positions.
pub const SQRT_IN_MAX: i128 = 8_000_000_000_000_000_000_000_000_000_000_000_000;

/// Exclusive upper bound for `isqrt` results: `SQRT_HI * SQRT_HI >
/// SQRT_IN_MAX`.
pub const SQRT_HI: i128 = 3_000_000_000_000_000_000;

/// Largest distance between two admissible positions, rounded up:
/// `DIST_MAX * DIST_MAX >= SQRT_IN_MAX`.
pub const DIST_MAX: i128 = 2_900_000_000_000_000_000;

/// Magnitude (absolute value) of a mathematical integer.
pub open spec fn mag(a: int) -> int {
    if a >= 0 {
        a
    } else {
        -a
    }
}

/// Division truncated toward zero, the rounding rule of every fixed-point
/// division in this crate. Meaningful for `b >= 1`.
pub open spec fn div_t(a: int, b: int) -> int
    recommends
        b >= 1,
{
    if a >= 0 {
        a / b
    } else {
        -((-a) / b)
    }
}

/// `r` is the square root of `n` rounded down.
pub open spec fn is_isqrt(n: int, r: int) -> bool {
    0 <= r && r * r <= n && n < (r + 1) * (r + 1)
}

/// The square root of `n` rounded down (for `n >= 0`).
pub open spec fn sqrt_t(n: int) -> int {
    choose|r: int| #[trigger] is_isqrt(n, r)
}

/// Truncating division commutes with negation of the numerator.
pub proof fn lemma_div_t_neg(a: int, b: int)
    requires
        b >= 1,
    ensures
        div_t(-a, b) == -div_t(a, b),
{
    if a == 0 {
        lemma_div_of0(b);
    }
}

/// Magnitude facts of truncating division: dividing cannot grow a value,
/// and multiplying the quotient back stays below the numerator.
pub proof fn lemma_div_t_facts(a: int, b: int)
    requires
        b >= 1,
    ensures
        mag(div_t(a, b)) == mag(a) / b,
        0 <= mag(a) / b <= mag(a),
        mag(div_t(a, b)) * b <= mag(a),
{
    let x = mag(a);
    lemma_div_pos_is_pos(x, b);
    lemma_div_nonincreasing(x, b);
    lemma_fundamental_div_mod(x, b);
    lemma_mod_bound(x, b);
    assert((x / b) * b <= x) by {
        assert(x == b * (x / b) + x % b);
        assert(x % b >= 0);
    }
}

/// A bound on the numerator gives a bound on the truncated quotient.
pub proof fn lemma_div_t_le(a: int, b: int, c: int)
    requires
        b >= 1,
        c >= 0,
        mag(a) <= c * b,
    ensures
        mag(div_t(a, b)) <= c,
{
    lemma_div_t_facts(a, b);
    lemma_div_is_ordered(mag(a), c * b, b);
    lemma_div_by_multiple(c, b);
}

/// Magnitude of a product is bounded by the product of the bounds.
pub proof fn lemma_mul_mag(a: int, b: int, ma: int, mb: int)
    requires
        mag(a) <= ma,
        mag(b) <= mb,
    ensures
        mag(a * b) <= ma * mb,
{
    assert(mag(a * b) <= ma * mb) by (nonlinear_arith)
        requires
            mag(a) <= ma,
            mag(b) <= mb,
    ;
}

/// Rounded-down square roots are unique.
pub proof fn lemma_isqrt_unique(n: int, r1: int, r2: int)
    requires
        is_isqrt(n, r1),
        is_isqrt(n, r2),
    ensures
        r1 == r2,
{
    assert(!(r1 < r2)) by (nonlinear_arith)
        requires
            is_isqrt(n, r1),
            is_isqrt(n, r2),
    ;
    assert(!(r2 < r1)) by (nonlinear_arith)
        requires
            is_isqrt(n, r1),
            is_isqrt(n, r2),
    ;
}

/// Every nonnegative integer has a rounded-down square root.
pub proof fn lemma_isqrt_exists(n: int)
    requires
        n >= 0,
    ensures
        exists|r: int| #[trigger] is_isqrt(n, r),
    decreases n,
{
    if n == 0 {
        assert(is_isqrt(0, 0));
    } else {
        lemma_isqrt_exists(n - 1);
        let r = choose|r: int| #[trigger] is_isqrt(n - 1, r);
        if n < (r + 1) * (r + 1) {
            assert(is_isqrt(n, r));
        } else {
            assert(is_isqrt(n, r + 1)) by (nonlinear_arith)
                requires
                    is_isqrt(n - 1, r),
                    n >= (r + 1) * (r + 1),
            ;
        }
    }
}

/// `sqrt_t(n)` satisfies the square-root property whenever `n >= 0`.
pub proof fn lemma_sqrt_t_is(n: int)
    requires
        n >= 0,
    ensures
        is_isqrt(n, sqrt_t(n)),
{
    lemma_isqrt_exists(n);
}

/// Division truncated toward zero, the executable form of `div_t`.
pub fn div_trunc(a: i128, b: i128) -> (q: i128)
    requires
        b >= 1,
        a > i128::MIN,
    ensures
        q == div_t(a as int, b as int),
{
    if a >= 0 {
        a / b
    } else {
        -((-a) / b)
    }
}

/// Square root rounded down, by bisection.
pub fn isqrt(n: i128) -> (r: i128)
    requires
        0 <= n <= SQRT_IN_MAX,
    ensures
        is_isqrt(n as int, r as int),
        r == sqrt_t(n as int),
        0 <= r <= DIST_MAX,
{
    let mut lo: i128 = 0;
    let mut hi: i128 = SQRT_HI;
    while lo + 1 < hi
        invariant
            0 <= lo < hi <= SQRT_HI,
            lo * lo <= n,
            n < hi * hi,
            n <= SQRT_IN_MAX,
        decreases hi - lo,
    {
        let mid: i128 = lo + (hi - lo) / 2;
        proof {
            assert(lo < mid < hi);
            assert(mid * mid <= SQRT_HI * SQRT_HI) by (nonlinear_arith)
                requires
                    0 <= mid <= SQRT_HI,
            ;
        }
        if mid * mid <= n {
            lo = mid;
        } else {
            hi = mid;
        }
    }
    proof {
        assert(is_isqrt(n as int, lo as int));
        assert(exists|r: int| #[trigger] is_isqrt(n as int, r)) by {
            assert(is_isqrt(n as int, lo as int));
        }
        lemma_isqrt_unique(n as int, lo as int, sqrt_t(n as int));
        assert(lo <= DIST_MAX) by (nonlinear_arith)
            requires
                0 <= lo,
                lo * lo <= n,
                n <= SQRT_IN_MAX,
        ;
    }
    lo
}

} // verus!
