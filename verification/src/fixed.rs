//! Fixed-point scalars.
//!
//! A quantity is stored as an `i128` counting steps of `1 / SCALE` of a world
//! unit. Sums and differences are exact; a product or quotient carries one
//! truncating division (rounding toward zero), stated exactly by the spec
//! functions here. The square root rounds down to the nearest representable
//! value.

use vstd::prelude::*;

verus! {

use vstd::arithmetic::div_mod::{
    lemma_fundamental_div_mod,
    lemma_div_is_ordered,
    lemma_div_multiples_vanish,
};

/// Fixed-point steps per world unit.
pub const SCALE: i128 = 65536;

/// Largest raw magnitude accepted for a world quantity (a coordinate, a
/// velocity component, a waypoint timestamp, the speed of light): about a
/// million world units. Within it, every intermediate of the kinematics and
/// of the light-cone solver fits in an `i128`.
pub const COORD_MAX: i128 = 68719476736;

/// Magnitude of a mathematical integer.
pub open spec fn abs_i(a: int) -> int {
    if a >= 0 {
        a
    } else {
        -a
    }
}

/// Truncating division (round toward zero): the rounding of the executable
/// `/` on signed integers, written over the Euclidean `/` of specifications.
pub open spec fn dtr(a: int, b: int) -> int {
    if a >= 0 {
        a / b
    } else {
        -((-a) / b)
    }
}

/// Fixed-point product: the exact integer product scaled back down, rounded
/// toward zero.
pub open spec fn fx_mul_s(a: int, b: int) -> int {
    dtr(a * b, SCALE as int)
}

/// Fixed-point quotient, rounded toward zero.
pub open spec fn fx_div_s(a: int, b: int) -> int {
    dtr(a * SCALE, b)
}

/// `r` is the integer square root (rounded down) of `n`.
pub open spec fn is_floor_sqrt(n: int, r: int) -> bool {
    0 <= r && r * r <= n && n < (r + 1) * (r + 1)
}

/// The integer square root of `n`, rounded down (meaningful for `n >= 0`).
pub open spec fn sqrt_floor(n: int) -> int {
    choose|r: int| is_floor_sqrt(n, r)
}

/// Fixed-point square root of a fixed-point value, rounded down: the raw
/// result counts `sqrt(n / SCALE)` in steps of `1 / SCALE`, which is the
/// integer square root of `n * SCALE`.
pub open spec fn fx_sqrt_s(n: int) -> int {
    sqrt_floor(n * SCALE)
}

/// Length (rounded down) of the 2D vector `(x, y)`, both fixed-point.
pub open spec fn norm2d_s(x: int, y: int) -> int {
    sqrt_floor(x * x + y * y)
}

proof fn lemma_floor_sqrt_unique(n: int, r1: int, r2: int)
    by (nonlinear_arith)
    requires
        is_floor_sqrt(n, r1),
        is_floor_sqrt(n, r2),
    ensures
        r1 == r2,
{
}

/// The defining property of `sqrt_floor`, given any witness.
pub proof fn lemma_sqrt_floor_is(n: int, r: int)
    requires
        is_floor_sqrt(n, r),
    ensures
        sqrt_floor(n) == r,
{
    assert(is_floor_sqrt(n, sqrt_floor(n))) by {
        assert(exists|x: int| is_floor_sqrt(n, x));
    }
    lemma_floor_sqrt_unique(n, sqrt_floor(n), r);
}

/// A square root rounded down exists for every non-negative integer, so
/// `sqrt_floor` satisfies its defining property there.
pub proof fn lemma_sqrt_floor_props(n: int)
    requires
        n >= 0,
    ensures
        is_floor_sqrt(n, sqrt_floor(n)),
        0 <= sqrt_floor(n),
        sqrt_floor(n) <= n,
{
    let r = lemma_sqrt_floor_witness(n);
    lemma_sqrt_floor_is(n, r);
    assert(sqrt_floor(n) <= n) by (nonlinear_arith)
        requires
            sqrt_floor(n) * sqrt_floor(n) <= n,
            sqrt_floor(n) >= 0,
    ;
}

proof fn lemma_sqrt_floor_witness(n: int) -> (r: int)
    requires
        n >= 0,
    ensures
        is_floor_sqrt(n, r),
    decreases n,
{
    if n == 0 {
        assert(is_floor_sqrt(0, 0)) by (nonlinear_arith);
        0
    } else {
        let p = lemma_sqrt_floor_witness(n - 1);
        if (p + 1) * (p + 1) <= n {
            assert(is_floor_sqrt(n, p + 1)) by (nonlinear_arith)
                requires
                    (p + 1) * (p + 1) <= n,
                    n - 1 < (p + 1) * (p + 1),
                    p >= 0,
            ;
            p + 1
        } else {
            p
        }
    }
}

/// Truncating division of a non-negative value by a positive one shrinks it
/// and stays non-negative.
pub proof fn lemma_dtr_nonneg(a: int, b: int)
    requires
        a >= 0,
        b >= 1,
    ensures
        0 <= dtr(a, b) <= a,
{
    lemma_div_is_ordered(0, a, b);
    lemma_dtr_mag(a, b);
}

/// A floor quotient misses its argument by less than one divisor.
pub proof fn lemma_dtr_lower(a: int, b: int)
    requires
        a >= 0,
        b >= 1,
    ensures
        dtr(a, b) * b + b > a,
{
    lemma_fundamental_div_mod(a, b);
    vstd::arithmetic::div_mod::lemma_mod_bound(a, b);
    assert(dtr(a, b) * b + b > a) by (nonlinear_arith)
        requires
            b * (a / b) + a % b == a,
            0 <= a % b < b,
            a >= 0,
            b >= 1,
            dtr(a, b) == a / b,
    ;
}

/// A truncating quotient, scaled back up, lands within one divisor of the
/// argument.
pub proof fn lemma_dtr_close(a: int, b: int)
    requires
        b >= 1,
    ensures
        abs_i(dtr(a, b) * b - a) < b,
{
    if a >= 0 {
        lemma_fundamental_div_mod(a, b);
        vstd::arithmetic::div_mod::lemma_mod_bound(a, b);
        assert(abs_i(dtr(a, b) * b - a) < b) by (nonlinear_arith)
            requires
                b * (a / b) + a % b == a,
                0 <= a % b < b,
                a >= 0,
                b >= 1,
                dtr(a, b) == a / b,
        ;
    } else {
        lemma_fundamental_div_mod(-a, b);
        vstd::arithmetic::div_mod::lemma_mod_bound(-a, b);
        assert(abs_i(dtr(a, b) * b - a) < b) by (nonlinear_arith)
            requires
                b * ((-a) / b) + (-a) % b == -a,
                0 <= (-a) % b < b,
                a < 0,
                b >= 1,
                dtr(a, b) == -((-a) / b),
        ;
    }
}

/// Truncation never grows the magnitude of a quotient: `|dtr(a, b)| * b <= |a|`.
pub proof fn lemma_dtr_mag(a: int, b: int)
    requires
        b >= 1,
    ensures
        abs_i(dtr(a, b)) * b <= abs_i(a),
        abs_i(dtr(a, b)) <= abs_i(a),
{
    if a >= 0 {
        lemma_fundamental_div_mod(a, b);
        assert(dtr(a, b) >= 0) by {
            lemma_div_is_ordered(0, a, b);
        }
        assert(abs_i(dtr(a, b)) * b <= abs_i(a)) by (nonlinear_arith)
            requires
                b >= 1,
                a >= 0,
                dtr(a, b) >= 0,
                a == b * (a / b) + a % b,
                a % b >= 0,
                dtr(a, b) == a / b,
        ;
    } else {
        lemma_fundamental_div_mod(-a, b);
        assert((-a) / b >= 0) by {
            lemma_div_is_ordered(0, -a, b);
        }
        assert(abs_i(dtr(a, b)) * b <= abs_i(a)) by (nonlinear_arith)
            requires
                b >= 1,
                a < 0,
                (-a) / b >= 0,
                -a == b * ((-a) / b) + (-a) % b,
                (-a) % b >= 0,
                dtr(a, b) == -((-a) / b),
        ;
    }
    assert(abs_i(dtr(a, b)) <= abs_i(dtr(a, b)) * b) by (nonlinear_arith)
        requires
            b >= 1,
            abs_i(dtr(a, b)) >= 0,
    ;
}

/// Dividing an exact multiple truncates nothing.
pub proof fn lemma_dtr_exact(x: int, b: int)
    requires
        b >= 1,
    ensures
        dtr(x * b, b) == x,
{
    if x * b >= 0 {
        lemma_div_multiples_vanish(x, b);
        assert(x * b == b * x) by (nonlinear_arith);
    } else {
        lemma_div_multiples_vanish(-x, b);
        assert(-(x * b) == b * (-x)) by (nonlinear_arith);
    }
}

/// Scaling a whole number up and back down returns it: `fx_mul_s(a, ONE) == a`
/// in raw terms.
pub proof fn lemma_fx_mul_one(a: int)
    ensures
        fx_mul_s(a, SCALE as int) == a,
        fx_mul_s(SCALE as int, a) == a,
{
    lemma_dtr_exact(a, SCALE as int);
    assert(a * SCALE == SCALE * a) by (nonlinear_arith);
}

/// Multiplying by zero gives zero.
pub proof fn lemma_fx_mul_zero(a: int)
    ensures
        fx_mul_s(a, 0) == 0,
        fx_mul_s(0, a) == 0,
{
    assert(a * 0 == 0) by (nonlinear_arith);
    assert(0 * a == 0) by (nonlinear_arith);
    assert(dtr(0, SCALE as int) == 0) by {
        lemma_dtr_exact(0, SCALE as int);
    }
}

/// Integer square root of a `u128`, rounded down, by bisection.
pub fn isqrt_u128(n: u128) -> (r: u128)
    ensures
        is_floor_sqrt(n as int, r as int),
        r as int == sqrt_floor(n as int),
{
    let mut lo: u128 = 0;
    let mut hi: u128 = 1u128 << 64;
    proof {
        assert((1u128 << 64) == 0x10000000000000000u128) by (bit_vector);
        assert(n < 0x10000000000000000 * 0x10000000000000000);
    }
    while lo + 1 < hi
        invariant
            lo < hi <= 0x10000000000000000,
            (lo as int) * (lo as int) <= n as int,
            (n as int) < (hi as int) * (hi as int),
        decreases hi - lo,
    {
        let mid: u128 = lo + (hi - lo) / 2;
        proof {
            assert(lo < mid < hi);
            assert((mid as int) * (mid as int) <= (0xffffffffffffffff as int)
                * (0xffffffffffffffff as int)) by (nonlinear_arith)
                requires
                    0 <= mid as int <= 0xffffffffffffffff as int,
            ;
        }
        if mid * mid <= n {
            lo = mid;
        } else {
            hi = mid;
        }
    }
    proof {
        assert(hi == lo + 1);
        lemma_sqrt_floor_is(n as int, lo as int);
    }
    lo
}

/// Integer square root rounded up: the least `r` with `r * r >= n`.
pub open spec fn sqrt_ceil(n: int) -> int {
    if sqrt_floor(n) * sqrt_floor(n) == n {
        sqrt_floor(n)
    } else {
        sqrt_floor(n) + 1
    }
}

/// Integer square root of a `u128`, rounded up.
pub fn isqrt_ceil_u128(n: u128) -> (r: u128)
    ensures
        r as int == sqrt_ceil(n as int),
        (r as int) * (r as int) >= n as int,
        n as int >= 1 ==> r >= 1,
{
    let f = isqrt_u128(n);
    proof {
        assert(f as int <= 0xffffffffffffffff) by (nonlinear_arith)
            requires
                (f as int) * (f as int) <= u128::MAX as int,
                f as int >= 0,
        ;
    }
    if f * f == n {
        f
    } else {
        proof {
            assert(((f + 1) as int) * ((f + 1) as int) == (f as int + 1) * (f as int + 1))
                by (nonlinear_arith)
                requires
                    f as int + 1 <= u128::MAX as int,
            ;
        }
        f + 1
    }
}

} // verus!
