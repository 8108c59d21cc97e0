//! The 8-component multivector algebra.
//!
//! An [`R120`] is an ordered tuple of eight fixed-point coefficients indexed
//! by the basis blades `{1, e1, e2, e3, e12, e13, e23, e123}`: index 0 is the
//! scalar grade, 1..=3 the vector grade, 4..=6 the bivector grade, 7 the
//! pseudoscalar. All operations are pure and total; each is specified exactly,
//! coefficient by coefficient, over the view `R120@: Seq<int>` of raw
//! fixed-point values. In a product, the integer sum of coefficient products
//! is formed exactly and scaled back down by one truncating division.

use vstd::prelude::*;

verus! {

use crate::fixed::{
    SCALE,
    abs_i,
    dtr,
    fx_mul_s,
    fx_div_s,
    fx_sqrt_s,
    sqrt_floor,
    is_floor_sqrt,
    isqrt_u128,
    lemma_sqrt_floor_is,
    lemma_dtr_mag,
    lemma_dtr_exact,
    lemma_fx_mul_zero,
};

/// Largest raw coefficient magnitude that a multivector may carry into one of
/// the bilinear products: with both operands within this bound, every term and
/// sum of a product row fits in an `i128`.
pub const PROD_MAX: i128 = 1152921504606846976;

/// Largest raw coefficient magnitude accepted by the linear operations
/// (negations, sums): wide enough to hold any product of two `PROD_MAX`
/// operands, so results can be chained.
pub const LIN_MAX: i128 = 664613997892457936451903530140172288;

/// Every coefficient of `s` has magnitude at most `bound`.
pub open spec fn in_range(s: Seq<int>, bound: int) -> bool {
    forall|i: int| 0 <= i < s.len() ==> -bound <= #[trigger] s[i] <= bound
}

/// A product of two bounded integers is bounded by the product of the bounds.
pub proof fn lemma_mul_bound(x: int, y: int, m: int, n: int)
    by (nonlinear_arith)
    requires
        -m <= x <= m,
        -n <= y <= n,
    ensures
        -(m * n) <= x * y <= m * n,
        -(m * n) <= y * x <= m * n,
{
}

/// Every pairwise product of coefficients bounded by `m` lies within `m * m`.
proof fn lemma_products_bounded(a0: int, a1: int, a2: int, a3: int, a4: int, a5: int, a6: int, a7: int, b0: int, b1: int, b2: int, b3: int, b4: int, b5: int, b6: int, b7: int, m: int)
    requires
        -m <= a0 <= m,
        -m <= b0 <= m,
        -m <= a1 <= m,
        -m <= b1 <= m,
        -m <= a2 <= m,
        -m <= b2 <= m,
        -m <= a3 <= m,
        -m <= b3 <= m,
        -m <= a4 <= m,
        -m <= b4 <= m,
        -m <= a5 <= m,
        -m <= b5 <= m,
        -m <= a6 <= m,
        -m <= b6 <= m,
        -m <= a7 <= m,
        -m <= b7 <= m,
        0 <= m,
    ensures
        -(m * m) <= a0 * b0 <= m * m,
        -(m * m) <= b0 * a0 <= m * m,
        -(m * m) <= a0 * b1 <= m * m,
        -(m * m) <= b1 * a0 <= m * m,
        -(m * m) <= a0 * b2 <= m * m,
        -(m * m) <= b2 * a0 <= m * m,
        -(m * m) <= a0 * b3 <= m * m,
        -(m * m) <= b3 * a0 <= m * m,
        -(m * m) <= a0 * b4 <= m * m,
        -(m * m) <= b4 * a0 <= m * m,
        -(m * m) <= a0 * b5 <= m * m,
        -(m * m) <= b5 * a0 <= m * m,
        -(m * m) <= a0 * b6 <= m * m,
        -(m * m) <= b6 * a0 <= m * m,
        -(m * m) <= a0 * b7 <= m * m,
        -(m * m) <= b7 * a0 <= m * m,
        -(m * m) <= a1 * b0 <= m * m,
        -(m * m) <= b0 * a1 <= m * m,
        -(m * m) <= a1 * b1 <= m * m,
        -(m * m) <= b1 * a1 <= m * m,
        -(m * m) <= a1 * b2 <= m * m,
        -(m * m) <= b2 * a1 <= m * m,
        -(m * m) <= a1 * b3 <= m * m,
        -(m * m) <= b3 * a1 <= m * m,
        -(m * m) <= a1 * b4 <= m * m,
        -(m * m) <= b4 * a1 <= m * m,
        -(m * m) <= a1 * b5 <= m * m,
        -(m * m) <= b5 * a1 <= m * m,
        -(m * m) <= a1 * b6 <= m * m,
        -(m * m) <= b6 * a1 <= m * m,
        -(m * m) <= a1 * b7 <= m * m,
        -(m * m) <= b7 * a1 <= m * m,
        -(m * m) <= a2 * b0 <= m * m,
        -(m * m) <= b0 * a2 <= m * m,
        -(m * m) <= a2 * b1 <= m * m,
        -(m * m) <= b1 * a2 <= m * m,
        -(m * m) <= a2 * b2 <= m * m,
        -(m * m) <= b2 * a2 <= m * m,
        -(m * m) <= a2 * b3 <= m * m,
        -(m * m) <= b3 * a2 <= m * m,
        -(m * m) <= a2 * b4 <= m * m,
        -(m * m) <= b4 * a2 <= m * m,
        -(m * m) <= a2 * b5 <= m * m,
        -(m * m) <= b5 * a2 <= m * m,
        -(m * m) <= a2 * b6 <= m * m,
        -(m * m) <= b6 * a2 <= m * m,
        -(m * m) <= a2 * b7 <= m * m,
        -(m * m) <= b7 * a2 <= m * m,
        -(m * m) <= a3 * b0 <= m * m,
        -(m * m) <= b0 * a3 <= m * m,
        -(m * m) <= a3 * b1 <= m * m,
        -(m * m) <= b1 * a3 <= m * m,
        -(m * m) <= a3 * b2 <= m * m,
        -(m * m) <= b2 * a3 <= m * m,
        -(m * m) <= a3 * b3 <= m * m,
        -(m * m) <= b3 * a3 <= m * m,
        -(m * m) <= a3 * b4 <= m * m,
        -(m * m) <= b4 * a3 <= m * m,
        -(m * m) <= a3 * b5 <= m * m,
        -(m * m) <= b5 * a3 <= m * m,
        -(m * m) <= a3 * b6 <= m * m,
        -(m * m) <= b6 * a3 <= m * m,
        -(m * m) <= a3 * b7 <= m * m,
        -(m * m) <= b7 * a3 <= m * m,
        -(m * m) <= a4 * b0 <= m * m,
        -(m * m) <= b0 * a4 <= m * m,
        -(m * m) <= a4 * b1 <= m * m,
        -(m * m) <= b1 * a4 <= m * m,
        -(m * m) <= a4 * b2 <= m * m,
        -(m * m) <= b2 * a4 <= m * m,
        -(m * m) <= a4 * b3 <= m * m,
        -(m * m) <= b3 * a4 <= m * m,
        -(m * m) <= a4 * b4 <= m * m,
        -(m * m) <= b4 * a4 <= m * m,
        -(m * m) <= a4 * b5 <= m * m,
        -(m * m) <= b5 * a4 <= m * m,
        -(m * m) <= a4 * b6 <= m * m,
        -(m * m) <= b6 * a4 <= m * m,
        -(m * m) <= a4 * b7 <= m * m,
        -(m * m) <= b7 * a4 <= m * m,
        -(m * m) <= a5 * b0 <= m * m,
        -(m * m) <= b0 * a5 <= m * m,
        -(m * m) <= a5 * b1 <= m * m,
        -(m * m) <= b1 * a5 <= m * m,
        -(m * m) <= a5 * b2 <= m * m,
        -(m * m) <= b2 * a5 <= m * m,
        -(m * m) <= a5 * b3 <= m * m,
        -(m * m) <= b3 * a5 <= m * m,
        -(m * m) <= a5 * b4 <= m * m,
        -(m * m) <= b4 * a5 <= m * m,
        -(m * m) <= a5 * b5 <= m * m,
        -(m * m) <= b5 * a5 <= m * m,
        -(m * m) <= a5 * b6 <= m * m,
        -(m * m) <= b6 * a5 <= m * m,
        -(m * m) <= a5 * b7 <= m * m,
        -(m * m) <= b7 * a5 <= m * m,
        -(m * m) <= a6 * b0 <= m * m,
        -(m * m) <= b0 * a6 <= m * m,
        -(m * m) <= a6 * b1 <= m * m,
        -(m * m) <= b1 * a6 <= m * m,
        -(m * m) <= a6 * b2 <= m * m,
        -(m * m) <= b2 * a6 <= m * m,
        -(m * m) <= a6 * b3 <= m * m,
        -(m * m) <= b3 * a6 <= m * m,
        -(m * m) <= a6 * b4 <= m * m,
        -(m * m) <= b4 * a6 <= m * m,
        -(m * m) <= a6 * b5 <= m * m,
        -(m * m) <= b5 * a6 <= m * m,
        -(m * m) <= a6 * b6 <= m * m,
        -(m * m) <= b6 * a6 <= m * m,
        -(m * m) <= a6 * b7 <= m * m,
        -(m * m) <= b7 * a6 <= m * m,
        -(m * m) <= a7 * b0 <= m * m,
        -(m * m) <= b0 * a7 <= m * m,
        -(m * m) <= a7 * b1 <= m * m,
        -(m * m) <= b1 * a7 <= m * m,
        -(m * m) <= a7 * b2 <= m * m,
        -(m * m) <= b2 * a7 <= m * m,
        -(m * m) <= a7 * b3 <= m * m,
        -(m * m) <= b3 * a7 <= m * m,
        -(m * m) <= a7 * b4 <= m * m,
        -(m * m) <= b4 * a7 <= m * m,
        -(m * m) <= a7 * b5 <= m * m,
        -(m * m) <= b5 * a7 <= m * m,
        -(m * m) <= a7 * b6 <= m * m,
        -(m * m) <= b6 * a7 <= m * m,
        -(m * m) <= a7 * b7 <= m * m,
        -(m * m) <= b7 * a7 <= m * m,
{
    lemma_mul_bound(a0, b0, m, m);
    lemma_mul_bound(a0, b1, m, m);
    lemma_mul_bound(a0, b2, m, m);
    lemma_mul_bound(a0, b3, m, m);
    lemma_mul_bound(a0, b4, m, m);
    lemma_mul_bound(a0, b5, m, m);
    lemma_mul_bound(a0, b6, m, m);
    lemma_mul_bound(a0, b7, m, m);
    lemma_mul_bound(a1, b0, m, m);
    lemma_mul_bound(a1, b1, m, m);
    lemma_mul_bound(a1, b2, m, m);
    lemma_mul_bound(a1, b3, m, m);
    lemma_mul_bound(a1, b4, m, m);
    lemma_mul_bound(a1, b5, m, m);
    lemma_mul_bound(a1, b6, m, m);
    lemma_mul_bound(a1, b7, m, m);
    lemma_mul_bound(a2, b0, m, m);
    lemma_mul_bound(a2, b1, m, m);
    lemma_mul_bound(a2, b2, m, m);
    lemma_mul_bound(a2, b3, m, m);
    lemma_mul_bound(a2, b4, m, m);
    lemma_mul_bound(a2, b5, m, m);
    lemma_mul_bound(a2, b6, m, m);
    lemma_mul_bound(a2, b7, m, m);
    lemma_mul_bound(a3, b0, m, m);
    lemma_mul_bound(a3, b1, m, m);
    lemma_mul_bound(a3, b2, m, m);
    lemma_mul_bound(a3, b3, m, m);
    lemma_mul_bound(a3, b4, m, m);
    lemma_mul_bound(a3, b5, m, m);
    lemma_mul_bound(a3, b6, m, m);
    lemma_mul_bound(a3, b7, m, m);
    lemma_mul_bound(a4, b0, m, m);
    lemma_mul_bound(a4, b1, m, m);
    lemma_mul_bound(a4, b2, m, m);
    lemma_mul_bound(a4, b3, m, m);
    lemma_mul_bound(a4, b4, m, m);
    lemma_mul_bound(a4, b5, m, m);
    lemma_mul_bound(a4, b6, m, m);
    lemma_mul_bound(a4, b7, m, m);
    lemma_mul_bound(a5, b0, m, m);
    lemma_mul_bound(a5, b1, m, m);
    lemma_mul_bound(a5, b2, m, m);
    lemma_mul_bound(a5, b3, m, m);
    lemma_mul_bound(a5, b4, m, m);
    lemma_mul_bound(a5, b5, m, m);
    lemma_mul_bound(a5, b6, m, m);
    lemma_mul_bound(a5, b7, m, m);
    lemma_mul_bound(a6, b0, m, m);
    lemma_mul_bound(a6, b1, m, m);
    lemma_mul_bound(a6, b2, m, m);
    lemma_mul_bound(a6, b3, m, m);
    lemma_mul_bound(a6, b4, m, m);
    lemma_mul_bound(a6, b5, m, m);
    lemma_mul_bound(a6, b6, m, m);
    lemma_mul_bound(a6, b7, m, m);
    lemma_mul_bound(a7, b0, m, m);
    lemma_mul_bound(a7, b1, m, m);
    lemma_mul_bound(a7, b2, m, m);
    lemma_mul_bound(a7, b3, m, m);
    lemma_mul_bound(a7, b4, m, m);
    lemma_mul_bound(a7, b5, m, m);
    lemma_mul_bound(a7, b6, m, m);
    lemma_mul_bound(a7, b7, m, m);
}


/// The zero multivector.
pub open spec fn zero_s() -> Seq<int> {
    seq![0int, 0int, 0int, 0int, 0int, 0int, 0int, 0int]
}

/// Reversion: the bivector and trivector grades change sign.
pub open spec fn reverse_s(a: Seq<int>) -> Seq<int> {
    seq![a[0], a[1], a[2], a[3], -a[4], -a[5], -a[6], -a[7]]
}

/// Poincare duality: grade k maps to grade 3 - k.
pub open spec fn dual_s(a: Seq<int>) -> Seq<int> {
    seq![-a[7], -a[6], -a[5], a[4], -a[3], a[2], a[1], a[0]]
}

/// Clifford conjugation: the vector and bivector grades change sign.
pub open spec fn conjugate_s(a: Seq<int>) -> Seq<int> {
    seq![a[0], -a[1], -a[2], -a[3], -a[4], -a[5], -a[6], a[7]]
}

/// Main involution: the vector and trivector grades change sign.
pub open spec fn involute_s(a: Seq<int>) -> Seq<int> {
    seq![a[0], -a[1], -a[2], -a[3], a[4], a[5], a[6], -a[7]]
}

/// Coefficientwise negation.
pub open spec fn neg_s(a: Seq<int>) -> Seq<int> {
    seq![-a[0], -a[1], -a[2], -a[3], -a[4], -a[5], -a[6], -a[7]]
}

/// Coefficientwise sum.
pub open spec fn add_s(a: Seq<int>, b: Seq<int>) -> Seq<int> {
    seq![
        a[0] + b[0],
        a[1] + b[1],
        a[2] + b[2],
        a[3] + b[3],
        a[4] + b[4],
        a[5] + b[5],
        a[6] + b[6],
        a[7] + b[7],
    ]
}

/// Coefficientwise difference.
pub open spec fn sub_s(a: Seq<int>, b: Seq<int>) -> Seq<int> {
    seq![
        a[0] - b[0],
        a[1] - b[1],
        a[2] - b[2],
        a[3] - b[3],
        a[4] - b[4],
        a[5] - b[5],
        a[6] - b[6],
        a[7] - b[7],
    ]
}

/// Multivector scaled by a fixed-point scalar.
pub open spec fn smul_s(a: Seq<int>, k: int) -> Seq<int> {
    seq![
        fx_mul_s(a[0], k),
        fx_mul_s(a[1], k),
        fx_mul_s(a[2], k),
        fx_mul_s(a[3], k),
        fx_mul_s(a[4], k),
        fx_mul_s(a[5], k),
        fx_mul_s(a[6], k),
        fx_mul_s(a[7], k),
    ]
}

/// Fixed-point scalar added to the scalar coefficient.
pub open spec fn sadd_s(a: Seq<int>, k: int) -> Seq<int> {
    seq![a[0] + k, a[1], a[2], a[3], a[4], a[5], a[6], a[7]]
}


/// Coefficient 0 of the geometric product, before the scale division.
pub open spec fn gp_t0(a: Seq<int>, b: Seq<int>) -> int {
    b[0] * a[0] + b[1] * a[1] - b[2] * a[2] - b[3] * a[3] + b[4] * a[4] + b[5] * a[5] - b[6] * a[6] - b[7] * a[7]
}

/// Coefficient 1 of the geometric product, before the scale division.
pub open spec fn gp_t1(a: Seq<int>, b: Seq<int>) -> int {
    b[1] * a[0] + b[0] * a[1] + b[4] * a[2] + b[5] * a[3] - b[2] * a[4] - b[3] * a[5] - b[7] * a[6] - b[6] * a[7]
}

/// Coefficient 2 of the geometric product, before the scale division.
pub open spec fn gp_t2(a: Seq<int>, b: Seq<int>) -> int {
    b[2] * a[0] + b[4] * a[1] + b[0] * a[2] + b[6] * a[3] - b[1] * a[4] - b[7] * a[5] - b[3] * a[6] - b[5] * a[7]
}

/// Coefficient 3 of the geometric product, before the scale division.
pub open spec fn gp_t3(a: Seq<int>, b: Seq<int>) -> int {
    b[3] * a[0] + b[5] * a[1] - b[6] * a[2] + b[0] * a[3] + b[7] * a[4] - b[1] * a[5] + b[2] * a[6] + b[4] * a[7]
}

/// Coefficient 4 of the geometric product, before the scale division.
pub open spec fn gp_t4(a: Seq<int>, b: Seq<int>) -> int {
    b[4] * a[0] + b[2] * a[1] - b[1] * a[2] - b[7] * a[3] + b[0] * a[4] + b[6] * a[5] - b[5] * a[6] - b[3] * a[7]
}

/// Coefficient 5 of the geometric product, before the scale division.
pub open spec fn gp_t5(a: Seq<int>, b: Seq<int>) -> int {
    b[5] * a[0] + b[3] * a[1] + b[7] * a[2] - b[1] * a[3] - b[6] * a[4] + b[0] * a[5] + b[4] * a[6] + b[2] * a[7]
}

/// Coefficient 6 of the geometric product, before the scale division.
pub open spec fn gp_t6(a: Seq<int>, b: Seq<int>) -> int {
    b[6] * a[0] + b[7] * a[1] + b[3] * a[2] - b[2] * a[3] - b[5] * a[4] + b[4] * a[5] + b[0] * a[6] + b[1] * a[7]
}

/// Coefficient 7 of the geometric product, before the scale division.
pub open spec fn gp_t7(a: Seq<int>, b: Seq<int>) -> int {
    b[7] * a[0] + b[6] * a[1] - b[5] * a[2] + b[4] * a[3] + b[3] * a[4] - b[2] * a[5] + b[1] * a[6] + b[0] * a[7]
}

/// The geometric product: the exact integer sum of each row, scaled back down by
/// one truncating division.
pub open spec fn gp_s(a: Seq<int>, b: Seq<int>) -> Seq<int> {
    seq![
        dtr(gp_t0(a, b), SCALE as int),
        dtr(gp_t1(a, b), SCALE as int),
        dtr(gp_t2(a, b), SCALE as int),
        dtr(gp_t3(a, b), SCALE as int),
        dtr(gp_t4(a, b), SCALE as int),
        dtr(gp_t5(a, b), SCALE as int),
        dtr(gp_t6(a, b), SCALE as int),
        dtr(gp_t7(a, b), SCALE as int),
    ]
}


/// Coefficient 0 of the outer product (meet), before the scale division.
pub open spec fn wedge_t0(a: Seq<int>, b: Seq<int>) -> int {
    b[0] * a[0]
}

/// Coefficient 1 of the outer product (meet), before the scale division.
pub open spec fn wedge_t1(a: Seq<int>, b: Seq<int>) -> int {
    b[1] * a[0] + b[0] * a[1]
}

/// Coefficient 2 of the outer product (meet), before the scale division.
pub open spec fn wedge_t2(a: Seq<int>, b: Seq<int>) -> int {
    b[2] * a[0] + b[0] * a[2]
}

/// Coefficient 3 of the outer product (meet), before the scale division.
pub open spec fn wedge_t3(a: Seq<int>, b: Seq<int>) -> int {
    b[3] * a[0] + b[0] * a[3]
}

/// Coefficient 4 of the outer product (meet), before the scale division.
pub open spec fn wedge_t4(a: Seq<int>, b: Seq<int>) -> int {
    b[4] * a[0] + b[2] * a[1] - b[1] * a[2] + b[0] * a[4]
}

/// Coefficient 5 of the outer product (meet), before the scale division.
pub open spec fn wedge_t5(a: Seq<int>, b: Seq<int>) -> int {
    b[5] * a[0] + b[3] * a[1] - b[1] * a[3] + b[0] * a[5]
}

/// Coefficient 6 of the outer product (meet), before the scale division.
pub open spec fn wedge_t6(a: Seq<int>, b: Seq<int>) -> int {
    b[6] * a[0] + b[3] * a[2] - b[2] * a[3] + b[0] * a[6]
}

/// Coefficient 7 of the outer product (meet), before the scale division.
pub open spec fn wedge_t7(a: Seq<int>, b: Seq<int>) -> int {
    b[7] * a[0] + b[6] * a[1] - b[5] * a[2] + b[4] * a[3] + b[3] * a[4] - b[2] * a[5] + b[1] * a[6] + b[0] * a[7]
}

/// The outer product (meet): the exact integer sum of each row, scaled back down by
/// one truncating division.
pub open spec fn wedge_s(a: Seq<int>, b: Seq<int>) -> Seq<int> {
    seq![
        dtr(wedge_t0(a, b), SCALE as int),
        dtr(wedge_t1(a, b), SCALE as int),
        dtr(wedge_t2(a, b), SCALE as int),
        dtr(wedge_t3(a, b), SCALE as int),
        dtr(wedge_t4(a, b), SCALE as int),
        dtr(wedge_t5(a, b), SCALE as int),
        dtr(wedge_t6(a, b), SCALE as int),
        dtr(wedge_t7(a, b), SCALE as int),
    ]
}


/// Coefficient 0 of the regressive product (join), before the scale division.
pub open spec fn vee_t0(a: Seq<int>, b: Seq<int>) -> int {
    a[0] * b[7] + a[1] * b[6] - a[2] * b[5] + a[3] * b[4] + a[4] * b[3] - a[5] * b[2] + a[6] * b[1] + a[7] * b[0]
}

/// Coefficient 1 of the regressive product (join), before the scale division.
pub open spec fn vee_t1(a: Seq<int>, b: Seq<int>) -> int {
    a[1] * b[7] - a[4] * b[5] + a[5] * b[4] + a[7] * b[1]
}

/// Coefficient 2 of the regressive product (join), before the scale division.
pub open spec fn vee_t2(a: Seq<int>, b: Seq<int>) -> int {
    a[2] * b[7] - a[4] * b[6] + a[6] * b[4] + a[7] * b[2]
}

/// Coefficient 3 of the regressive product (join), before the scale division.
pub open spec fn vee_t3(a: Seq<int>, b: Seq<int>) -> int {
    a[3] * b[7] - a[5] * b[6] + a[6] * b[5] + a[7] * b[3]
}

/// Coefficient 4 of the regressive product (join), before the scale division.
pub open spec fn vee_t4(a: Seq<int>, b: Seq<int>) -> int {
    a[4] * b[7] + a[7] * b[4]
}

/// Coefficient 5 of the regressive product (join), before the scale division.
pub open spec fn vee_t5(a: Seq<int>, b: Seq<int>) -> int {
    a[5] * b[7] + a[7] * b[5]
}

/// Coefficient 6 of the regressive product (join), before the scale division.
pub open spec fn vee_t6(a: Seq<int>, b: Seq<int>) -> int {
    a[6] * b[7] + a[7] * b[6]
}

/// Coefficient 7 of the regressive product (join), before the scale division.
pub open spec fn vee_t7(a: Seq<int>, b: Seq<int>) -> int {
    a[7] * b[7]
}

/// The regressive product (join): the exact integer sum of each row, scaled back down by
/// one truncating division.
pub open spec fn vee_s(a: Seq<int>, b: Seq<int>) -> Seq<int> {
    seq![
        dtr(vee_t0(a, b), SCALE as int),
        dtr(vee_t1(a, b), SCALE as int),
        dtr(vee_t2(a, b), SCALE as int),
        dtr(vee_t3(a, b), SCALE as int),
        dtr(vee_t4(a, b), SCALE as int),
        dtr(vee_t5(a, b), SCALE as int),
        dtr(vee_t6(a, b), SCALE as int),
        dtr(vee_t7(a, b), SCALE as int),
    ]
}


/// Coefficient 0 of the inner product, before the scale division.
pub open spec fn dot_t0(a: Seq<int>, b: Seq<int>) -> int {
    b[0] * a[0] + b[1] * a[1] - b[2] * a[2] - b[3] * a[3] + b[4] * a[4] + b[5] * a[5] - b[6] * a[6] - b[7] * a[7]
}

/// Coefficient 1 of the inner product, before the scale division.
pub open spec fn dot_t1(a: Seq<int>, b: Seq<int>) -> int {
    b[1] * a[0] + b[0] * a[1] + b[4] * a[2] + b[5] * a[3] - b[2] * a[4] - b[3] * a[5] - b[7] * a[6] - b[6] * a[7]
}

/// Coefficient 2 of the inner product, before the scale division.
pub open spec fn dot_t2(a: Seq<int>, b: Seq<int>) -> int {
    b[2] * a[0] + b[4] * a[1] + b[0] * a[2] + b[6] * a[3] - b[1] * a[4] - b[7] * a[5] - b[3] * a[6] - b[5] * a[7]
}

/// Coefficient 3 of the inner product, before the scale division.
pub open spec fn dot_t3(a: Seq<int>, b: Seq<int>) -> int {
    b[3] * a[0] + b[5] * a[1] - b[6] * a[2] + b[0] * a[3] + b[7] * a[4] - b[1] * a[5] + b[2] * a[6] + b[4] * a[7]
}

/// Coefficient 4 of the inner product, before the scale division.
pub open spec fn dot_t4(a: Seq<int>, b: Seq<int>) -> int {
    b[4] * a[0] - b[7] * a[3] + b[0] * a[4] - b[3] * a[7]
}

/// Coefficient 5 of the inner product, before the scale division.
pub open spec fn dot_t5(a: Seq<int>, b: Seq<int>) -> int {
    b[5] * a[0] + b[7] * a[2] + b[0] * a[5] + b[2] * a[7]
}

/// Coefficient 6 of the inner product, before the scale division.
pub open spec fn dot_t6(a: Seq<int>, b: Seq<int>) -> int {
    b[6] * a[0] + b[7] * a[1] + b[0] * a[6] + b[1] * a[7]
}

/// Coefficient 7 of the inner product, before the scale division.
pub open spec fn dot_t7(a: Seq<int>, b: Seq<int>) -> int {
    b[7] * a[0] + b[0] * a[7]
}

/// The inner product: the exact integer sum of each row, scaled back down by
/// one truncating division.
pub open spec fn dot_s(a: Seq<int>, b: Seq<int>) -> Seq<int> {
    seq![
        dtr(dot_t0(a, b), SCALE as int),
        dtr(dot_t1(a, b), SCALE as int),
        dtr(dot_t2(a, b), SCALE as int),
        dtr(dot_t3(a, b), SCALE as int),
        dtr(dot_t4(a, b), SCALE as int),
        dtr(dot_t5(a, b), SCALE as int),
        dtr(dot_t6(a, b), SCALE as int),
        dtr(dot_t7(a, b), SCALE as int),
    ]
}


/// The scalar coefficient of `a` times its Clifford conjugate: the squared
/// norm, up to sign.
pub open spec fn norm_scalar_s(a: Seq<int>) -> int {
    gp_s(a, conjugate_s(a))[0]
}

/// The norm: square root of the magnitude of the scalar part of
/// `a * conjugate(a)`. The magnitude guard is a domain choice: boost-type
/// elements square to a negative scalar.
pub open spec fn norm_s(a: Seq<int>) -> int {
    fx_sqrt_s(abs_i(norm_scalar_s(a)))
}

/// The dual norm.
pub open spec fn inorm_s(a: Seq<int>) -> int {
    norm_s(dual_s(a))
}

/// Normalization: scale by the reciprocal of the norm; a zero-norm input maps
/// to zero by convention, not by fault.
pub open spec fn normalized_s(a: Seq<int>) -> Seq<int> {
    if norm_s(a) == 0 {
        smul_s(a, 0)
    } else {
        smul_s(a, fx_div_s(SCALE as int, norm_s(a)))
    }
}


/// A multivector of the algebra: eight raw fixed-point coefficients.
#[derive(Clone, Copy, PartialEq, Eq, Debug)]
pub struct R120 {
    mvec: [i128; 8],
}

impl View for R120 {
    type V = Seq<int>;

    closed spec fn view(&self) -> Seq<int> {
        Seq::new(8, |i: int| self.mvec[i] as int)
    }
}

/// The view of a multivector always has exactly eight coefficients.
pub broadcast proof fn lemma_r120_view_len(m: R120)
    ensures
        #[trigger] m@.len() == 8,
{
}

impl R120 {
    /// The zero multivector.
    pub fn zero() -> (res: R120)
        ensures
            res@ == zero_s(),
    {
        let res = R120 { mvec: [0, 0, 0, 0, 0, 0, 0, 0] };
        proof {
            assert(res@ =~= zero_s());
        }
        res
    }

    /// A multivector with the single coefficient `f` at basis index `idx`.
    pub fn new(f: i128, idx: usize) -> (res: R120)
        requires
            idx < 8,
        ensures
            res@ == zero_s().update(idx as int, f as int),
    {
        let mut ret = R120::zero();
        ret.set_coeff(idx, f);
        proof {
            assert(ret@ =~= zero_s().update(idx as int, f as int));
        }
        ret
    }

    /// A multivector from all eight raw coefficients at once.
    pub fn from_array(m: [i128; 8]) -> (res: R120)
        ensures
            res@.len() == 8,
            forall|i: int| 0 <= i < 8 ==> res@[i] == m[i] as int,
    {
        R120 { mvec: m }
    }

    /// The raw coefficient at basis index `idx`.
    pub fn coeff(&self, idx: usize) -> (r: i128)
        requires
            idx < 8,
        ensures
            r as int == self@[idx as int],
    {
        self.mvec[idx]
    }

    /// Replace the coefficient at basis index `idx`.
    pub fn set_coeff(&mut self, idx: usize, f: i128)
        requires
            idx < 8,
        ensures
            final(self)@ =~= old(self)@.update(idx as int, f as int),
    {
        self.mvec[idx] = f;
    }


    /// Reversion, negating the bivector and trivector coefficients.
    #[allow(non_snake_case)]
    pub fn Reverse(self) -> (res: R120)
        requires
            in_range(self@, LIN_MAX as int),
        ensures
            res@ == reverse_s(self@),
    {
        let a = self;
        proof {
            assert(a.mvec[0] as int == self@[0]);
            assert(-LIN_MAX <= self@[0] <= LIN_MAX);
            assert(a.mvec[1] as int == self@[1]);
            assert(-LIN_MAX <= self@[1] <= LIN_MAX);
            assert(a.mvec[2] as int == self@[2]);
            assert(-LIN_MAX <= self@[2] <= LIN_MAX);
            assert(a.mvec[3] as int == self@[3]);
            assert(-LIN_MAX <= self@[3] <= LIN_MAX);
            assert(a.mvec[4] as int == self@[4]);
            assert(-LIN_MAX <= self@[4] <= LIN_MAX);
            assert(a.mvec[5] as int == self@[5]);
            assert(-LIN_MAX <= self@[5] <= LIN_MAX);
            assert(a.mvec[6] as int == self@[6]);
            assert(-LIN_MAX <= self@[6] <= LIN_MAX);
            assert(a.mvec[7] as int == self@[7]);
            assert(-LIN_MAX <= self@[7] <= LIN_MAX);
        }
        let res = R120 { mvec: [a.mvec[0], a.mvec[1], a.mvec[2], a.mvec[3], -a.mvec[4], -a.mvec[5], -a.mvec[6], -a.mvec[7]] };
        proof {
            assert(res@ =~= reverse_s(self@));
        }
        res
    }

    /// Poincare duality.
    #[allow(non_snake_case)]
    pub fn Dual(self) -> (res: R120)
        requires
            in_range(self@, LIN_MAX as int),
        ensures
            res@ == dual_s(self@),
    {
        let a = self;
        proof {
            assert(a.mvec[0] as int == self@[0]);
            assert(-LIN_MAX <= self@[0] <= LIN_MAX);
            assert(a.mvec[1] as int == self@[1]);
            assert(-LIN_MAX <= self@[1] <= LIN_MAX);
            assert(a.mvec[2] as int == self@[2]);
            assert(-LIN_MAX <= self@[2] <= LIN_MAX);
            assert(a.mvec[3] as int == self@[3]);
            assert(-LIN_MAX <= self@[3] <= LIN_MAX);
            assert(a.mvec[4] as int == self@[4]);
            assert(-LIN_MAX <= self@[4] <= LIN_MAX);
            assert(a.mvec[5] as int == self@[5]);
            assert(-LIN_MAX <= self@[5] <= LIN_MAX);
            assert(a.mvec[6] as int == self@[6]);
            assert(-LIN_MAX <= self@[6] <= LIN_MAX);
            assert(a.mvec[7] as int == self@[7]);
            assert(-LIN_MAX <= self@[7] <= LIN_MAX);
        }
        let res = R120 { mvec: [-a.mvec[7], -a.mvec[6], -a.mvec[5], a.mvec[4], -a.mvec[3], a.mvec[2], a.mvec[1], a.mvec[0]] };
        proof {
            assert(res@ =~= dual_s(self@));
        }
        res
    }

    /// Clifford conjugation.
    #[allow(non_snake_case)]
    pub fn Conjugate(self) -> (res: R120)
        requires
            in_range(self@, LIN_MAX as int),
        ensures
            res@ == conjugate_s(self@),
    {
        let a = self;
        proof {
            assert(a.mvec[0] as int == self@[0]);
            assert(-LIN_MAX <= self@[0] <= LIN_MAX);
            assert(a.mvec[1] as int == self@[1]);
            assert(-LIN_MAX <= self@[1] <= LIN_MAX);
            assert(a.mvec[2] as int == self@[2]);
            assert(-LIN_MAX <= self@[2] <= LIN_MAX);
            assert(a.mvec[3] as int == self@[3]);
            assert(-LIN_MAX <= self@[3] <= LIN_MAX);
            assert(a.mvec[4] as int == self@[4]);
            assert(-LIN_MAX <= self@[4] <= LIN_MAX);
            assert(a.mvec[5] as int == self@[5]);
            assert(-LIN_MAX <= self@[5] <= LIN_MAX);
            assert(a.mvec[6] as int == self@[6]);
            assert(-LIN_MAX <= self@[6] <= LIN_MAX);
            assert(a.mvec[7] as int == self@[7]);
            assert(-LIN_MAX <= self@[7] <= LIN_MAX);
        }
        let res = R120 { mvec: [a.mvec[0], -a.mvec[1], -a.mvec[2], -a.mvec[3], -a.mvec[4], -a.mvec[5], -a.mvec[6], a.mvec[7]] };
        proof {
            assert(res@ =~= conjugate_s(self@));
        }
        res
    }

    /// The main involution.
    #[allow(non_snake_case)]
    pub fn Involute(self) -> (res: R120)
        requires
            in_range(self@, LIN_MAX as int),
        ensures
            res@ == involute_s(self@),
    {
        let a = self;
        proof {
            assert(a.mvec[0] as int == self@[0]);
            assert(-LIN_MAX <= self@[0] <= LIN_MAX);
            assert(a.mvec[1] as int == self@[1]);
            assert(-LIN_MAX <= self@[1] <= LIN_MAX);
            assert(a.mvec[2] as int == self@[2]);
            assert(-LIN_MAX <= self@[2] <= LIN_MAX);
            assert(a.mvec[3] as int == self@[3]);
            assert(-LIN_MAX <= self@[3] <= LIN_MAX);
            assert(a.mvec[4] as int == self@[4]);
            assert(-LIN_MAX <= self@[4] <= LIN_MAX);
            assert(a.mvec[5] as int == self@[5]);
            assert(-LIN_MAX <= self@[5] <= LIN_MAX);
            assert(a.mvec[6] as int == self@[6]);
            assert(-LIN_MAX <= self@[6] <= LIN_MAX);
            assert(a.mvec[7] as int == self@[7]);
            assert(-LIN_MAX <= self@[7] <= LIN_MAX);
        }
        let res = R120 { mvec: [a.mvec[0], -a.mvec[1], -a.mvec[2], -a.mvec[3], a.mvec[4], a.mvec[5], a.mvec[6], -a.mvec[7]] };
        proof {
            assert(res@ =~= involute_s(self@));
        }
        res
    }

    /// Coefficientwise negation.
    pub fn neg(self) -> (res: R120)
        requires
            in_range(self@, LIN_MAX as int),
        ensures
            res@ == neg_s(self@),
    {
        let a = self;
        proof {
            assert(a.mvec[0] as int == self@[0]);
            assert(-LIN_MAX <= self@[0] <= LIN_MAX);
            assert(a.mvec[1] as int == self@[1]);
            assert(-LIN_MAX <= self@[1] <= LIN_MAX);
            assert(a.mvec[2] as int == self@[2]);
            assert(-LIN_MAX <= self@[2] <= LIN_MAX);
            assert(a.mvec[3] as int == self@[3]);
            assert(-LIN_MAX <= self@[3] <= LIN_MAX);
            assert(a.mvec[4] as int == self@[4]);
            assert(-LIN_MAX <= self@[4] <= LIN_MAX);
            assert(a.mvec[5] as int == self@[5]);
            assert(-LIN_MAX <= self@[5] <= LIN_MAX);
            assert(a.mvec[6] as int == self@[6]);
            assert(-LIN_MAX <= self@[6] <= LIN_MAX);
            assert(a.mvec[7] as int == self@[7]);
            assert(-LIN_MAX <= self@[7] <= LIN_MAX);
        }
        let res = R120 { mvec: [-a.mvec[0], -a.mvec[1], -a.mvec[2], -a.mvec[3], -a.mvec[4], -a.mvec[5], -a.mvec[6], -a.mvec[7]] };
        proof {
            assert(res@ =~= neg_s(self@));
        }
        res
    }

    /// The geometric product: bilinear, grade-mixing, not commutative.
    #[verifier::rlimit(100)]
    pub fn geometric_product(self, b: R120) -> (res: R120)
        requires
            in_range(self@, PROD_MAX as int),
            in_range(b@, PROD_MAX as int),
        ensures
            res@ == gp_s(self@, b@),
    {
        let a = self;
        let a0 = a.mvec[0];
        let a1 = a.mvec[1];
        let a2 = a.mvec[2];
        let a3 = a.mvec[3];
        let a4 = a.mvec[4];
        let a5 = a.mvec[5];
        let a6 = a.mvec[6];
        let a7 = a.mvec[7];
        let b0 = b.mvec[0];
        let b1 = b.mvec[1];
        let b2 = b.mvec[2];
        let b3 = b.mvec[3];
        let b4 = b.mvec[4];
        let b5 = b.mvec[5];
        let b6 = b.mvec[6];
        let b7 = b.mvec[7];
        proof {
            assert(a0 as int == self@[0]);
            assert(a1 as int == self@[1]);
            assert(a2 as int == self@[2]);
            assert(a3 as int == self@[3]);
            assert(a4 as int == self@[4]);
            assert(a5 as int == self@[5]);
            assert(a6 as int == self@[6]);
            assert(a7 as int == self@[7]);
            assert(b0 as int == b@[0]);
            assert(b1 as int == b@[1]);
            assert(b2 as int == b@[2]);
            assert(b3 as int == b@[3]);
            assert(b4 as int == b@[4]);
            assert(b5 as int == b@[5]);
            assert(b6 as int == b@[6]);
            assert(b7 as int == b@[7]);
            lemma_products_bounded(a0 as int, a1 as int, a2 as int, a3 as int, a4 as int, a5 as int, a6 as int, a7 as int, b0 as int, b1 as int, b2 as int, b3 as int, b4 as int, b5 as int, b6 as int, b7 as int, PROD_MAX as int);
        }
        let t0: i128 = b0 * a0 + b1 * a1 - b2 * a2 - b3 * a3 + b4 * a4 + b5 * a5 - b6 * a6 - b7 * a7;
        let t1: i128 = b1 * a0 + b0 * a1 + b4 * a2 + b5 * a3 - b2 * a4 - b3 * a5 - b7 * a6 - b6 * a7;
        let t2: i128 = b2 * a0 + b4 * a1 + b0 * a2 + b6 * a3 - b1 * a4 - b7 * a5 - b3 * a6 - b5 * a7;
        let t3: i128 = b3 * a0 + b5 * a1 - b6 * a2 + b0 * a3 + b7 * a4 - b1 * a5 + b2 * a6 + b4 * a7;
        let t4: i128 = b4 * a0 + b2 * a1 - b1 * a2 - b7 * a3 + b0 * a4 + b6 * a5 - b5 * a6 - b3 * a7;
        let t5: i128 = b5 * a0 + b3 * a1 + b7 * a2 - b1 * a3 - b6 * a4 + b0 * a5 + b4 * a6 + b2 * a7;
        let t6: i128 = b6 * a0 + b7 * a1 + b3 * a2 - b2 * a3 - b5 * a4 + b4 * a5 + b0 * a6 + b1 * a7;
        let t7: i128 = b7 * a0 + b6 * a1 - b5 * a2 + b4 * a3 + b3 * a4 - b2 * a5 + b1 * a6 + b0 * a7;
        proof {
            lemma_dtr_mag(t0 as int, SCALE as int);
            lemma_dtr_mag(t1 as int, SCALE as int);
            lemma_dtr_mag(t2 as int, SCALE as int);
            lemma_dtr_mag(t3 as int, SCALE as int);
            lemma_dtr_mag(t4 as int, SCALE as int);
            lemma_dtr_mag(t5 as int, SCALE as int);
            lemma_dtr_mag(t6 as int, SCALE as int);
            lemma_dtr_mag(t7 as int, SCALE as int);
        }
        let res = R120 { mvec: [t0 / SCALE, t1 / SCALE, t2 / SCALE, t3 / SCALE, t4 / SCALE, t5 / SCALE, t6 / SCALE, t7 / SCALE] };
        proof {
            assert(t0 as int == gp_t0(self@, b@));
            assert(t1 as int == gp_t1(self@, b@));
            assert(t2 as int == gp_t2(self@, b@));
            assert(t3 as int == gp_t3(self@, b@));
            assert(t4 as int == gp_t4(self@, b@));
            assert(t5 as int == gp_t5(self@, b@));
            assert(t6 as int == gp_t6(self@, b@));
            assert(t7 as int == gp_t7(self@, b@));
            assert(res@[0] == dtr(t0 as int, SCALE as int));
            assert(res@[1] == dtr(t1 as int, SCALE as int));
            assert(res@[2] == dtr(t2 as int, SCALE as int));
            assert(res@[3] == dtr(t3 as int, SCALE as int));
            assert(res@[4] == dtr(t4 as int, SCALE as int));
            assert(res@[5] == dtr(t5 as int, SCALE as int));
            assert(res@[6] == dtr(t6 as int, SCALE as int));
            assert(res@[7] == dtr(t7 as int, SCALE as int));
            assert(res@ =~= gp_s(self@, b@));
        }
        res
    }

    /// The outer product (meet): antisymmetric and grade-raising.
    #[verifier::rlimit(100)]
    pub fn wedge(self, b: R120) -> (res: R120)
        requires
            in_range(self@, PROD_MAX as int),
            in_range(b@, PROD_MAX as int),
        ensures
            res@ == wedge_s(self@, b@),
    {
        let a = self;
        let a0 = a.mvec[0];
        let a1 = a.mvec[1];
        let a2 = a.mvec[2];
        let a3 = a.mvec[3];
        let a4 = a.mvec[4];
        let a5 = a.mvec[5];
        let a6 = a.mvec[6];
        let a7 = a.mvec[7];
        let b0 = b.mvec[0];
        let b1 = b.mvec[1];
        let b2 = b.mvec[2];
        let b3 = b.mvec[3];
        let b4 = b.mvec[4];
        let b5 = b.mvec[5];
        let b6 = b.mvec[6];
        let b7 = b.mvec[7];
        proof {
            assert(a0 as int == self@[0]);
            assert(a1 as int == self@[1]);
            assert(a2 as int == self@[2]);
            assert(a3 as int == self@[3]);
            assert(a4 as int == self@[4]);
            assert(a5 as int == self@[5]);
            assert(a6 as int == self@[6]);
            assert(a7 as int == self@[7]);
            assert(b0 as int == b@[0]);
            assert(b1 as int == b@[1]);
            assert(b2 as int == b@[2]);
            assert(b3 as int == b@[3]);
            assert(b4 as int == b@[4]);
            assert(b5 as int == b@[5]);
            assert(b6 as int == b@[6]);
            assert(b7 as int == b@[7]);
            lemma_products_bounded(a0 as int, a1 as int, a2 as int, a3 as int, a4 as int, a5 as int, a6 as int, a7 as int, b0 as int, b1 as int, b2 as int, b3 as int, b4 as int, b5 as int, b6 as int, b7 as int, PROD_MAX as int);
        }
        let t0: i128 = b0 * a0;
        let t1: i128 = b1 * a0 + b0 * a1;
        let t2: i128 = b2 * a0 + b0 * a2;
        let t3: i128 = b3 * a0 + b0 * a3;
        let t4: i128 = b4 * a0 + b2 * a1 - b1 * a2 + b0 * a4;
        let t5: i128 = b5 * a0 + b3 * a1 - b1 * a3 + b0 * a5;
        let t6: i128 = b6 * a0 + b3 * a2 - b2 * a3 + b0 * a6;
        let t7: i128 = b7 * a0 + b6 * a1 - b5 * a2 + b4 * a3 + b3 * a4 - b2 * a5 + b1 * a6 + b0 * a7;
        proof {
            lemma_dtr_mag(t0 as int, SCALE as int);
            lemma_dtr_mag(t1 as int, SCALE as int);
            lemma_dtr_mag(t2 as int, SCALE as int);
            lemma_dtr_mag(t3 as int, SCALE as int);
            lemma_dtr_mag(t4 as int, SCALE as int);
            lemma_dtr_mag(t5 as int, SCALE as int);
            lemma_dtr_mag(t6 as int, SCALE as int);
            lemma_dtr_mag(t7 as int, SCALE as int);
        }
        let res = R120 { mvec: [t0 / SCALE, t1 / SCALE, t2 / SCALE, t3 / SCALE, t4 / SCALE, t5 / SCALE, t6 / SCALE, t7 / SCALE] };
        proof {
            assert(t0 as int == wedge_t0(self@, b@));
            assert(t1 as int == wedge_t1(self@, b@));
            assert(t2 as int == wedge_t2(self@, b@));
            assert(t3 as int == wedge_t3(self@, b@));
            assert(t4 as int == wedge_t4(self@, b@));
            assert(t5 as int == wedge_t5(self@, b@));
            assert(t6 as int == wedge_t6(self@, b@));
            assert(t7 as int == wedge_t7(self@, b@));
            assert(res@[0] == dtr(t0 as int, SCALE as int));
            assert(res@[1] == dtr(t1 as int, SCALE as int));
            assert(res@[2] == dtr(t2 as int, SCALE as int));
            assert(res@[3] == dtr(t3 as int, SCALE as int));
            assert(res@[4] == dtr(t4 as int, SCALE as int));
            assert(res@[5] == dtr(t5 as int, SCALE as int));
            assert(res@[6] == dtr(t6 as int, SCALE as int));
            assert(res@[7] == dtr(t7 as int, SCALE as int));
            assert(res@ =~= wedge_s(self@, b@));
        }
        res
    }

    /// The regressive product (join): the dual of the outer product.
    #[verifier::rlimit(100)]
    pub fn vee(self, b: R120) -> (res: R120)
        requires
            in_range(self@, PROD_MAX as int),
            in_range(b@, PROD_MAX as int),
        ensures
            res@ == vee_s(self@, b@),
    {
        let a = self;
        let a0 = a.mvec[0];
        let a1 = a.mvec[1];
        let a2 = a.mvec[2];
        let a3 = a.mvec[3];
        let a4 = a.mvec[4];
        let a5 = a.mvec[5];
        let a6 = a.mvec[6];
        let a7 = a.mvec[7];
        let b0 = b.mvec[0];
        let b1 = b.mvec[1];
        let b2 = b.mvec[2];
        let b3 = b.mvec[3];
        let b4 = b.mvec[4];
        let b5 = b.mvec[5];
        let b6 = b.mvec[6];
        let b7 = b.mvec[7];
        proof {
            assert(a0 as int == self@[0]);
            assert(a1 as int == self@[1]);
            assert(a2 as int == self@[2]);
            assert(a3 as int == self@[3]);
            assert(a4 as int == self@[4]);
            assert(a5 as int == self@[5]);
            assert(a6 as int == self@[6]);
            assert(a7 as int == self@[7]);
            assert(b0 as int == b@[0]);
            assert(b1 as int == b@[1]);
            assert(b2 as int == b@[2]);
            assert(b3 as int == b@[3]);
            assert(b4 as int == b@[4]);
            assert(b5 as int == b@[5]);
            assert(b6 as int == b@[6]);
            assert(b7 as int == b@[7]);
            lemma_products_bounded(a0 as int, a1 as int, a2 as int, a3 as int, a4 as int, a5 as int, a6 as int, a7 as int, b0 as int, b1 as int, b2 as int, b3 as int, b4 as int, b5 as int, b6 as int, b7 as int, PROD_MAX as int);
        }
        let t0: i128 = a0 * b7 + a1 * b6 - a2 * b5 + a3 * b4 + a4 * b3 - a5 * b2 + a6 * b1 + a7 * b0;
        let t1: i128 = a1 * b7 - a4 * b5 + a5 * b4 + a7 * b1;
        let t2: i128 = a2 * b7 - a4 * b6 + a6 * b4 + a7 * b2;
        let t3: i128 = a3 * b7 - a5 * b6 + a6 * b5 + a7 * b3;
        let t4: i128 = a4 * b7 + a7 * b4;
        let t5: i128 = a5 * b7 + a7 * b5;
        let t6: i128 = a6 * b7 + a7 * b6;
        let t7: i128 = a7 * b7;
        proof {
            lemma_dtr_mag(t0 as int, SCALE as int);
            lemma_dtr_mag(t1 as int, SCALE as int);
            lemma_dtr_mag(t2 as int, SCALE as int);
            lemma_dtr_mag(t3 as int, SCALE as int);
            lemma_dtr_mag(t4 as int, SCALE as int);
            lemma_dtr_mag(t5 as int, SCALE as int);
            lemma_dtr_mag(t6 as int, SCALE as int);
            lemma_dtr_mag(t7 as int, SCALE as int);
        }
        let res = R120 { mvec: [t0 / SCALE, t1 / SCALE, t2 / SCALE, t3 / SCALE, t4 / SCALE, t5 / SCALE, t6 / SCALE, t7 / SCALE] };
        proof {
            assert(t0 as int == vee_t0(self@, b@));
            assert(t1 as int == vee_t1(self@, b@));
            assert(t2 as int == vee_t2(self@, b@));
            assert(t3 as int == vee_t3(self@, b@));
            assert(t4 as int == vee_t4(self@, b@));
            assert(t5 as int == vee_t5(self@, b@));
            assert(t6 as int == vee_t6(self@, b@));
            assert(t7 as int == vee_t7(self@, b@));
            assert(res@[0] == dtr(t0 as int, SCALE as int));
            assert(res@[1] == dtr(t1 as int, SCALE as int));
            assert(res@[2] == dtr(t2 as int, SCALE as int));
            assert(res@[3] == dtr(t3 as int, SCALE as int));
            assert(res@[4] == dtr(t4 as int, SCALE as int));
            assert(res@[5] == dtr(t5 as int, SCALE as int));
            assert(res@[6] == dtr(t6 as int, SCALE as int));
            assert(res@[7] == dtr(t7 as int, SCALE as int));
            assert(res@ =~= vee_s(self@, b@));
        }
        res
    }

    /// The inner product: the symmetric, grade-lowering contraction.
    #[verifier::rlimit(100)]
    pub fn dot(self, b: R120) -> (res: R120)
        requires
            in_range(self@, PROD_MAX as int),
            in_range(b@, PROD_MAX as int),
        ensures
            res@ == dot_s(self@, b@),
    {
        let a = self;
        let a0 = a.mvec[0];
        let a1 = a.mvec[1];
        let a2 = a.mvec[2];
        let a3 = a.mvec[3];
        let a4 = a.mvec[4];
        let a5 = a.mvec[5];
        let a6 = a.mvec[6];
        let a7 = a.mvec[7];
        let b0 = b.mvec[0];
        let b1 = b.mvec[1];
        let b2 = b.mvec[2];
        let b3 = b.mvec[3];
        let b4 = b.mvec[4];
        let b5 = b.mvec[5];
        let b6 = b.mvec[6];
        let b7 = b.mvec[7];
        proof {
            assert(a0 as int == self@[0]);
            assert(a1 as int == self@[1]);
            assert(a2 as int == self@[2]);
            assert(a3 as int == self@[3]);
            assert(a4 as int == self@[4]);
            assert(a5 as int == self@[5]);
            assert(a6 as int == self@[6]);
            assert(a7 as int == self@[7]);
            assert(b0 as int == b@[0]);
            assert(b1 as int == b@[1]);
            assert(b2 as int == b@[2]);
            assert(b3 as int == b@[3]);
            assert(b4 as int == b@[4]);
            assert(b5 as int == b@[5]);
            assert(b6 as int == b@[6]);
            assert(b7 as int == b@[7]);
            lemma_products_bounded(a0 as int, a1 as int, a2 as int, a3 as int, a4 as int, a5 as int, a6 as int, a7 as int, b0 as int, b1 as int, b2 as int, b3 as int, b4 as int, b5 as int, b6 as int, b7 as int, PROD_MAX as int);
        }
        let t0: i128 = b0 * a0 + b1 * a1 - b2 * a2 - b3 * a3 + b4 * a4 + b5 * a5 - b6 * a6 - b7 * a7;
        let t1: i128 = b1 * a0 + b0 * a1 + b4 * a2 + b5 * a3 - b2 * a4 - b3 * a5 - b7 * a6 - b6 * a7;
        let t2: i128 = b2 * a0 + b4 * a1 + b0 * a2 + b6 * a3 - b1 * a4 - b7 * a5 - b3 * a6 - b5 * a7;
        let t3: i128 = b3 * a0 + b5 * a1 - b6 * a2 + b0 * a3 + b7 * a4 - b1 * a5 + b2 * a6 + b4 * a7;
        let t4: i128 = b4 * a0 - b7 * a3 + b0 * a4 - b3 * a7;
        let t5: i128 = b5 * a0 + b7 * a2 + b0 * a5 + b2 * a7;
        let t6: i128 = b6 * a0 + b7 * a1 + b0 * a6 + b1 * a7;
        let t7: i128 = b7 * a0 + b0 * a7;
        proof {
            lemma_dtr_mag(t0 as int, SCALE as int);
            lemma_dtr_mag(t1 as int, SCALE as int);
            lemma_dtr_mag(t2 as int, SCALE as int);
            lemma_dtr_mag(t3 as int, SCALE as int);
            lemma_dtr_mag(t4 as int, SCALE as int);
            lemma_dtr_mag(t5 as int, SCALE as int);
            lemma_dtr_mag(t6 as int, SCALE as int);
            lemma_dtr_mag(t7 as int, SCALE as int);
        }
        let res = R120 { mvec: [t0 / SCALE, t1 / SCALE, t2 / SCALE, t3 / SCALE, t4 / SCALE, t5 / SCALE, t6 / SCALE, t7 / SCALE] };
        proof {
            assert(t0 as int == dot_t0(self@, b@));
            assert(t1 as int == dot_t1(self@, b@));
            assert(t2 as int == dot_t2(self@, b@));
            assert(t3 as int == dot_t3(self@, b@));
            assert(t4 as int == dot_t4(self@, b@));
            assert(t5 as int == dot_t5(self@, b@));
            assert(t6 as int == dot_t6(self@, b@));
            assert(t7 as int == dot_t7(self@, b@));
            assert(res@[0] == dtr(t0 as int, SCALE as int));
            assert(res@[1] == dtr(t1 as int, SCALE as int));
            assert(res@[2] == dtr(t2 as int, SCALE as int));
            assert(res@[3] == dtr(t3 as int, SCALE as int));
            assert(res@[4] == dtr(t4 as int, SCALE as int));
            assert(res@[5] == dtr(t5 as int, SCALE as int));
            assert(res@[6] == dtr(t6 as int, SCALE as int));
            assert(res@[7] == dtr(t7 as int, SCALE as int));
            assert(res@ =~= dot_s(self@, b@));
        }
        res
    }

    /// Coefficientwise sum.
    pub fn add(self, b: R120) -> (res: R120)
        requires
            in_range(self@, LIN_MAX as int),
            in_range(b@, LIN_MAX as int),
        ensures
            res@ == add_s(self@, b@),
    {
        let a = self;
        proof {
            assert(a.mvec[0] as int == self@[0]);
            assert(b.mvec[0] as int == b@[0]);
            assert(-LIN_MAX <= self@[0] <= LIN_MAX);
            assert(-LIN_MAX <= b@[0] <= LIN_MAX);
            assert(a.mvec[1] as int == self@[1]);
            assert(b.mvec[1] as int == b@[1]);
            assert(-LIN_MAX <= self@[1] <= LIN_MAX);
            assert(-LIN_MAX <= b@[1] <= LIN_MAX);
            assert(a.mvec[2] as int == self@[2]);
            assert(b.mvec[2] as int == b@[2]);
            assert(-LIN_MAX <= self@[2] <= LIN_MAX);
            assert(-LIN_MAX <= b@[2] <= LIN_MAX);
            assert(a.mvec[3] as int == self@[3]);
            assert(b.mvec[3] as int == b@[3]);
            assert(-LIN_MAX <= self@[3] <= LIN_MAX);
            assert(-LIN_MAX <= b@[3] <= LIN_MAX);
            assert(a.mvec[4] as int == self@[4]);
            assert(b.mvec[4] as int == b@[4]);
            assert(-LIN_MAX <= self@[4] <= LIN_MAX);
            assert(-LIN_MAX <= b@[4] <= LIN_MAX);
            assert(a.mvec[5] as int == self@[5]);
            assert(b.mvec[5] as int == b@[5]);
            assert(-LIN_MAX <= self@[5] <= LIN_MAX);
            assert(-LIN_MAX <= b@[5] <= LIN_MAX);
            assert(a.mvec[6] as int == self@[6]);
            assert(b.mvec[6] as int == b@[6]);
            assert(-LIN_MAX <= self@[6] <= LIN_MAX);
            assert(-LIN_MAX <= b@[6] <= LIN_MAX);
            assert(a.mvec[7] as int == self@[7]);
            assert(b.mvec[7] as int == b@[7]);
            assert(-LIN_MAX <= self@[7] <= LIN_MAX);
            assert(-LIN_MAX <= b@[7] <= LIN_MAX);
        }
        let res = R120 { mvec: [a.mvec[0] + b.mvec[0], a.mvec[1] + b.mvec[1], a.mvec[2] + b.mvec[2], a.mvec[3] + b.mvec[3], a.mvec[4] + b.mvec[4], a.mvec[5] + b.mvec[5], a.mvec[6] + b.mvec[6], a.mvec[7] + b.mvec[7]] };
        proof {
            assert(res@ =~= add_s(self@, b@));
        }
        res
    }

    /// Coefficientwise difference.
    pub fn sub(self, b: R120) -> (res: R120)
        requires
            in_range(self@, LIN_MAX as int),
            in_range(b@, LIN_MAX as int),
        ensures
            res@ == sub_s(self@, b@),
    {
        let a = self;
        proof {
            assert(a.mvec[0] as int == self@[0]);
            assert(b.mvec[0] as int == b@[0]);
            assert(-LIN_MAX <= self@[0] <= LIN_MAX);
            assert(-LIN_MAX <= b@[0] <= LIN_MAX);
            assert(a.mvec[1] as int == self@[1]);
            assert(b.mvec[1] as int == b@[1]);
            assert(-LIN_MAX <= self@[1] <= LIN_MAX);
            assert(-LIN_MAX <= b@[1] <= LIN_MAX);
            assert(a.mvec[2] as int == self@[2]);
            assert(b.mvec[2] as int == b@[2]);
            assert(-LIN_MAX <= self@[2] <= LIN_MAX);
            assert(-LIN_MAX <= b@[2] <= LIN_MAX);
            assert(a.mvec[3] as int == self@[3]);
            assert(b.mvec[3] as int == b@[3]);
            assert(-LIN_MAX <= self@[3] <= LIN_MAX);
            assert(-LIN_MAX <= b@[3] <= LIN_MAX);
            assert(a.mvec[4] as int == self@[4]);
            assert(b.mvec[4] as int == b@[4]);
            assert(-LIN_MAX <= self@[4] <= LIN_MAX);
            assert(-LIN_MAX <= b@[4] <= LIN_MAX);
            assert(a.mvec[5] as int == self@[5]);
            assert(b.mvec[5] as int == b@[5]);
            assert(-LIN_MAX <= self@[5] <= LIN_MAX);
            assert(-LIN_MAX <= b@[5] <= LIN_MAX);
            assert(a.mvec[6] as int == self@[6]);
            assert(b.mvec[6] as int == b@[6]);
            assert(-LIN_MAX <= self@[6] <= LIN_MAX);
            assert(-LIN_MAX <= b@[6] <= LIN_MAX);
            assert(a.mvec[7] as int == self@[7]);
            assert(b.mvec[7] as int == b@[7]);
            assert(-LIN_MAX <= self@[7] <= LIN_MAX);
            assert(-LIN_MAX <= b@[7] <= LIN_MAX);
        }
        let res = R120 { mvec: [a.mvec[0] - b.mvec[0], a.mvec[1] - b.mvec[1], a.mvec[2] - b.mvec[2], a.mvec[3] - b.mvec[3], a.mvec[4] - b.mvec[4], a.mvec[5] - b.mvec[5], a.mvec[6] - b.mvec[6], a.mvec[7] - b.mvec[7]] };
        proof {
            assert(res@ =~= sub_s(self@, b@));
        }
        res
    }

    /// Every coefficient scaled by the fixed-point scalar `k`.
    pub fn scale(self, k: i128) -> (res: R120)
        requires
            in_range(self@, PROD_MAX as int),
            -PROD_MAX <= k <= PROD_MAX,
        ensures
            res@ == smul_s(self@, k as int),
    {
        let a = self;
        proof {
            assert(a.mvec[0] as int == self@[0]);
            assert(-PROD_MAX <= self@[0] <= PROD_MAX);
            lemma_mul_bound(self@[0], k as int, PROD_MAX as int, PROD_MAX as int);
            lemma_dtr_mag(self@[0] * (k as int), SCALE as int);
            assert(a.mvec[1] as int == self@[1]);
            assert(-PROD_MAX <= self@[1] <= PROD_MAX);
            lemma_mul_bound(self@[1], k as int, PROD_MAX as int, PROD_MAX as int);
            lemma_dtr_mag(self@[1] * (k as int), SCALE as int);
            assert(a.mvec[2] as int == self@[2]);
            assert(-PROD_MAX <= self@[2] <= PROD_MAX);
            lemma_mul_bound(self@[2], k as int, PROD_MAX as int, PROD_MAX as int);
            lemma_dtr_mag(self@[2] * (k as int), SCALE as int);
            assert(a.mvec[3] as int == self@[3]);
            assert(-PROD_MAX <= self@[3] <= PROD_MAX);
            lemma_mul_bound(self@[3], k as int, PROD_MAX as int, PROD_MAX as int);
            lemma_dtr_mag(self@[3] * (k as int), SCALE as int);
            assert(a.mvec[4] as int == self@[4]);
            assert(-PROD_MAX <= self@[4] <= PROD_MAX);
            lemma_mul_bound(self@[4], k as int, PROD_MAX as int, PROD_MAX as int);
            lemma_dtr_mag(self@[4] * (k as int), SCALE as int);
            assert(a.mvec[5] as int == self@[5]);
            assert(-PROD_MAX <= self@[5] <= PROD_MAX);
            lemma_mul_bound(self@[5], k as int, PROD_MAX as int, PROD_MAX as int);
            lemma_dtr_mag(self@[5] * (k as int), SCALE as int);
            assert(a.mvec[6] as int == self@[6]);
            assert(-PROD_MAX <= self@[6] <= PROD_MAX);
            lemma_mul_bound(self@[6], k as int, PROD_MAX as int, PROD_MAX as int);
            lemma_dtr_mag(self@[6] * (k as int), SCALE as int);
            assert(a.mvec[7] as int == self@[7]);
            assert(-PROD_MAX <= self@[7] <= PROD_MAX);
            lemma_mul_bound(self@[7], k as int, PROD_MAX as int, PROD_MAX as int);
            lemma_dtr_mag(self@[7] * (k as int), SCALE as int);
        }
        let res = R120 {
            mvec: [
                (a.mvec[0] * k) / SCALE,
                (a.mvec[1] * k) / SCALE,
                (a.mvec[2] * k) / SCALE,
                (a.mvec[3] * k) / SCALE,
                (a.mvec[4] * k) / SCALE,
                (a.mvec[5] * k) / SCALE,
                (a.mvec[6] * k) / SCALE,
                (a.mvec[7] * k) / SCALE,
            ],
        };
        proof {
            assert(res@ =~= smul_s(self@, k as int));
        }
        res
    }

    /// The fixed-point scalar `k` added onto the scalar coefficient.
    pub fn add_scalar(self, k: i128) -> (res: R120)
        requires
            in_range(self@, LIN_MAX as int),
            -LIN_MAX <= k <= LIN_MAX,
        ensures
            res@ == sadd_s(self@, k as int),
    {
        let a = self;
        proof {
            assert(a.mvec[0] as int == self@[0]);
            assert(-LIN_MAX <= self@[0] <= LIN_MAX);
        }
        let res = R120 {
            mvec: [
                a.mvec[0] + k,
                a.mvec[1],
                a.mvec[2],
                a.mvec[3],
                a.mvec[4],
                a.mvec[5],
                a.mvec[6],
                a.mvec[7],
            ],
        };
        proof {
            assert(res@ =~= sadd_s(self@, k as int));
        }
        res
    }

    /// The norm: `sqrt(|scalar(a * conjugate(a))|)`, rounded down to the
    /// fixed-point grid. Zero exactly when the spec-level norm is zero.
    pub fn norm(self) -> (r: i128)
        requires
            in_range(self@, PROD_MAX as int),
        ensures
            r as int == norm_s(self@),
            r >= 0,
    {
        let c = self.Conjugate();
        proof {
            assert forall|i: int| 0 <= i < 8 implies
                -PROD_MAX <= #[trigger] c@[i] <= PROD_MAX by {
                assert(-PROD_MAX <= self@[0] <= PROD_MAX);
                assert(-PROD_MAX <= self@[1] <= PROD_MAX);
                assert(-PROD_MAX <= self@[2] <= PROD_MAX);
                assert(-PROD_MAX <= self@[3] <= PROD_MAX);
                assert(-PROD_MAX <= self@[4] <= PROD_MAX);
                assert(-PROD_MAX <= self@[5] <= PROD_MAX);
                assert(-PROD_MAX <= self@[6] <= PROD_MAX);
                assert(-PROD_MAX <= self@[7] <= PROD_MAX);
            }
        }
        let p = self.geometric_product(c);
        let s0 = p.coeff(0);
        proof {
            lemma_products_bounded(
                self@[0], self@[1], self@[2], self@[3],
                self@[4], self@[5], self@[6], self@[7],
                c@[0], c@[1], c@[2], c@[3], c@[4], c@[5], c@[6], c@[7],
                PROD_MAX as int,
            );
            lemma_dtr_mag(gp_t0(self@, c@), SCALE as int);
            assert(s0 as int == dtr(gp_t0(self@, c@), SCALE as int));
        }
        let m: i128 = if s0 >= 0 { s0 } else { -s0 };
        proof {
            assert(m as int == abs_i(norm_scalar_s(self@)));
            assert(m as int * SCALE as int <= gp_t0(self@, c@)
                || m as int * SCALE as int <= -gp_t0(self@, c@));
        }
        let sq = isqrt_u128((m as u128) * (SCALE as u128));
        proof {
            assert(sq as int * sq as int <= m as int * SCALE as int);
            assert(sq as int <= m as int * SCALE as int) by (nonlinear_arith)
                requires
                    sq as int * sq as int <= m as int * SCALE as int,
                    sq as int >= 0,
            ;
        }
        sq as i128
    }

    /// The dual norm.
    pub fn inorm(self) -> (r: i128)
        requires
            in_range(self@, PROD_MAX as int),
        ensures
            r as int == inorm_s(self@),
            r >= 0,
    {
        let d = self.Dual();
        proof {
            assert forall|i: int| 0 <= i < 8 implies
                -PROD_MAX <= #[trigger] d@[i] <= PROD_MAX by {
                assert(-PROD_MAX <= self@[0] <= PROD_MAX);
                assert(-PROD_MAX <= self@[1] <= PROD_MAX);
                assert(-PROD_MAX <= self@[2] <= PROD_MAX);
                assert(-PROD_MAX <= self@[3] <= PROD_MAX);
                assert(-PROD_MAX <= self@[4] <= PROD_MAX);
                assert(-PROD_MAX <= self@[5] <= PROD_MAX);
                assert(-PROD_MAX <= self@[6] <= PROD_MAX);
                assert(-PROD_MAX <= self@[7] <= PROD_MAX);
            }
        }
        d.norm()
    }

    /// Whether every coefficient lies within `bound`: the runtime check an
    /// unverified caller makes before handing this multivector to a function
    /// that needs [`in_range`].
    pub fn coeffs_within(&self, bound: i128) -> (r: bool)
        requires
            bound >= 0,
        ensures
            r == in_range(self@, bound as int),
    {
        let mut ok = true;
        let mut i: usize = 0;
        while i < 8
            invariant
                i <= 8,
                bound >= 0,
                ok == (forall|j: int| 0 <= j < i ==> -bound <= #[trigger] self@[j] <= bound),
            decreases 8 - i,
        {
            let c = self.coeff(i);
            if c < -bound || c > bound {
                ok = false;
            }
            i += 1;
        }
        ok
    }

    /// Normalization: the multivector scaled to unit norm, except that a
    /// zero-norm input returns zero by convention.
    pub fn normalized(self) -> (res: R120)
        requires
            in_range(self@, PROD_MAX as int),
        ensures
            res@ == normalized_s(self@),
    {
        let n = self.norm();
        if n != 0 {
            let inv = (SCALE * SCALE) / n;
            proof {
                lemma_dtr_mag(SCALE as int * SCALE as int, n as int);
                assert(inv as int == fx_div_s(SCALE as int, n as int));
                assert(-PROD_MAX <= inv <= PROD_MAX);
            }
            self.scale(inv)
        } else {
            self.scale(0)
        }
    }
}


/// Reversion is an involution: applying it twice returns the argument.
pub proof fn lemma_reverse_reverse(a: Seq<int>)
    requires
        a.len() == 8,
    ensures
        reverse_s(reverse_s(a)) == a,
{
    assert(reverse_s(reverse_s(a)) =~= a);
}

/// Applying duality twice negates the argument: the algebra's fixed-point
/// parity for duality is odd.
pub proof fn lemma_dual_dual(a: Seq<int>)
    requires
        a.len() == 8,
    ensures
        dual_s(dual_s(a)) == neg_s(a),
{
    assert(dual_s(dual_s(a)) =~= neg_s(a));
}

/// Conjugation is an involution as well.
pub proof fn lemma_conjugate_conjugate(a: Seq<int>)
    requires
        a.len() == 8,
    ensures
        conjugate_s(conjugate_s(a)) == a,
{
    assert(conjugate_s(conjugate_s(a)) =~= a);
}

/// A zero-norm multivector normalizes to zero; in particular the zero
/// multivector does.
pub proof fn lemma_normalize_zero(a: Seq<int>)
    requires
        a.len() == 8,
        norm_s(a) == 0,
    ensures
        normalized_s(a) == zero_s(),
{
    assert forall|i: int| 0 <= i < 8 implies smul_s(a, 0)[i] == 0 by {
        lemma_fx_mul_zero(a[i]);
    }
    assert(normalized_s(a) =~= zero_s());
}

/// The norm of the zero multivector is zero, and it normalizes to itself.
pub proof fn lemma_norm_of_zero()
    ensures
        norm_s(zero_s()) == 0,
        normalized_s(zero_s()) == zero_s(),
{
    assert(gp_t0(zero_s(), conjugate_s(zero_s())) == 0);
    assert(dtr(0, SCALE as int) == 0) by {
        lemma_dtr_exact(0, SCALE as int);
    }
    assert(norm_scalar_s(zero_s()) == 0);
    assert(is_floor_sqrt(0, 0)) by (nonlinear_arith);
    lemma_sqrt_floor_is(0, 0);
    lemma_normalize_zero(zero_s());
}

/// A bound on the coefficients stays a bound when widened.
pub proof fn lemma_in_range_widen(s: Seq<int>, m: int, w: int)
    requires
        in_range(s, m),
        m <= w,
    ensures
        in_range(s, w),
{
}

/// Reversion, conjugation, involution and duality keep coefficient bounds:
/// they only permute coefficients and flip signs.
pub proof fn lemma_sign_ops_in_range(a: Seq<int>, m: int)
    requires
        a.len() == 8,
        in_range(a, m),
    ensures
        in_range(reverse_s(a), m),
        in_range(conjugate_s(a), m),
        in_range(involute_s(a), m),
        in_range(dual_s(a), m),
        in_range(neg_s(a), m),
{
        assert(-m <= a[0] <= m);
        assert(-m <= a[1] <= m);
        assert(-m <= a[2] <= m);
        assert(-m <= a[3] <= m);
        assert(-m <= a[4] <= m);
        assert(-m <= a[5] <= m);
        assert(-m <= a[6] <= m);
        assert(-m <= a[7] <= m);
    assert forall|i: int| 0 <= i < 8 implies -m <= #[trigger] reverse_s(a)[i] <= m by {}
    assert forall|i: int| 0 <= i < 8 implies -m <= #[trigger] conjugate_s(a)[i] <= m by {}
    assert forall|i: int| 0 <= i < 8 implies -m <= #[trigger] involute_s(a)[i] <= m by {}
    assert forall|i: int| 0 <= i < 8 implies -m <= #[trigger] dual_s(a)[i] <= m by {}
    assert forall|i: int| 0 <= i < 8 implies -m <= #[trigger] neg_s(a)[i] <= m by {}
}

/// Coefficient bound of a scaled multivector, from bounds on the operands.
pub proof fn lemma_smul_in_range(a: Seq<int>, k: int, ma: int, mk: int, bound: int)
    requires
        a.len() == 8,
        in_range(a, ma),
        0 <= ma,
        -mk <= k <= mk,
        0 <= mk,
        0 <= bound,
        ma * mk <= bound * (SCALE as int),
    ensures
        in_range(smul_s(a, k), bound),
{
    lemma_mul_bound(a[0], k, ma, mk);
    lemma_dtr_mag(a[0] * k, SCALE as int);
    lemma_mul_bound(a[1], k, ma, mk);
    lemma_dtr_mag(a[1] * k, SCALE as int);
    lemma_mul_bound(a[2], k, ma, mk);
    lemma_dtr_mag(a[2] * k, SCALE as int);
    lemma_mul_bound(a[3], k, ma, mk);
    lemma_dtr_mag(a[3] * k, SCALE as int);
    lemma_mul_bound(a[4], k, ma, mk);
    lemma_dtr_mag(a[4] * k, SCALE as int);
    lemma_mul_bound(a[5], k, ma, mk);
    lemma_dtr_mag(a[5] * k, SCALE as int);
    lemma_mul_bound(a[6], k, ma, mk);
    lemma_dtr_mag(a[6] * k, SCALE as int);
    lemma_mul_bound(a[7], k, ma, mk);
    lemma_dtr_mag(a[7] * k, SCALE as int);
    assert forall|i: int| 0 <= i < 8 implies -bound <= #[trigger] smul_s(a, k)[i] <= bound by {}
}

/// Coefficient bound of a geometric product, from bounds on the operands:
/// each row is a sum of eight products, scaled back down once.
pub proof fn lemma_gp_in_range(a: Seq<int>, b: Seq<int>, ma: int, mb: int, bound: int)
    requires
        a.len() == 8,
        b.len() == 8,
        in_range(a, ma),
        in_range(b, mb),
        0 <= ma,
        0 <= mb,
        0 <= bound,
        8 * (ma * mb) <= bound * (SCALE as int),
    ensures
        in_range(gp_s(a, b), bound),
{
    lemma_mul_bound(a[0], b[0], ma, mb);
    lemma_mul_bound(a[0], b[1], ma, mb);
    lemma_mul_bound(a[0], b[2], ma, mb);
    lemma_mul_bound(a[0], b[3], ma, mb);
    lemma_mul_bound(a[0], b[4], ma, mb);
    lemma_mul_bound(a[0], b[5], ma, mb);
    lemma_mul_bound(a[0], b[6], ma, mb);
    lemma_mul_bound(a[0], b[7], ma, mb);
    lemma_mul_bound(a[1], b[0], ma, mb);
    lemma_mul_bound(a[1], b[1], ma, mb);
    lemma_mul_bound(a[1], b[2], ma, mb);
    lemma_mul_bound(a[1], b[3], ma, mb);
    lemma_mul_bound(a[1], b[4], ma, mb);
    lemma_mul_bound(a[1], b[5], ma, mb);
    lemma_mul_bound(a[1], b[6], ma, mb);
    lemma_mul_bound(a[1], b[7], ma, mb);
    lemma_mul_bound(a[2], b[0], ma, mb);
    lemma_mul_bound(a[2], b[1], ma, mb);
    lemma_mul_bound(a[2], b[2], ma, mb);
    lemma_mul_bound(a[2], b[3], ma, mb);
    lemma_mul_bound(a[2], b[4], ma, mb);
    lemma_mul_bound(a[2], b[5], ma, mb);
    lemma_mul_bound(a[2], b[6], ma, mb);
    lemma_mul_bound(a[2], b[7], ma, mb);
    lemma_mul_bound(a[3], b[0], ma, mb);
    lemma_mul_bound(a[3], b[1], ma, mb);
    lemma_mul_bound(a[3], b[2], ma, mb);
    lemma_mul_bound(a[3], b[3], ma, mb);
    lemma_mul_bound(a[3], b[4], ma, mb);
    lemma_mul_bound(a[3], b[5], ma, mb);
    lemma_mul_bound(a[3], b[6], ma, mb);
    lemma_mul_bound(a[3], b[7], ma, mb);
    lemma_mul_bound(a[4], b[0], ma, mb);
    lemma_mul_bound(a[4], b[1], ma, mb);
    lemma_mul_bound(a[4], b[2], ma, mb);
    lemma_mul_bound(a[4], b[3], ma, mb);
    lemma_mul_bound(a[4], b[4], ma, mb);
    lemma_mul_bound(a[4], b[5], ma, mb);
    lemma_mul_bound(a[4], b[6], ma, mb);
    lemma_mul_bound(a[4], b[7], ma, mb);
    lemma_mul_bound(a[5], b[0], ma, mb);
    lemma_mul_bound(a[5], b[1], ma, mb);
    lemma_mul_bound(a[5], b[2], ma, mb);
    lemma_mul_bound(a[5], b[3], ma, mb);
    lemma_mul_bound(a[5], b[4], ma, mb);
    lemma_mul_bound(a[5], b[5], ma, mb);
    lemma_mul_bound(a[5], b[6], ma, mb);
    lemma_mul_bound(a[5], b[7], ma, mb);
    lemma_mul_bound(a[6], b[0], ma, mb);
    lemma_mul_bound(a[6], b[1], ma, mb);
    lemma_mul_bound(a[6], b[2], ma, mb);
    lemma_mul_bound(a[6], b[3], ma, mb);
    lemma_mul_bound(a[6], b[4], ma, mb);
    lemma_mul_bound(a[6], b[5], ma, mb);
    lemma_mul_bound(a[6], b[6], ma, mb);
    lemma_mul_bound(a[6], b[7], ma, mb);
    lemma_mul_bound(a[7], b[0], ma, mb);
    lemma_mul_bound(a[7], b[1], ma, mb);
    lemma_mul_bound(a[7], b[2], ma, mb);
    lemma_mul_bound(a[7], b[3], ma, mb);
    lemma_mul_bound(a[7], b[4], ma, mb);
    lemma_mul_bound(a[7], b[5], ma, mb);
    lemma_mul_bound(a[7], b[6], ma, mb);
    lemma_mul_bound(a[7], b[7], ma, mb);
    lemma_dtr_mag(gp_t0(a, b), SCALE as int);
    lemma_dtr_mag(gp_t1(a, b), SCALE as int);
    lemma_dtr_mag(gp_t2(a, b), SCALE as int);
    lemma_dtr_mag(gp_t3(a, b), SCALE as int);
    lemma_dtr_mag(gp_t4(a, b), SCALE as int);
    lemma_dtr_mag(gp_t5(a, b), SCALE as int);
    lemma_dtr_mag(gp_t6(a, b), SCALE as int);
    lemma_dtr_mag(gp_t7(a, b), SCALE as int);
    assert forall|i: int| 0 <= i < 8 implies -bound <= #[trigger] gp_s(a, b)[i] <= bound by {}
}

/// The identity element of the geometric product: the fixed-point one in the
/// scalar slot.
pub open spec fn identity_s() -> Seq<int> {
    seq![SCALE as int, 0int, 0int, 0int, 0int, 0int, 0int, 0int]
}

/// The identity multivector absorbs the geometric product on both sides,
/// exactly: scaling by the fixed-point one truncates nothing.
pub proof fn lemma_gp_identity(a: Seq<int>)
    requires
        a.len() == 8,
    ensures
        gp_s(identity_s(), a) == a,
        gp_s(a, identity_s()) == a,
{
    assert(gp_t0(identity_s(), a) == a[0] * (SCALE as int)) by (nonlinear_arith);
    assert(gp_t0(a, identity_s()) == a[0] * (SCALE as int)) by (nonlinear_arith);
    lemma_dtr_exact(a[0], SCALE as int);
    assert(gp_t1(identity_s(), a) == a[1] * (SCALE as int)) by (nonlinear_arith);
    assert(gp_t1(a, identity_s()) == a[1] * (SCALE as int)) by (nonlinear_arith);
    lemma_dtr_exact(a[1], SCALE as int);
    assert(gp_t2(identity_s(), a) == a[2] * (SCALE as int)) by (nonlinear_arith);
    assert(gp_t2(a, identity_s()) == a[2] * (SCALE as int)) by (nonlinear_arith);
    lemma_dtr_exact(a[2], SCALE as int);
    assert(gp_t3(identity_s(), a) == a[3] * (SCALE as int)) by (nonlinear_arith);
    assert(gp_t3(a, identity_s()) == a[3] * (SCALE as int)) by (nonlinear_arith);
    lemma_dtr_exact(a[3], SCALE as int);
    assert(gp_t4(identity_s(), a) == a[4] * (SCALE as int)) by (nonlinear_arith);
    assert(gp_t4(a, identity_s()) == a[4] * (SCALE as int)) by (nonlinear_arith);
    lemma_dtr_exact(a[4], SCALE as int);
    assert(gp_t5(identity_s(), a) == a[5] * (SCALE as int)) by (nonlinear_arith);
    assert(gp_t5(a, identity_s()) == a[5] * (SCALE as int)) by (nonlinear_arith);
    lemma_dtr_exact(a[5], SCALE as int);
    assert(gp_t6(identity_s(), a) == a[6] * (SCALE as int)) by (nonlinear_arith);
    assert(gp_t6(a, identity_s()) == a[6] * (SCALE as int)) by (nonlinear_arith);
    lemma_dtr_exact(a[6], SCALE as int);
    assert(gp_t7(identity_s(), a) == a[7] * (SCALE as int)) by (nonlinear_arith);
    assert(gp_t7(a, identity_s()) == a[7] * (SCALE as int)) by (nonlinear_arith);
    lemma_dtr_exact(a[7], SCALE as int);
    assert(gp_s(identity_s(), a) =~= a);
    assert(gp_s(a, identity_s()) =~= a);
}

/// A pure spatial vector: the plane coordinates in the `e2` and `e3` slots.
pub open spec fn spatial_vec_s(x: int, y: int) -> Seq<int> {
    seq![0int, 0int, x, y, 0int, 0int, 0int, 0int]
}

/// For a spatial vector the squared-norm scalar is the scaled sum of squares.
proof fn lemma_spatial_norm_scalar(x: int, y: int)
    ensures
        norm_scalar_s(spatial_vec_s(x, y)) == dtr(x * x + y * y, SCALE as int),
{
    let a = spatial_vec_s(x, y);
    let cj = conjugate_s(a);
    assert(cj =~= seq![0int, 0int, -x, -y, 0int, 0int, 0int, 0int]);
    assert(gp_t0(a, cj) == x * x + y * y) by (nonlinear_arith)
        requires
            a[0] == 0,
            a[1] == 0,
            a[2] == x,
            a[3] == y,
            a[4] == 0,
            a[5] == 0,
            a[6] == 0,
            a[7] == 0,
            cj[0] == 0,
            cj[1] == 0,
            cj[2] == -x,
            cj[3] == -y,
            cj[4] == 0,
            cj[5] == 0,
            cj[6] == 0,
            cj[7] == 0,
    ;
}

/// Normalization restores a unit norm, to the precision of the fixed-point
/// grid: for a spatial vector whose norm lies between one and 256 world
/// units, the norm after normalizing is within 520 grid steps — under one
/// percent — of the fixed-point one. The band matters: on an
/// absolute-precision grid the restored norm degrades with the reciprocal of
/// the scale applied, and a non-zero vector shorter than one grid step even
/// has norm zero and normalizes to zero.
pub proof fn lemma_normalized_norm_near_one(x: int, y: int)
    requires
        SCALE <= norm_s(spatial_vec_s(x, y)) <= 16777216,
    ensures
        SCALE - 520 <= norm_s(normalized_s(spatial_vec_s(x, y))) <= SCALE + 7,
{
    let s_i = SCALE as int;
    let a = spatial_vec_s(x, y);
    let dd = x * x + y * y;
    lemma_spatial_norm_scalar(x, y);
    assert(x * x >= 0 && y * y >= 0) by (nonlinear_arith);
    assert(dd >= 0);
    let nsc = dtr(dd, s_i);
    crate::fixed::lemma_dtr_nonneg(dd, s_i);
    lemma_dtr_mag(dd, s_i);
    crate::fixed::lemma_dtr_close(dd, s_i);
    assert(abs_i(norm_scalar_s(a)) == nsc);
    let n = norm_s(a);
    assert(nsc * s_i >= 0) by (nonlinear_arith)
        requires
            nsc >= 0,
            s_i == 65536,
    ;
    crate::fixed::lemma_sqrt_floor_props(nsc * s_i);
    assert(n * n <= nsc * s_i < (n + 1) * (n + 1));
    assert(nsc * s_i <= dd * 1) by (nonlinear_arith)
        requires
            nsc * s_i <= dd,
    ;
    assert(dd < nsc * s_i + s_i);
    assert(dd < (n + 1) * (n + 1) + 65536);
    assert(n * n <= dd);
    // the reciprocal scale
    assert(n >= 1);
    let k = fx_div_s(s_i, n);
    assert(normalized_s(a) == smul_s(a, k));
    crate::fixed::lemma_dtr_nonneg(s_i * s_i, n);
    lemma_dtr_mag(s_i * s_i, n);
    crate::fixed::lemma_dtr_lower(s_i * s_i, n);
    assert(k >= 0 && k * n <= 4294967296 && 4294967296 < k * n + n);
    let xp = fx_mul_s(x, k);
    let yp = fx_mul_s(y, k);
    crate::fixed::lemma_dtr_close(x * k, s_i);
    crate::fixed::lemma_dtr_close(y * k, s_i);
    // the normalized vector is again spatial
    assert(0 * k == 0) by (nonlinear_arith);
    lemma_dtr_exact(0, s_i);
    assert(fx_mul_s(0, k) == 0);
    assert(smul_s(a, k) =~= spatial_vec_s(xp, yp));
    // coordinate magnitudes
    assert(-(n + 65536) <= x <= n + 65536 && -(n + 65536) <= y <= n + 65536)
        by (nonlinear_arith)
        requires
            x * x <= dd,
            y * y <= dd,
            x * x >= 0,
            y * y >= 0,
            dd < (n + 1) * (n + 1) + 65536,
            n >= 65536,
    ;
    assert(k <= 65536) by (nonlinear_arith)
        requires
            k * n <= 4294967296,
            n >= 65536,
            k >= 0,
    ;
    // per-coordinate square brackets
    assert(xp * xp * 4294967296 <= x * x * (k * k) + 1125899906842624 + 4294967296
        && xp * xp * 4294967296 >= x * x * (k * k) - 1125899906842624) by (nonlinear_arith)
        requires
            abs_i(xp * 65536 - x * k) < 65536,
            -(n + 65536) <= x <= n + 65536,
            0 <= k <= 65536,
            k * n <= 4294967296,
            65536 <= n <= 16777216,
    ;
    assert(yp * yp * 4294967296 <= y * y * (k * k) + 1125899906842624 + 4294967296
        && yp * yp * 4294967296 >= y * y * (k * k) - 1125899906842624) by (nonlinear_arith)
        requires
            abs_i(yp * 65536 - y * k) < 65536,
            -(n + 65536) <= y <= n + 65536,
            0 <= k <= 65536,
            k * n <= 4294967296,
            65536 <= n <= 16777216,
    ;
    // the scaled squared length
    assert(x * x * (k * k) + y * y * (k * k) >= 18446744073709551616 - 144115188075855872
        && x * x * (k * k) + y * y * (k * k) <= 18446744073709551616 + 1125899906842624)
        by (nonlinear_arith)
        requires
            n * n <= dd,
            dd < (n + 1) * (n + 1) + 65536,
            dd == x * x + y * y,
            k * n <= 4294967296,
            4294967296 < k * n + n,
            0 <= k <= 65536,
            65536 <= n <= 16777216,
    ;
    let aa = xp * xp + yp * yp;
    assert(aa * 4294967296 == xp * xp * 4294967296 + yp * yp * 4294967296)
        by (nonlinear_arith)
        requires
            aa == xp * xp + yp * yp,
    ;
    assert(aa * 4294967296 >= 18446744073709551616 - 144115188075855872 - 2251799813685248
        - 8589934592);
    assert(aa * 4294967296 <= 18446744073709551616 + 1125899906842624 + 2251799813685248
        + 8589934592);
    assert(4227858432 <= aa <= 4295756582) by (nonlinear_arith)
        requires
            aa * 4294967296 >= 18446744073709551616 - 144115188075855872 - 2251799813685248
                - 8589934592,
            aa * 4294967296 <= 18446744073709551616 + 1125899906842624 + 2251799813685248
                + 8589934592,
    ;
    // the restored norm
    lemma_spatial_norm_scalar(xp, yp);
    let nsc2 = dtr(aa, s_i);
    assert(aa >= 0);
    crate::fixed::lemma_dtr_nonneg(aa, s_i);
    lemma_dtr_mag(aa, s_i);
    crate::fixed::lemma_dtr_close(aa, s_i);
    assert(abs_i(norm_scalar_s(spatial_vec_s(xp, yp))) == nsc2);
    assert(nsc2 * s_i >= 0) by (nonlinear_arith)
        requires
            nsc2 >= 0,
            s_i == 65536,
    ;
    crate::fixed::lemma_sqrt_floor_props(nsc2 * s_i);
    let n2 = norm_s(spatial_vec_s(xp, yp));
    assert(n2 * n2 <= nsc2 * s_i < (n2 + 1) * (n2 + 1));
    assert(nsc2 * s_i <= aa);
    assert(aa < nsc2 * s_i + s_i);
    assert(n2 <= 65536 + 7) by (nonlinear_arith)
        requires
            n2 * n2 <= nsc2 * s_i,
            nsc2 * s_i <= aa,
            aa <= 4295756582,
            n2 >= 0,
            s_i == 65536,
    ;
    assert(n2 >= 65536 - 520) by (nonlinear_arith)
        requires
            nsc2 * s_i < (n2 + 1) * (n2 + 1),
            aa < nsc2 * s_i + s_i,
            aa >= 4227858432,
            n2 >= 0,
            s_i == 65536,
    ;
    assert(norm_s(normalized_s(a)) == n2);
}

} // verus!
