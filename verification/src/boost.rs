//! Lorentz boosts as rotors, and their application to points.
//!
//! The boost builder turns an observer velocity into a hyperbolic rotor: the
//! velocity is embedded as a grade-1 multivector, normalized, and multiplied
//! onto the rest direction `e1`; the scalar part of that product is the
//! hyperbolic cosine of twice the rapidity. The rotor is assembled from the
//! half-angle pair `cosh(angle) = sqrt((s + 1) / 2)` and
//! `sinh(angle) = sqrt((s - 1) / 2)` — the exact algebraic half-angle
//! identities — and the normalized bivector part of the product. A scalar
//! part below one (possible only through rounding) is clamped to one before
//! the square roots, so no argument is ever negative.
//!
//! The transform applicator conjugates a point embedded as a grade-1
//! multivector by the rotor: `R * (p * reverse(R))`, the sandwich operation.

use vstd::prelude::*;

verus! {

use crate::fixed::{
    SCALE,
    COORD_MAX,
    abs_i,
    dtr,
    fx_div_s,
    fx_mul_s,
    sqrt_floor,
    norm2d_s,
    is_floor_sqrt,
    isqrt_u128,
    lemma_sqrt_floor_is,
    lemma_dtr_mag,
    lemma_dtr_exact,
    lemma_dtr_nonneg,
    lemma_fx_mul_one,
    lemma_fx_mul_zero,
    lemma_sqrt_floor_props,
};
broadcast use crate::r120::lemma_r120_view_len;

use crate::r120::{
    R120,
    PROD_MAX,
    LIN_MAX,
    in_range,
    zero_s,
    identity_s,
    reverse_s,
    conjugate_s,
    smul_s,
    sadd_s,
    gp_s,
    gp_t0,
    norm_s,
    norm_scalar_s,
    normalized_s,
    lemma_mul_bound,
    lemma_in_range_widen,
    lemma_sign_ops_in_range,
    lemma_smul_in_range,
    lemma_gp_in_range,
    lemma_gp_identity,
    lemma_norm_of_zero,
};

/// Largest raw coefficient magnitude accepted for a rotor handed to the
/// transform applicator. It corresponds to a time-dilation factor of tens of
/// thousands, far beyond the speed ceiling of any observer the integrator
/// admits, and keeps the sandwich product inside `i128` arithmetic.
pub const ROTOR_MAX: i128 = 4294967296;

/// Largest raw coordinate magnitude accepted by the transform applicator for
/// an observer-relative point; within it the sandwich product fits in `i128`
/// arithmetic.
pub const POINT_MAX: i128 = 549755813888;

/// The embedding of a velocity `(vx, vy)` as a grade-1 direction multivector:
/// the rest direction `e1` with weight one, and each component divided by the
/// speed of light.
pub open spec fn velocity_mv_s(vx: int, vy: int, c: int) -> Seq<int> {
    seq![0int, SCALE as int, fx_div_s(vx, c), fx_div_s(vy, c), 0int, 0int, 0int, 0int]
}

/// The rotor built from a velocity: normalize the embedded velocity, multiply
/// it onto the rest direction `e1`, clamp the scalar part to at least one,
/// take the half-angle hyperbolic pair by square roots, and recombine with
/// the normalized bivector part.
pub open spec fn rotor_of(vx: int, vy: int, c: int) -> Seq<int> {
    let vhat = normalized_s(velocity_mv_s(vx, vy, c));
    let prod = gp_s(rest_e1_s(), vhat);
    let s = if prod[0] < SCALE { SCALE as int } else { prod[0] };
    let ch = sqrt_floor(dtr(s + SCALE, 2) * SCALE);
    let sh = sqrt_floor(dtr(s - SCALE, 2) * SCALE);
    let bhat = normalized_s(prod.update(0, 0));
    sadd_s(smul_s(bhat, sh), ch)
}

/// The rest direction: the unit basis vector `e1`.
pub open spec fn rest_e1_s() -> Seq<int> {
    seq![0int, SCALE as int, 0int, 0int, 0int, 0int, 0int, 0int]
}

/// The embedding of an observer-relative point as a grade-1 multivector: its
/// length in the `e1` slot, its coordinates in the `e2` and `e3` slots.
pub open spec fn point_mv_s(px: int, py: int) -> Seq<int> {
    seq![0int, norm2d_s(px, py), px, py, 0int, 0int, 0int, 0int]
}

/// The sandwich conjugation `r * (p * reverse(r))` of a point by a rotor, read
/// back off the two spatial slots.
pub open spec fn boost_point_s(r: Seq<int>, px: int, py: int) -> (int, int) {
    let s = gp_s(r, gp_s(point_mv_s(px, py), reverse_s(r)));
    (s[2], s[3])
}

/// Builds the Lorentz rotor for an observer velocity `(vx, vy)` under the
/// speed of light `c`. The velocity must be slower than light; zero velocity
/// yields the identity rotor exactly ([`lemma_rotor_of_rest`]).
pub fn velocity_to_rotor(vx: i128, vy: i128, c: i128) -> (r: R120)
    requires
        1 <= c <= COORD_MAX,
        -COORD_MAX <= vx <= COORD_MAX,
        -COORD_MAX <= vy <= COORD_MAX,
        vx * vx + vy * vy < c * c,
    ensures
        r@ == rotor_of(vx as int, vy as int, c as int),
        in_range(r@, 4611686018427387904),
{
    proof {
        assert(-c + 1 <= vx <= c - 1 && -c + 1 <= vy <= c - 1) by (nonlinear_arith)
            requires
                vx * vx + vy * vy < c * c,
                c >= 1,
        ;
    }
    let bx = (vx * SCALE) / c;
    let by = (vy * SCALE) / c;
    proof {
        lemma_dtr_mag(vx as int * SCALE as int, c as int);
        lemma_dtr_mag(vy as int * SCALE as int, c as int);
        assert(abs_i(vx as int * SCALE as int) <= c * SCALE) by (nonlinear_arith)
            requires
                -c <= vx <= c,
                c >= 1,
        ;
        assert(abs_i(vy as int * SCALE as int) <= c * SCALE) by (nonlinear_arith)
            requires
                -c <= vy <= c,
                c >= 1,
        ;
        assert(abs_i(bx as int) <= SCALE) by (nonlinear_arith)
            requires
                abs_i(bx as int) * c <= abs_i(vx as int * SCALE as int),
                abs_i(vx as int * SCALE as int) <= c * SCALE,
                c >= 1,
                abs_i(bx as int) >= 0,
        ;
        assert(abs_i(by as int) <= SCALE) by (nonlinear_arith)
            requires
                abs_i(by as int) * c <= abs_i(vy as int * SCALE as int),
                abs_i(vy as int * SCALE as int) <= c * SCALE,
                c >= 1,
                abs_i(by as int) >= 0,
        ;
    }
    let v = R120::from_array([0, SCALE, bx, by, 0, 0, 0, 0]);
    proof {
        assert(v@ =~= velocity_mv_s(vx as int, vy as int, c as int));
        assert forall|i: int| 0 <= i < 8 implies -SCALE <= #[trigger] v@[i] <= SCALE by {}
    }
    let vhat = v.normalized();
    proof {
        lemma_norm_inv_in_range(v@);
        lemma_in_range_widen(vhat@, 4294967296, PROD_MAX as int);
    }
    let e1 = R120::from_array([0, SCALE, 0, 0, 0, 0, 0, 0]);
    proof {
        assert(e1@ =~= rest_e1_s());
        assert forall|i: int| 0 <= i < 8 implies -SCALE <= #[trigger] e1@[i] <= SCALE by {}
        lemma_in_range_widen(e1@, SCALE as int, PROD_MAX as int);
    }
    let product = e1.geometric_product(vhat);
    proof {
        lemma_gp_in_range(e1@, vhat@, SCALE as int, 4294967296, 34359738368);
    }
    let s0 = product.coeff(0);
    let s = if s0 < SCALE { SCALE } else { s0 };
    let ch_arg = (s + SCALE) / 2;
    let sh_arg = (s - SCALE) / 2;
    proof {
        lemma_dtr_nonneg(s as int + SCALE as int, 2);
        lemma_dtr_nonneg(s as int - SCALE as int, 2);
    }
    let cosh_w = isqrt_u128((ch_arg as u128) * (SCALE as u128));
    let sinh_w = isqrt_u128((sh_arg as u128) * (SCALE as u128));
    proof {
        lemma_sqrt_small(ch_arg as int * SCALE as int, cosh_w as int);
        lemma_sqrt_small(sh_arg as int * SCALE as int, sinh_w as int);
        assert(-34359738368 <= product@[0] <= 34359738368);
        assert(cosh_w as int <= 67108864) by (nonlinear_arith)
            requires
                (cosh_w as int) * (cosh_w as int) <= (ch_arg as int) * (SCALE as int),
                0 <= ch_arg as int <= 34359804904,
                cosh_w as int >= 0,
        ;
        assert(sinh_w as int <= 67108864) by (nonlinear_arith)
            requires
                (sinh_w as int) * (sinh_w as int) <= (sh_arg as int) * (SCALE as int),
                0 <= sh_arg as int <= 34359804904,
                sinh_w as int >= 0,
        ;
    }
    let cosh = cosh_w as i128;
    let sinh = sinh_w as i128;
    let mut bivec = product;
    bivec.set_coeff(0, 0);
    proof {
        assert(bivec@ == product@.update(0, 0));
        assert forall|i: int| 0 <= i < 8 implies -34359738368 <= #[trigger] bivec@[i]
            <= 34359738368 by {
            assert(-34359738368 <= product@[i] <= 34359738368);
        }
        lemma_in_range_widen(bivec@, 34359738368, PROD_MAX as int);
    }
    let bhat = bivec.normalized();
    proof {
        lemma_norm_inv_in_range_wide(bivec@, 34359738368, 2251799813685248);
        lemma_in_range_widen(bhat@, 2251799813685248, PROD_MAX as int);
    }
    let scaled = bhat.scale(sinh);
    proof {
        lemma_smul_in_range(
            bhat@,
            sinh as int,
            2251799813685248,
            67108864,
            2305843009213693952,
        );
        lemma_in_range_widen(scaled@, 2305843009213693952, LIN_MAX as int);
    }
    let rotor = scaled.add_scalar(cosh);
    proof {
        assert forall|i: int| 0 <= i < 8 implies -4611686018427387904 <= #[trigger] rotor@[i]
            <= 4611686018427387904 by {
            assert(-2305843009213693952 <= scaled@[i] <= 2305843009213693952);
        }
    }
    rotor
}

/// The reciprocal-of-norm scale that `normalized` applies keeps every
/// coefficient of a unit-embedded velocity within a fixed bound.
proof fn lemma_norm_inv_in_range(a: Seq<int>)
    requires
        a.len() == 8,
        in_range(a, SCALE as int),
    ensures
        in_range(normalized_s(a), 4294967296),
{
    lemma_norm_inv_in_range_wide(a, SCALE as int, 4294967296);
}

/// General form: scaling by the truncated reciprocal of a positive norm
/// multiplies the coefficient bound by at most the squared scale.
proof fn lemma_norm_inv_in_range_wide(a: Seq<int>, m: int, bound: int)
    requires
        a.len() == 8,
        in_range(a, m),
        0 <= m,
        m * (SCALE as int) * (SCALE as int) <= bound * (SCALE as int),
    ensures
        in_range(normalized_s(a), bound),
{
    assert((SCALE as int) * (SCALE as int) == 4294967296) by (nonlinear_arith);
    assert(m * 4294967296 <= bound * (SCALE as int)) by (nonlinear_arith)
        requires
            m * (SCALE as int) * (SCALE as int) <= bound * (SCALE as int),
            (SCALE as int) * (SCALE as int) == 4294967296,
    ;
    if norm_s(a) == 0 {
        lemma_smul_in_range(a, 0, m, 4294967296, bound);
    } else {
        let n = norm_s(a);
        let k = fx_div_s(SCALE as int, n);
        assert(abs_i(norm_scalar_s(a)) * SCALE >= 0) by (nonlinear_arith)
            requires
                abs_i(norm_scalar_s(a)) >= 0,
        ;
        lemma_sqrt_floor_props(abs_i(norm_scalar_s(a)) * SCALE);
        assert(n >= 1);
        lemma_dtr_mag(SCALE as int * SCALE as int, n);
        assert(abs_i(k) <= 4294967296);
        lemma_smul_in_range(a, k, m, 4294967296, bound);
    }
}

/// A square root of a bounded value is itself bounded by the value.
proof fn lemma_sqrt_small(n: int, r: int)
    requires
        is_floor_sqrt(n, r),
    ensures
        0 <= r,
        r <= n,
        r * r <= n,
{
    assert(r <= n) by (nonlinear_arith)
        requires
            r * r <= n,
            r >= 0,
    ;
}

/// Applies the rotor `r` to an observer-relative point by the sandwich
/// conjugation and reads back the transformed coordinates.
pub fn boost_point(r: &R120, px: i128, py: i128) -> (out: (i128, i128))
    requires
        in_range(r@, ROTOR_MAX as int),
        -POINT_MAX <= px <= POINT_MAX,
        -POINT_MAX <= py <= POINT_MAX,
    ensures
        (out.0 as int, out.1 as int) == boost_point_s(r@, px as int, py as int),
{
    let p = embed_point(px, py);
    let rev = r.Reverse();
    proof {
        lemma_in_range_widen(r@, ROTOR_MAX as int, LIN_MAX as int);
        lemma_sign_ops_in_range(r@, ROTOR_MAX as int);
        lemma_in_range_widen(rev@, ROTOR_MAX as int, PROD_MAX as int);
        lemma_in_range_widen(p@, 1099511627776, PROD_MAX as int);
        lemma_in_range_widen(r@, ROTOR_MAX as int, PROD_MAX as int);
    }
    let inner = p.geometric_product(rev);
    proof {
        lemma_gp_in_range(p@, rev@, 1099511627776, ROTOR_MAX as int, 576460752303423488);
        lemma_in_range_widen(inner@, 576460752303423488, PROD_MAX as int);
    }
    let outer = r.geometric_product(inner);
    let ox = outer.coeff(2);
    let oy = outer.coeff(3);
    (ox, oy)
}

/// Embeds an observer-relative point as a grade-1 multivector: its distance
/// from the observer in the `e1` slot, its coordinates in `e2` and `e3`.
fn embed_point(px: i128, py: i128) -> (p: R120)
    requires
        -POINT_MAX <= px <= POINT_MAX,
        -POINT_MAX <= py <= POINT_MAX,
    ensures
        p@ == point_mv_s(px as int, py as int),
        in_range(p@, 1099511627776),
{
    proof {
        lemma_mul_bound(px as int, px as int, POINT_MAX as int, POINT_MAX as int);
        lemma_mul_bound(py as int, py as int, POINT_MAX as int, POINT_MAX as int);
        assert(px as int * px as int >= 0 && py as int * py as int >= 0) by (nonlinear_arith);
    }
    let d2 = px * px + py * py;
    let dw = isqrt_u128(d2 as u128);
    proof {
        assert(dw as int <= 1099511627776) by (nonlinear_arith)
            requires
                (dw as int) * (dw as int) <= d2 as int,
                d2 as int <= 2 * ((POINT_MAX as int) * (POINT_MAX as int)),
                dw as int >= 0,
        ;
    }
    let d = dw as i128;
    let p = R120::from_array([0, d, px, py, 0, 0, 0, 0]);
    proof {
        assert(p@ =~= point_mv_s(px as int, py as int));
        assert forall|i: int| 0 <= i < 8 implies -1099511627776 <= #[trigger] p@[i]
            <= 1099511627776 by {}
    }
    p
}

/// Reorients a unit marker direction `(ux, uy)` on a circular dial of the
/// given radius: boost the embedded direction, drop the `e1` component,
/// renormalize back onto the circle, and scale out to the radius.
pub fn reorient_marker(r: &R120, ux: i128, uy: i128, radius: i128) -> (out: (i128, i128))
    requires
        in_range(r@, ROTOR_MAX as int),
        -SCALE <= ux <= SCALE,
        -SCALE <= uy <= SCALE,
        1 <= radius <= COORD_MAX,
    ensures
        (out.0 as int, out.1 as int) == reorient_marker_s(r@, ux as int, uy as int, radius as int),
{
    let v = R120::from_array([0, SCALE, ux, uy, 0, 0, 0, 0]);
    let rev = r.Reverse();
    proof {
        assert(v@ =~= marker_mv_s(ux as int, uy as int));
        assert forall|i: int| 0 <= i < 8 implies -SCALE <= #[trigger] v@[i] <= SCALE by {}
        lemma_in_range_widen(r@, ROTOR_MAX as int, LIN_MAX as int);
        lemma_sign_ops_in_range(r@, ROTOR_MAX as int);
        lemma_in_range_widen(rev@, ROTOR_MAX as int, PROD_MAX as int);
        lemma_in_range_widen(v@, SCALE as int, PROD_MAX as int);
        lemma_in_range_widen(r@, ROTOR_MAX as int, PROD_MAX as int);
    }
    let inner = v.geometric_product(rev);
    proof {
        lemma_gp_in_range(v@, rev@, SCALE as int, ROTOR_MAX as int, 34359738368);
        lemma_in_range_widen(inner@, 34359738368, PROD_MAX as int);
    }
    let mut w = r.geometric_product(inner);
    proof {
        lemma_gp_in_range(r@, inner@, ROTOR_MAX as int, 34359738368, 144115188075855872);
    }
    w.set_coeff(1, 0);
    proof {
        assert forall|i: int| 0 <= i < 8 implies -144115188075855872 <= #[trigger] w@[i]
            <= 144115188075855872 by {
            assert(-144115188075855872 <= gp_s(r@, inner@)[i] <= 144115188075855872);
        }
        lemma_in_range_widen(w@, 144115188075855872, PROD_MAX as int);
    }
    let wn = w.normalized();
    proof {
        lemma_norm_inv_in_range_wide(w@, 144115188075855872, 9444732965739290427392);
        lemma_mul_bound(radius as int, wn@[2], COORD_MAX as int, 9444732965739290427392);
        lemma_mul_bound(radius as int, wn@[3], COORD_MAX as int, 9444732965739290427392);
        lemma_dtr_mag(radius as int * wn@[2], SCALE as int);
        lemma_dtr_mag(radius as int * wn@[3], SCALE as int);
    }
    let mx = wn.coeff(2);
    let my = wn.coeff(3);
    let ox = (radius * mx) / SCALE;
    let oy = (radius * my) / SCALE;
    (ox, oy)
}

/// The embedding of a unit marker direction: like a point, with the fixed
/// `e1` weight of one.
pub open spec fn marker_mv_s(ux: int, uy: int) -> Seq<int> {
    seq![0int, SCALE as int, ux, uy, 0int, 0int, 0int, 0int]
}

/// Marker reorientation: sandwich the embedded direction, zero the `e1`
/// slot, renormalize, and scale both spatial slots by the radius.
pub open spec fn reorient_marker_s(r: Seq<int>, ux: int, uy: int, radius: int) -> (int, int) {
    let w = gp_s(r, gp_s(marker_mv_s(ux, uy), reverse_s(r)));
    let wn = normalized_s(w.update(1, 0));
    (fx_mul_s(radius, wn[2]), fx_mul_s(radius, wn[3]))
}

/// An observer at rest sees no boost: zero velocity yields the identity
/// rotor, exactly, for every speed of light.
pub proof fn lemma_rotor_of_rest(c: int)
    requires
        c >= 1,
    ensures
        rotor_of(0, 0, c) == identity_s(),
{
    lemma_dtr_exact(0, c);
    let v = velocity_mv_s(0, 0, c);
    assert(v =~= rest_e1_s());
    lemma_e1_normalizes_to_itself();
    let prod = gp_s(rest_e1_s(), rest_e1_s());
    lemma_e1_squares_to_identity();
    assert(prod == identity_s());
    assert(prod[0] == SCALE as int);
    let s = SCALE as int;
    assert(dtr(s + SCALE, 2) == SCALE as int) by {
        lemma_dtr_exact(SCALE as int, 2);
        assert(s + SCALE == (SCALE as int) * 2);
    }
    assert(dtr(s - SCALE, 2) == 0) by {
        lemma_dtr_exact(0, 2);
    }
    assert(is_floor_sqrt((SCALE as int) * (SCALE as int), SCALE as int)) by (nonlinear_arith);
    lemma_sqrt_floor_is((SCALE as int) * (SCALE as int), SCALE as int);
    assert(is_floor_sqrt(0, 0)) by (nonlinear_arith);
    lemma_sqrt_floor_is(0, 0);
    let ch = sqrt_floor(dtr(s + SCALE, 2) * SCALE);
    let sh = sqrt_floor(dtr(s - SCALE, 2) * SCALE);
    assert(dtr(s - SCALE, 2) * SCALE == 0) by (nonlinear_arith)
        requires
            dtr(s - SCALE, 2) == 0,
    ;
    assert(ch == SCALE as int);
    assert(sh == 0);
    let biv = prod.update(0, 0);
    assert(biv =~= zero_s());
    lemma_norm_of_zero();
    let bhat = normalized_s(biv);
    assert(bhat == zero_s());
    assert forall|i: int| 0 <= i < 8 implies smul_s(bhat, 0)[i] == 0 by {
        lemma_fx_mul_zero(bhat[i]);
    }
    assert(smul_s(bhat, 0) =~= zero_s());
    assert(sadd_s(zero_s(), SCALE as int) =~= identity_s());
    assert(rotor_of(0, 0, c) == identity_s());
}

/// The unit rest direction has norm one and normalizes to itself.
proof fn lemma_e1_normalizes_to_itself()
    ensures
        norm_s(rest_e1_s()) == SCALE as int,
        normalized_s(rest_e1_s()) == rest_e1_s(),
{
    let a = rest_e1_s();
    let cj = conjugate_s(a);
    assert(cj =~= seq![0int, -(SCALE as int), 0int, 0int, 0int, 0int, 0int, 0int]);
    assert(cj[1] * a[1] == -((SCALE as int) * (SCALE as int))) by (nonlinear_arith)
        requires
            cj[1] == -(SCALE as int),
            a[1] == SCALE as int,
    ;
    assert(gp_t0(a, cj) == (-(SCALE as int)) * (SCALE as int));
    assert((-(SCALE as int)) * (SCALE as int) == -((SCALE as int) * (SCALE as int)))
        by (nonlinear_arith);
    lemma_dtr_exact(-(SCALE as int), SCALE as int);
    assert(norm_scalar_s(a) == -(SCALE as int));
    assert(abs_i(norm_scalar_s(a)) * SCALE == (SCALE as int) * (SCALE as int));
    assert(is_floor_sqrt((SCALE as int) * (SCALE as int), SCALE as int)) by (nonlinear_arith);
    lemma_sqrt_floor_is((SCALE as int) * (SCALE as int), SCALE as int);
    assert(norm_s(a) == SCALE as int);
    lemma_dtr_exact(SCALE as int, SCALE as int);
    assert(fx_div_s(SCALE as int, SCALE as int) == SCALE as int);
    assert forall|i: int| 0 <= i < 8 implies smul_s(a, SCALE as int)[i] == a[i] by {
        lemma_fx_mul_one(a[i]);
    }
    assert(smul_s(a, SCALE as int) =~= a);
}

/// The rest direction squares to the identity under the geometric product.
proof fn lemma_e1_squares_to_identity()
    ensures
        gp_s(rest_e1_s(), rest_e1_s()) == identity_s(),
{
    let a = rest_e1_s();
    assert(gp_t0(a, a) == (SCALE as int) * (SCALE as int)) by (nonlinear_arith)
        requires
            a[0] == 0,
            a[1] == SCALE as int,
            a[2] == 0,
            a[3] == 0,
            a[4] == 0,
            a[5] == 0,
            a[6] == 0,
            a[7] == 0,
    ;
    lemma_dtr_exact(SCALE as int, SCALE as int);
    lemma_dtr_exact(0, SCALE as int);
    assert(gp_s(a, a) =~= identity_s());
}

/// The identity rotor fixes every point: applying the transform for an
/// observer at rest returns the point unchanged, exactly.
pub proof fn lemma_identity_rotor_fixes_points(px: int, py: int)
    ensures
        boost_point_s(identity_s(), px, py) == (px, py),
{
    let p = point_mv_s(px, py);
    assert(reverse_s(identity_s()) =~= identity_s());
    lemma_gp_identity(p);
    lemma_gp_identity(gp_s(p, identity_s()));
    assert(boost_point_s(identity_s(), px, py) == (p[2], p[3]));
}

/// A resting observer's full pipeline is the identity on points: the rotor
/// built from zero velocity, applied by the sandwich, returns every point
/// unchanged.
pub proof fn lemma_rest_pipeline_is_identity(px: int, py: int, c: int)
    requires
        c >= 1,
    ensures
        boost_point_s(rotor_of(0, 0, c), px, py) == (px, py),
{
    lemma_rotor_of_rest(c);
    lemma_identity_rotor_fixes_points(px, py);
}

} // verus!
