use spacetime::fixed::SCALE;
use spacetime::r120::R120;

const ONE: i128 = SCALE;

fn mv(c: [i128; 8]) -> R120 {
    R120::from_array(c)
}

fn coeffs(m: &R120) -> [i128; 8] {
    let mut out = [0i128; 8];
    let mut i = 0usize;
    while i < 8 {
        out[i] = m.coeff(i);
        i += 1;
    }
    out
}

fn to_f(raw: i128) -> f64 {
    raw as f64 / SCALE as f64
}

#[test]
fn zero_has_all_zero_coefficients() {
    let z = R120::zero();
    assert_eq!(coeffs(&z), [0; 8]);
}

#[test]
fn new_places_single_coefficient() {
    let m = R120::new(3 * ONE, 5);
    assert_eq!(coeffs(&m), [0, 0, 0, 0, 0, 3 * ONE, 0, 0]);
}

#[test]
fn reverse_twice_is_identity() {
    let m = mv([ONE, 2 * ONE, -3 * ONE, 4 * ONE, -5 * ONE, 6 * ONE, 7 * ONE, -8 * ONE]);
    let r = m.Reverse().Reverse();
    assert_eq!(coeffs(&r), coeffs(&m));
}

#[test]
fn reverse_negates_bivector_and_trivector() {
    let m = mv([1, 2, 3, 4, 5, 6, 7, 8]);
    assert_eq!(coeffs(&m.Reverse()), [1, 2, 3, 4, -5, -6, -7, -8]);
}

#[test]
fn dual_twice_negates() {
    let m = mv([ONE, 2 * ONE, -3 * ONE, 4 * ONE, -5 * ONE, 6 * ONE, 7 * ONE, -8 * ONE]);
    let d = m.Dual().Dual();
    let n = m.neg();
    assert_eq!(coeffs(&d), coeffs(&n));
}

#[test]
fn conjugate_and_involute_signs() {
    let m = mv([1, 2, 3, 4, 5, 6, 7, 8]);
    assert_eq!(coeffs(&m.Conjugate()), [1, -2, -3, -4, -5, -6, -7, 8]);
    assert_eq!(coeffs(&m.Involute()), [1, -2, -3, -4, 5, 6, 7, -8]);
}

#[test]
fn basis_vector_squares() {
    // e1 squares to +1; e2 and e3 square to -1 in this signature.
    let e1 = R120::new(ONE, 1);
    let e2 = R120::new(ONE, 2);
    let e3 = R120::new(ONE, 3);
    assert_eq!(coeffs(&e1.geometric_product(e1)), [ONE, 0, 0, 0, 0, 0, 0, 0]);
    assert_eq!(coeffs(&e2.geometric_product(e2)), [-ONE, 0, 0, 0, 0, 0, 0, 0]);
    assert_eq!(coeffs(&e3.geometric_product(e3)), [-ONE, 0, 0, 0, 0, 0, 0, 0]);
}

#[test]
fn geometric_product_of_orthogonal_vectors_is_bivector() {
    let e1 = R120::new(ONE, 1);
    let e2 = R120::new(ONE, 2);
    let p = e1.geometric_product(e2);
    assert_eq!(coeffs(&p), [0, 0, 0, 0, ONE, 0, 0, 0]);
    // and in the other order the bivector flips sign
    let q = e2.geometric_product(e1);
    assert_eq!(coeffs(&q), [0, 0, 0, 0, -ONE, 0, 0, 0]);
}

#[test]
fn wedge_is_antisymmetric_on_vectors() {
    let a = mv([0, ONE, 2 * ONE, -ONE, 0, 0, 0, 0]);
    let b = mv([0, 3 * ONE, -ONE, ONE, 0, 0, 0, 0]);
    let ab = a.wedge(b);
    let ba = b.wedge(a);
    let n = ba.neg();
    assert_eq!(coeffs(&ab), coeffs(&n));
}

#[test]
fn wedge_of_parallel_vectors_is_zero() {
    let a = mv([0, ONE, 2 * ONE, -ONE, 0, 0, 0, 0]);
    let b = mv([0, 2 * ONE, 4 * ONE, -2 * ONE, 0, 0, 0, 0]);
    assert_eq!(coeffs(&a.wedge(b)), [0; 8]);
}

#[test]
fn vee_of_trivectors() {
    // e123 & e123 keeps the trivector slot.
    let t = R120::new(2 * ONE, 7);
    let v = t.vee(t);
    assert_eq!(coeffs(&v), [0, 0, 0, 0, 0, 0, 0, 4 * ONE]);
}

#[test]
fn dot_on_vectors_matches_signature() {
    // dot(e1, e1) = 1, dot(e2, e2) = -1: scalar slot only.
    let a = mv([0, 2 * ONE, 3 * ONE, 0, 0, 0, 0, 0]);
    let d = a.dot(a);
    // 2*2*(+1) + 3*3*(-1) = -5
    assert_eq!(coeffs(&d)[0], -5 * ONE);
}

#[test]
fn add_sub_scale_are_coefficientwise() {
    let a = mv([1, 2, 3, 4, 5, 6, 7, 8]);
    let b = mv([10, 20, 30, 40, 50, 60, 70, 80]);
    assert_eq!(coeffs(&a.add(b)), [11, 22, 33, 44, 55, 66, 77, 88]);
    assert_eq!(coeffs(&b.sub(a)), [9, 18, 27, 36, 45, 54, 63, 72]);
    let s = mv([ONE, 2 * ONE, 0, 0, 0, 0, 0, -4 * ONE]).scale(ONE / 2);
    assert_eq!(coeffs(&s), [ONE / 2, ONE, 0, 0, 0, 0, 0, -2 * ONE]);
}

#[test]
fn norm_of_spacelike_vector_is_exact() {
    // |3 e2 + 4 e3| = 5, exactly representable.
    let v = mv([0, 0, 3 * ONE, 4 * ONE, 0, 0, 0, 0]);
    assert_eq!(v.norm(), 5 * ONE);
}

#[test]
fn norm_of_timelike_vector_uses_magnitude_guard() {
    // e1 alone squares to +1 under conjugation with a negative scalar part:
    // the guard takes the magnitude, so the norm is 1.
    let v = R120::new(ONE, 1);
    assert_eq!(v.norm(), ONE);
}

#[test]
fn inorm_is_norm_of_dual() {
    let v = mv([0, 0, 3 * ONE, 4 * ONE, 0, 0, 0, 0]);
    assert_eq!(v.inorm(), v.Dual().norm());
}

#[test]
fn normalize_zero_is_zero() {
    let z = R120::zero();
    assert_eq!(coeffs(&z.normalized()), [0; 8]);
}

#[test]
fn normalized_exact_on_pythagorean_vector() {
    let v = mv([0, 0, 3 * ONE, 4 * ONE, 0, 0, 0, 0]);
    let n = v.normalized();
    // 3/5 and 4/5 are exactly representable on the 2^16 grid? 0.6 * 65536 =
    // 39321.6, so allow the one-step truncation.
    let nx = n.coeff(2);
    let ny = n.coeff(3);
    assert!((to_f(nx) - 0.6).abs() < 2.0 / SCALE as f64);
    assert!((to_f(ny) - 0.8).abs() < 2.0 / SCALE as f64);
}

#[test]
fn norm_of_normalized_is_close_to_one() {
    let samples = [
        [0, 0, 3 * ONE, 4 * ONE, 0, 0, 0, 0],
        [0, 0, -7 * ONE, ONE / 4, 0, 0, 0, 0],
        [0, 0, 250 * ONE, -133 * ONE, 0, 0, 0, 0],
        [5 * ONE, 0, 2 * ONE, 0, 0, 0, 0, 0],
        [0, 0, 0, 0, 9 * ONE, 0, 0, 0],
    ];
    for c in samples {
        let v = mv(c);
        let n = v.normalized().norm();
        assert!((to_f(n) - 1.0).abs() < 0.01, "norm {}", to_f(n));
    }
}
