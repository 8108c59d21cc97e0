use spacetime::fixed::SCALE;
use spacetime::r120::R120;
use spacetime::boost::{velocity_to_rotor, boost_point, reorient_marker};

const ONE: i128 = SCALE;

fn to_f(raw: i128) -> f64 {
    raw as f64 / SCALE as f64
}

fn rotor_coeffs(r: &R120) -> [i128; 8] {
    let mut out = [0i128; 8];
    let mut i = 0usize;
    while i < 8 {
        out[i] = r.coeff(i);
        i += 1;
    }
    out
}

#[test]
fn zero_velocity_gives_identity_rotor() {
    let r = velocity_to_rotor(0, 0, 2000 * ONE);
    assert_eq!(rotor_coeffs(&r), [ONE, 0, 0, 0, 0, 0, 0, 0]);
}

#[test]
fn identity_rotor_fixes_points() {
    let r = velocity_to_rotor(0, 0, 2000 * ONE);
    let (x, y) = boost_point(&r, 137 * ONE, -42 * ONE);
    assert_eq!(x, 137 * ONE);
    assert_eq!(y, -42 * ONE);
}

#[test]
fn half_light_speed_rapidity() {
    // v = (1000, 0) with c = 2000: the rapidity angle satisfies
    // tanh(angle) = 0.5. The rotor holds the half-angle pair, so
    // tanh(2 * half) = 2 ch sh / (ch^2 + sh^2) must be 0.5.
    let r = velocity_to_rotor(1000 * ONE, 0, 2000 * ONE);
    let ch = to_f(r.coeff(0));
    let sh = to_f(r.coeff(4));
    let tanh_full = 2.0 * ch * sh / (ch * ch + sh * sh);
    assert!((tanh_full - 0.5).abs() < 0.001, "tanh {}", tanh_full);
    // and the half-angle pair matches cosh/sinh of acosh(gamma)/2
    let gamma = 1.0 / (1.0f64 - 0.25).sqrt();
    assert!((ch - ((gamma + 1.0) / 2.0).sqrt()).abs() < 0.001);
    assert!((sh - ((gamma - 1.0) / 2.0).sqrt()).abs() < 0.001);
}

#[test]
fn rotor_is_unit_under_algebra_norm() {
    let r = velocity_to_rotor(1500 * ONE, -400 * ONE, 2000 * ONE);
    let n = to_f(r.norm());
    assert!((n - 1.0).abs() < 0.01, "norm {}", n);
}

#[test]
fn boosted_point_contracts_along_motion() {
    // A point ahead of a fast observer appears displaced; the transform must
    // keep a point orthogonal to the motion closer to itself.
    let r = velocity_to_rotor(1000 * ONE, 0, 2000 * ONE);
    let (ax, ay) = boost_point(&r, 100 * ONE, 0);
    // boosting a point on the motion axis keeps it on the axis
    assert_eq!(ay, 0);
    assert!(ax != 100 * ONE);
}

#[test]
fn marker_on_identity_rotor_stays_on_dial() {
    let r = velocity_to_rotor(0, 0, 2000 * ONE);
    let (mx, my) = reorient_marker(&r, ONE, 0, 100 * ONE);
    assert!((to_f(mx) - 100.0).abs() < 0.01, "mx {}", to_f(mx));
    assert!(to_f(my).abs() < 0.01);
}

#[test]
fn marker_keeps_radius_under_boost() {
    // Whatever the boost, the reorientation renormalizes the direction, so
    // the marker stays on the circle of its dial.
    let r = velocity_to_rotor(1200 * ONE, 500 * ONE, 2000 * ONE);
    // unit direction at roughly 60 degrees: (0.5, 0.866)
    let ux = ONE / 2;
    let uy = (0.8660254 * SCALE as f64) as i128;
    let (mx, my) = reorient_marker(&r, ux, uy, 100 * ONE);
    let len = (to_f(mx).powi(2) + to_f(my).powi(2)).sqrt();
    assert!((len - 100.0).abs() < 1.0, "len {}", len);
}
