use spacetime::fixed::SCALE;
use spacetime::worldline::{Path, PathError, SolveError, Waypoint, reorient_path_point};
use spacetime::boost::velocity_to_rotor;

const ONE: i128 = SCALE;

fn wp(x: f64, y: f64, t: f64) -> Waypoint {
    Waypoint {
        x: (x * SCALE as f64) as i128,
        y: (y * SCALE as f64) as i128,
        t: (t * SCALE as f64) as i128,
    }
}

fn to_f(raw: i128) -> f64 {
    raw as f64 / SCALE as f64
}

#[test]
fn empty_path_is_rejected() {
    let r = Path::new(Vec::new());
    assert_eq!(r.err(), Some(PathError::Empty));
}

#[test]
fn decreasing_timestamps_are_rejected() {
    let r = Path::new(vec![wp(0.0, 0.0, 2.0), wp(1.0, 0.0, 1.0)]);
    assert_eq!(r.err(), Some(PathError::NonMonotonicTimes));
}

#[test]
fn zero_period_is_rejected() {
    let r = Path::new(vec![wp(0.0, 0.0, 0.0)]);
    assert_eq!(r.err(), Some(PathError::NonPositivePeriod));
}

#[test]
fn negative_timestamp_is_rejected() {
    let r = Path::new(vec![wp(0.0, 0.0, -1.0), wp(1.0, 0.0, 1.0)]);
    assert_eq!(r.err(), Some(PathError::OutOfRange));
}

#[test]
fn oversized_coordinate_is_rejected() {
    let r = Path::new(vec![Waypoint { x: i128::MAX / 2, y: 0, t: ONE }]);
    assert_eq!(r.err(), Some(PathError::OutOfRange));
}

#[test]
fn two_waypoint_light_cone_solution() {
    // The two-waypoint worldline (0,0) at t=1 to (10,0) at t=2, all in
    // light-distance units, seen from the origin at t=1.5: the visible point
    // lies between the waypoints and satisfies |pos| = |t(p) - tc| on the
    // offset copy of the segment.
    let path = Path::new(vec![wp(0.0, 0.0, 1.0), wp(10.0, 0.0, 2.0)]).unwrap();
    let tc = (1.5 * SCALE as f64) as i128;
    let got = path.visible_point(0, 0, tc).unwrap();
    let x = to_f(got.0);
    let y = to_f(got.1);
    assert!(y.abs() < 1e-9, "y {}", y);
    assert!(0.0 < x && x < 10.0, "x {}", x);
    // Solving the quadratic by hand for this scenario gives p = 27/198 on
    // the wrapped segment from (10,0) to (0,0): x = 10 - 10 * 27/198.
    let expected = 10.0 - 10.0 * (27.0 / 198.0);
    assert!((x - expected).abs() < 0.01, "x {} expected {}", x, expected);
}

#[test]
fn light_speed_segment_is_degenerate() {
    // The bounding segment here is the wrapped one, from the last waypoint at
    // (1,0) back to the first at (0,0) over exactly one light-distance unit
    // of time: spatial and temporal separations cancel and the quadratic's
    // leading coefficient vanishes.
    let path = Path::new(vec![wp(0.0, 0.0, 1.0), wp(1.0, 0.0, 2.0)]).unwrap();
    let tc = (1.5 * SCALE as f64) as i128;
    let got = path.visible_point(0, 0, tc);
    assert_eq!(got.err(), Some(SolveError::DegenerateSegment));
}

#[test]
fn solver_is_periodic_in_observer_time() {
    // A loop whose first and last waypoints coincide spatially: one full
    // period later, the solved point is identical, so nothing jumps as the
    // global time crosses a period boundary.
    let path = Path::new(vec![
        wp(0.0, 0.0, 2.0),
        wp(1.0, 0.5, 4.0),
        wp(0.5, -0.5, 6.0),
        wp(0.0, 0.0, 8.0),
    ]).unwrap();
    let period = (8.0 * SCALE as f64) as i128;
    let mut probe = 0i128;
    while probe < period {
        let a = path.visible_point(2 * ONE, -3 * ONE, probe);
        let b = path.visible_point(2 * ONE, -3 * ONE, probe + period);
        assert_eq!(a, b, "probe {}", probe);
        probe += period / 7;
    }
}

#[test]
fn reorient_path_point_composes_solver_and_boost() {
    let path = Path::new(vec![wp(0.0, 0.0, 1.0), wp(10.0, 0.0, 2.0)]).unwrap();
    let tc = (1.5 * SCALE as f64) as i128;
    let rest = velocity_to_rotor(0, 0, 2000 * ONE);
    let solved = path.visible_point(0, 0, tc).unwrap();
    let boosted = reorient_path_point(&path, 0, 0, tc, &rest).unwrap();
    // under the identity rotor the composite returns the solved point
    assert_eq!(boosted, solved);
    // under a real boost the point moves
    let moving = velocity_to_rotor(1000 * ONE, 0, 2000 * ONE);
    let shifted = reorient_path_point(&path, 0, 0, tc, &moving).unwrap();
    assert!(shifted != solved);
}
