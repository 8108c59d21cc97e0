use spacetime::fixed::SCALE;
use spacetime::observer::{Clocks, InputState, Observer, SimConfig, advance_dust, step};

const ONE: i128 = SCALE;

fn config() -> SimConfig {
    SimConfig {
        c: 2000 * ONE,
        accel_x: 1000 * ONE,
        accel_y: 1000 * ONE,
        friction: ONE / 20,
        max_speed: 1000 * ONE,
        dt: ONE / 30,
        left_bound: -2000 * ONE,
        right_bound: 2000 * ONE,
        lower_bound: -2000 * ONE,
        upper_bound: 2000 * ONE,
    }
}

fn idle() -> InputState {
    InputState { right: false, left: false, up: false, down: false, brake: false }
}

fn to_f(raw: i128) -> f64 {
    raw as f64 / SCALE as f64
}

#[test]
fn speed_approaches_ceiling_but_never_exceeds_it() {
    // a wide world box, so the soft boundary never pulls the observer back
    let mut cfg = config();
    cfg.left_bound = -1000000 * ONE;
    cfg.right_bound = 1000000 * ONE;
    cfg.lower_bound = -1000000 * ONE;
    cfg.upper_bound = 1000000 * ONE;
    let mut obs = Observer::start();
    let mut clocks = Clocks::start();
    let push = InputState { right: true, ..idle() };
    let cap = cfg.max_speed as f64 * cfg.max_speed as f64;
    let mut tick: usize = 0;
    while tick < 2000 {
        step(&mut obs, &mut clocks, push, &cfg);
        let v2 = obs.vx as f64 * obs.vx as f64 + obs.vy as f64 * obs.vy as f64;
        assert!(v2 <= cap, "tick {} speed beyond ceiling", tick);
        tick += 1;
    }
    // asymptotic: after many ticks of full acceleration the speed has
    // reached the ceiling to within a tenth of a percent
    assert!(to_f(obs.vx) > 999.0, "vx {}", to_f(obs.vx));
}

#[test]
fn observer_at_rest_keeps_clocks_in_step() {
    let cfg = config();
    let mut obs = Observer::start();
    let mut clocks = Clocks::start();
    let mut tick: usize = 0;
    while tick < 300 {
        step(&mut obs, &mut clocks, idle(), &cfg);
        tick += 1;
    }
    assert_eq!(obs.vx, 0);
    assert_eq!(obs.vy, 0);
    assert_eq!(obs.px, 0);
    assert_eq!(clocks.global, clocks.local);
}

#[test]
fn moving_observer_dilates_global_time() {
    let cfg = config();
    let mut obs = Observer::start();
    let mut clocks = Clocks::start();
    let push = InputState { right: true, up: true, ..idle() };
    let mut tick: usize = 0;
    while tick < 600 {
        step(&mut obs, &mut clocks, push, &cfg);
        assert!(clocks.global >= clocks.local);
        tick += 1;
    }
    // near the ceiling, beta = 1/2, so the dilation factor is about 1.1547
    let ratio = to_f(clocks.global) / to_f(clocks.local);
    assert!(ratio > 1.05, "ratio {}", ratio);
}

#[test]
fn braking_snaps_small_speeds_to_exact_zero() {
    let cfg = config();
    let mut obs = Observer::start();
    obs.vx = 2 * ONE;
    obs.vy = -ONE;
    let mut clocks = Clocks::start();
    let brake = InputState { brake: true, ..idle() };
    let mut tick: usize = 0;
    while tick < 10 {
        step(&mut obs, &mut clocks, brake, &cfg);
        tick += 1;
    }
    assert_eq!(obs.vx, 0);
    assert_eq!(obs.vy, 0);
}

#[test]
fn braking_decays_velocity_toward_zero() {
    let cfg = config();
    let mut obs = Observer::start();
    obs.vx = 800 * ONE;
    let mut clocks = Clocks::start();
    let brake = InputState { brake: true, ..idle() };
    step(&mut obs, &mut clocks, brake, &cfg);
    // one tick of five-percent friction: 800 -> 760
    assert!((to_f(obs.vx) - 760.0).abs() < 0.01, "vx {}", to_f(obs.vx));
}

#[test]
fn boundary_nudges_velocity_back_into_the_box() {
    let cfg = config();
    let mut obs = Observer::start();
    obs.px = 2100 * ONE;
    let mut clocks = Clocks::start();
    step(&mut obs, &mut clocks, idle(), &cfg);
    // beyond the right bound by 100 units: the whole excess is folded into
    // the velocity as a pull-back
    assert!(obs.vx < 0);
    assert!((to_f(obs.vx) + 100.0).abs() < 0.01, "vx {}", to_f(obs.vx));
}

#[test]
fn position_integrates_velocity() {
    let cfg = config();
    let mut obs = Observer::start();
    obs.vx = 300 * ONE;
    let mut clocks = Clocks::start();
    step(&mut obs, &mut clocks, idle(), &cfg);
    // vx stays 300 (no input, no braking), position moves vx * dt = 10
    assert!((to_f(obs.px) - 10.0).abs() < 0.01, "px {}", to_f(obs.px));
}

#[test]
fn dust_wraps_once_around_the_screen() {
    // dust moves against the observer's velocity and wraps at half the box
    let (x, _) = advance_dust(0, 0, 300 * ONE, 0, ONE, 100 * ONE, 100 * ONE);
    // raw step is 300 against the motion: -300, far past -50: wraps by +100
    assert!((to_f(x) + 200.0).abs() < 0.01, "x {}", to_f(x));
    let (x2, y2) = advance_dust(10 * ONE, 20 * ONE, 2 * ONE, -3 * ONE, ONE, 100 * ONE, 100 * ONE);
    assert!((to_f(x2) - 8.0).abs() < 0.01);
    assert!((to_f(y2) - 23.0).abs() < 0.01);
}
