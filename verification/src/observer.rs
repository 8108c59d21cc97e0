//! The observer state integrator.
//!
//! Each tick, directional input signals produce a velocity delta scaled by
//! the tick duration; braking additionally decays the velocity by a friction
//! fraction and snaps it to exactly zero once it falls below one percent of
//! the speed ceiling. A soft rectangular boundary nudges the velocity back
//! toward the world box. The final velocity is clamped to a ceiling below
//! the speed of light — the clamp divides by the ceiling-rounded length, so
//! the ceiling is never exceeded ([`lemma_speed_ceiling`] and the `step`
//! contract). Position integrates velocity; the global (coordinate) clock
//! advances by the time-dilated tick `dt / sqrt(1 - v^2/c^2)` while the
//! local (proper) clock advances by the raw tick.

use vstd::prelude::*;

verus! {

use crate::fixed::{
    SCALE,
    COORD_MAX,
    abs_i,
    dtr,
    fx_mul_s,
    fx_div_s,
    fx_sqrt_s,
    sqrt_floor,
    sqrt_ceil,
    is_floor_sqrt,
    isqrt_u128,
    isqrt_ceil_u128,
    lemma_dtr_mag,
    lemma_dtr_nonneg,
    lemma_sqrt_floor_props,
};

/// Largest raw position magnitude the integrator accepts: positions may
/// transiently leave the world box under the soft boundary, but stay within
/// machine range.
pub const POS_MAX: i128 = 1099511627776;

/// Largest raw clock value the integrator accepts.
pub const CLOCK_MAX: i128 = 1152921504606846976;

/// The observer's kinematic state: velocity and position, owned by the
/// integrator and read-only elsewhere within a tick.
#[derive(Clone, Copy, PartialEq, Eq, Debug)]
pub struct Observer {
    pub vx: i128,
    pub vy: i128,
    pub px: i128,
    pub py: i128,
}

/// The two clocks: global (coordinate) time and local (proper) time, both in
/// seconds on the fixed-point grid, reset only at session start.
#[derive(Clone, Copy, PartialEq, Eq, Debug)]
pub struct Clocks {
    pub global: i128,
    pub local: i128,
}

/// One tick's sampled input: four directional acceleration signals and the
/// braking flag.
#[derive(Clone, Copy, PartialEq, Eq, Debug)]
pub struct InputState {
    pub right: bool,
    pub left: bool,
    pub up: bool,
    pub down: bool,
    pub brake: bool,
}

/// The configuration constants supplied at startup.
#[derive(Clone, Copy, PartialEq, Eq, Debug)]
pub struct SimConfig {
    /// Speed of light, world units per second.
    pub c: i128,
    /// Acceleration magnitudes, world units per squared second.
    pub accel_x: i128,
    pub accel_y: i128,
    /// Friction fraction per tick while braking, on the fixed-point grid.
    pub friction: i128,
    /// The speed ceiling, strictly below the speed of light.
    pub max_speed: i128,
    /// Tick duration in seconds, on the fixed-point grid.
    pub dt: i128,
    /// The soft world boundary rectangle.
    pub left_bound: i128,
    pub right_bound: i128,
    pub lower_bound: i128,
    pub upper_bound: i128,
}

/// A valid configuration: positive tick and light speed, a ceiling below
/// light speed, friction at most one, an ordered boundary box, everything
/// within world range.
pub open spec fn config_wf(cfg: SimConfig) -> bool {
    &&& 1 <= cfg.c <= COORD_MAX
    &&& 1 <= cfg.max_speed
    &&& cfg.max_speed < cfg.c
    &&& 0 <= cfg.accel_x <= COORD_MAX
    &&& 0 <= cfg.accel_y <= COORD_MAX
    &&& 0 <= cfg.friction <= SCALE
    &&& 1 <= cfg.dt <= SCALE
    &&& -COORD_MAX <= cfg.left_bound <= cfg.right_bound <= COORD_MAX
    &&& -COORD_MAX <= cfg.lower_bound <= cfg.upper_bound <= COORD_MAX
}

/// The observer's velocity respects the speed ceiling and its position is in
/// machine range.
pub open spec fn observer_wf(o: Observer, cfg: SimConfig) -> bool {
    &&& o.vx * o.vx + o.vy * o.vy <= cfg.max_speed * cfg.max_speed
    &&& -POS_MAX <= o.px <= POS_MAX
    &&& -POS_MAX <= o.py <= POS_MAX
}

/// The tick's velocity delta: acceleration input, braking friction, and the
/// soft boundary nudge.
pub open spec fn vel_delta_s(cfg: SimConfig, inp: InputState, o: Observer) -> (int, int) {
    let ax = (if inp.right {
        fx_mul_s(cfg.accel_x as int, cfg.dt as int)
    } else {
        0int
    }) - (if inp.left {
        fx_mul_s(cfg.accel_x as int, cfg.dt as int)
    } else {
        0int
    });
    let ay = (if inp.up {
        fx_mul_s(cfg.accel_y as int, cfg.dt as int)
    } else {
        0int
    }) - (if inp.down {
        fx_mul_s(cfg.accel_y as int, cfg.dt as int)
    } else {
        0int
    });
    let bx = if inp.brake {
        ax - fx_mul_s(cfg.friction as int, o.vx as int)
    } else {
        ax
    };
    let by = if inp.brake {
        ay - fx_mul_s(cfg.friction as int, o.vy as int)
    } else {
        ay
    };
    let nx = if o.px < cfg.left_bound {
        bx - (o.px - cfg.left_bound)
    } else if o.px > cfg.right_bound {
        bx - (o.px - cfg.right_bound)
    } else {
        bx
    };
    let ny = if o.py < cfg.lower_bound {
        by - (o.py - cfg.lower_bound)
    } else if o.py > cfg.upper_bound {
        by - (o.py - cfg.upper_bound)
    } else {
        by
    };
    (nx, ny)
}

/// The velocity after the delta and the braking snap: while braking, a speed
/// below one percent of the ceiling collapses to exactly zero, against
/// residual drift.
pub open spec fn snapped_vel_s(cfg: SimConfig, inp: InputState, o: Observer) -> (int, int) {
    let d = vel_delta_s(cfg, inp, o);
    let vx = o.vx + d.0;
    let vy = o.vy + d.1;
    let snap = dtr(cfg.max_speed as int, 100);
    if inp.brake && vx * vx + vy * vy < snap * snap {
        (0int, 0int)
    } else {
        (vx, vy)
    }
}

/// The velocity clamp: a speed above the ceiling is scaled back by the ratio
/// of the ceiling to the rounded-up length, which never overshoots.
pub open spec fn clamp_vel_s(cfg: SimConfig, vx: int, vy: int) -> (int, int) {
    if vx * vx + vy * vy > cfg.max_speed * cfg.max_speed {
        let n = sqrt_ceil(vx * vx + vy * vy);
        (dtr(vx * cfg.max_speed, n), dtr(vy * cfg.max_speed, n))
    } else {
        (vx, vy)
    }
}

/// The tick's final velocity.
pub open spec fn step_velocity_s(cfg: SimConfig, inp: InputState, o: Observer) -> (int, int) {
    let v = snapped_vel_s(cfg, inp, o);
    clamp_vel_s(cfg, v.0, v.1)
}

/// The time-dilated tick: `dt / sqrt(1 - v^2 / c^2)` on the fixed-point
/// grid, from the tick's final velocity.
pub open spec fn dilated_tick_s(cfg: SimConfig, vx: int, vy: int) -> int {
    let beta2 = dtr((vx * vx + vy * vy) * SCALE, cfg.c * cfg.c);
    let denom = fx_sqrt_s(SCALE - beta2);
    fx_div_s(cfg.dt as int, denom)
}

/// Scaling both components by a ratio of the ceiling to the rounded-up
/// vector length keeps the squared length within the squared ceiling.
proof fn lemma_clamp_bound(vx: int, vy: int, m: int, n: int, qx: int, qy: int)
    by (nonlinear_arith)
    requires
        n >= 1,
        m >= 0,
        vx * vx + vy * vy <= n * n,
        abs_i(qx) * n <= abs_i(vx * m),
        abs_i(qy) * n <= abs_i(vy * m),
    ensures
        qx * qx + qy * qy <= m * m,
{
}

/// The speed ceiling is an invariant of the integrator: whatever the input
/// and the incoming state, the tick's final velocity never exceeds the
/// configured ceiling.
pub proof fn lemma_speed_ceiling(cfg: SimConfig, inp: InputState, o: Observer)
    requires
        config_wf(cfg),
    ensures
        ({
            let v = step_velocity_s(cfg, inp, o);
            v.0 * v.0 + v.1 * v.1 <= cfg.max_speed * cfg.max_speed
        }),
{
    let sv = snapped_vel_s(cfg, inp, o);
    let vx = sv.0;
    let vy = sv.1;
    let m = cfg.max_speed as int;
    if vx * vx + vy * vy > m * m {
        let n2 = vx * vx + vy * vy;
        assert(vx * vx + vy * vy >= 0) by (nonlinear_arith);
        lemma_sqrt_floor_props(n2);
        let n = sqrt_ceil(n2);
        assert(n * n >= n2 && n >= 0) by (nonlinear_arith)
            requires
                is_floor_sqrt(n2, sqrt_floor(n2)),
                n == sqrt_ceil(n2),
                sqrt_floor(n2) >= 0,
        ;
        assert(n >= 1) by (nonlinear_arith)
            requires
                n * n >= n2,
                n2 > m * m,
                m >= 1,
                n >= 0,
        ;
        lemma_dtr_mag(vx * m, n);
        lemma_dtr_mag(vy * m, n);
        lemma_clamp_bound(vx, vy, m, n, dtr(vx * m, n), dtr(vy * m, n));
    }
}

impl Observer {
    /// An observer at rest at the origin.
    pub fn start() -> (o: Observer)
        ensures
            o.vx == 0 && o.vy == 0 && o.px == 0 && o.py == 0,
    {
        Observer { vx: 0, vy: 0, px: 0, py: 0 }
    }
}

impl Clocks {
    /// Both clocks at zero: the start of a session.
    pub fn start() -> (k: Clocks)
        ensures
            k.global == 0 && k.local == 0,
    {
        Clocks { global: 0, local: 0 }
    }
}

/// Advances the observer and the two clocks by one tick: acceleration,
/// braking friction and snap, soft boundary, speed clamp, position
/// integration, and the two clock integrations. The final speed never
/// exceeds the ceiling, and the global clock never advances slower than the
/// local one.
#[verifier::rlimit(100)]
pub fn step(obs: &mut Observer, clocks: &mut Clocks, inp: InputState, cfg: &SimConfig)
    requires
        config_wf(*cfg),
        observer_wf(*old(obs), *cfg),
        -CLOCK_MAX <= old(clocks).global <= CLOCK_MAX,
        -CLOCK_MAX <= old(clocks).local <= CLOCK_MAX,
    ensures
        (final(obs).vx as int, final(obs).vy as int) == step_velocity_s(*cfg, inp, *old(obs)),
        final(obs).vx * final(obs).vx + final(obs).vy * final(obs).vy <= cfg.max_speed
            * cfg.max_speed,
        final(obs).px as int == old(obs).px + fx_mul_s(final(obs).vx as int, cfg.dt as int),
        final(obs).py as int == old(obs).py + fx_mul_s(final(obs).vy as int, cfg.dt as int),
        final(clocks).local as int == old(clocks).local + cfg.dt,
        final(clocks).global as int == old(clocks).global + dilated_tick_s(
            *cfg,
            final(obs).vx as int,
            final(obs).vy as int,
        ),
        final(clocks).global - old(clocks).global >= cfg.dt,
{
    let ghost o0 = *obs;
    proof {
        lemma_mul_bound_pub(cfg.accel_x as int, cfg.dt as int, COORD_MAX as int, SCALE as int);
        lemma_dtr_mag(cfg.accel_x as int * cfg.dt as int, SCALE as int);
        lemma_mul_bound_pub(cfg.accel_y as int, cfg.dt as int, COORD_MAX as int, SCALE as int);
        lemma_dtr_mag(cfg.accel_y as int * cfg.dt as int, SCALE as int);
        assert(abs_i(o0.vx as int) <= cfg.max_speed && abs_i(o0.vy as int) <= cfg.max_speed)
            by (nonlinear_arith)
            requires
                o0.vx * o0.vx + o0.vy * o0.vy <= cfg.max_speed * cfg.max_speed,
                cfg.max_speed >= 1,
        ;
        lemma_mul_bound_pub(cfg.friction as int, o0.vx as int, SCALE as int, COORD_MAX as int);
        lemma_dtr_mag(cfg.friction as int * o0.vx as int, SCALE as int);
        lemma_mul_bound_pub(cfg.friction as int, o0.vy as int, SCALE as int, COORD_MAX as int);
        lemma_dtr_mag(cfg.friction as int * o0.vy as int, SCALE as int);
    }
    let mut dx: i128 = 0;
    let mut dy: i128 = 0;
    if inp.right {
        dx += (cfg.accel_x * cfg.dt) / SCALE;
    }
    if inp.left {
        dx -= (cfg.accel_x * cfg.dt) / SCALE;
    }
    if inp.up {
        dy += (cfg.accel_y * cfg.dt) / SCALE;
    }
    if inp.down {
        dy -= (cfg.accel_y * cfg.dt) / SCALE;
    }
    if inp.brake {
        dx -= (cfg.friction * obs.vx) / SCALE;
        dy -= (cfg.friction * obs.vy) / SCALE;
    }
    if obs.px < cfg.left_bound {
        dx -= obs.px - cfg.left_bound;
    } else if obs.px > cfg.right_bound {
        dx -= obs.px - cfg.right_bound;
    }
    if obs.py < cfg.lower_bound {
        dy -= obs.py - cfg.lower_bound;
    } else if obs.py > cfg.upper_bound {
        dy -= obs.py - cfg.upper_bound;
    }
    proof {
        assert((dx as int, dy as int) == vel_delta_s(*cfg, inp, o0));
    }
    let mut vx = obs.vx + dx;
    let mut vy = obs.vy + dy;
    if inp.brake {
        let snap = cfg.max_speed / 100;
        proof {
            lemma_dtr_nonneg(cfg.max_speed as int, 100);
            lemma_mul_bound_pub(snap as int, snap as int, COORD_MAX as int, COORD_MAX as int);
            lemma_mul_bound_pub(vx as int, vx as int, 4611686018427387904, 4611686018427387904);
            lemma_mul_bound_pub(vy as int, vy as int, 4611686018427387904, 4611686018427387904);
        }
        if vx * vx + vy * vy < snap * snap {
            vx = 0;
            vy = 0;
        }
    }
    proof {
        assert((vx as int, vy as int) == snapped_vel_s(*cfg, inp, o0));
        lemma_mul_bound_pub(vx as int, vx as int, 4611686018427387904, 4611686018427387904);
        lemma_mul_bound_pub(vy as int, vy as int, 4611686018427387904, 4611686018427387904);
        lemma_mul_bound_pub(
            cfg.max_speed as int,
            cfg.max_speed as int,
            COORD_MAX as int,
            COORD_MAX as int,
        );
    }
    let n2 = vx * vx + vy * vy;
    if n2 > cfg.max_speed * cfg.max_speed {
        proof {
            assert(n2 >= 0) by (nonlinear_arith)
                requires
                    n2 == vx * vx + vy * vy,
            ;
        }
        proof {
            lemma_sqrt_floor_props(n2 as int);
        }
        let n = isqrt_ceil_u128(n2 as u128);
        proof {
            assert(n as int * (n as int) >= n2 as int);
            assert(n >= 1);
            assert((n as int) * (n as int) <= 4 * (4611686018427387904
                * 4611686018427387904)) by (nonlinear_arith)
                requires
                    (n as int) * (n as int) >= n2 as int,
                    n as int == sqrt_ceil(n2 as int),
                    n2 as int <= 2 * (4611686018427387904 * 4611686018427387904),
                    is_floor_sqrt(n2 as int, sqrt_floor(n2 as int)),
                    n as int >= 1,
            ;
            assert(n as int <= 2 * 4611686018427387904) by (nonlinear_arith)
                requires
                    (n as int) * (n as int) <= 4 * (4611686018427387904 * 4611686018427387904),
                    n as int >= 1,
            ;
        }
        let nn = n as i128;
        proof {
            lemma_mul_bound_pub(vx as int, cfg.max_speed as int, 4611686018427387904,
                COORD_MAX as int);
            lemma_mul_bound_pub(vy as int, cfg.max_speed as int, 4611686018427387904,
                COORD_MAX as int);
            lemma_dtr_mag(vx as int * cfg.max_speed as int, nn as int);
            lemma_dtr_mag(vy as int * cfg.max_speed as int, nn as int);
        }
        let cx = div_by_pos(vx * cfg.max_speed, nn);
        let cy = div_by_pos(vy * cfg.max_speed, nn);
        vx = cx;
        vy = cy;
        proof {
            lemma_clamp_bound(
                snapped_vel_s(*cfg, inp, o0).0,
                snapped_vel_s(*cfg, inp, o0).1,
                cfg.max_speed as int,
                nn as int,
                vx as int,
                vy as int,
            );
        }
    }
    proof {
        assert((vx as int, vy as int) == step_velocity_s(*cfg, inp, o0));
        assert(vx * vx + vy * vy <= cfg.max_speed * cfg.max_speed);
        assert(abs_i(vx as int) <= cfg.max_speed && abs_i(vy as int) <= cfg.max_speed)
            by (nonlinear_arith)
            requires
                vx * vx + vy * vy <= cfg.max_speed * cfg.max_speed,
                cfg.max_speed >= 1,
        ;
        lemma_mul_bound_pub(vx as int, cfg.dt as int, COORD_MAX as int, SCALE as int);
        lemma_mul_bound_pub(vy as int, cfg.dt as int, COORD_MAX as int, SCALE as int);
        lemma_dtr_mag(vx as int * cfg.dt as int, SCALE as int);
        lemma_dtr_mag(vy as int * cfg.dt as int, SCALE as int);
    }
    obs.vx = vx;
    obs.vy = vy;
    obs.px = obs.px + (vx * cfg.dt) / SCALE;
    obs.py = obs.py + (vy * cfg.dt) / SCALE;
    let gdt = dilated_tick(cfg, vx, vy);
    clocks.global = clocks.global + gdt;
    clocks.local = clocks.local + cfg.dt;
    proof {
        assert(final(obs).px as int == o0.px + fx_mul_s(vx as int, cfg.dt as int));
    }
}

/// The time-dilated tick for a velocity under the ceiling: at least the raw
/// tick, since the dilation factor is at least one.
fn dilated_tick(cfg: &SimConfig, vx: i128, vy: i128) -> (gdt: i128)
    requires
        config_wf(*cfg),
        vx * vx + vy * vy <= cfg.max_speed * cfg.max_speed,
    ensures
        gdt as int == dilated_tick_s(*cfg, vx as int, vy as int),
        cfg.dt <= gdt <= cfg.dt * SCALE,
{
    proof {
        assert(abs_i(vx as int) <= cfg.max_speed && abs_i(vy as int) <= cfg.max_speed)
            by (nonlinear_arith)
            requires
                vx * vx + vy * vy <= cfg.max_speed * cfg.max_speed,
                cfg.max_speed >= 1,
        ;
        lemma_mul_bound_pub(vx as int, vx as int, COORD_MAX as int, COORD_MAX as int);
        lemma_mul_bound_pub(vy as int, vy as int, COORD_MAX as int, COORD_MAX as int);
        lemma_mul_bound_pub(cfg.c as int, cfg.c as int, COORD_MAX as int, COORD_MAX as int);
        assert(vx * vx + vy * vy < cfg.c * cfg.c) by (nonlinear_arith)
            requires
                vx * vx + vy * vy <= cfg.max_speed * cfg.max_speed,
                1 <= cfg.max_speed,
                cfg.max_speed < cfg.c,
        ;
        assert(vx * vx + vy * vy >= 0) by (nonlinear_arith);
    }
    let v2 = vx * vx + vy * vy;
    let c2 = cfg.c * cfg.c;
    proof {
        lemma_dtr_nonneg(v2 as int * SCALE as int, c2 as int);
        lemma_dtr_mag(v2 as int * SCALE as int, c2 as int);
        assert(dtr(v2 as int * SCALE as int, c2 as int) <= SCALE - 1) by (nonlinear_arith)
            requires
                abs_i(dtr(v2 as int * SCALE as int, c2 as int)) * (c2 as int) <= abs_i(
                    v2 as int * SCALE as int,
                ),
                dtr(v2 as int * SCALE as int, c2 as int) >= 0,
                0 <= v2 as int <= c2 - 1,
                c2 as int >= 1,
        ;
    }
    let beta2 = (v2 * SCALE) / c2;
    let rem = SCALE - beta2;
    let dw = isqrt_u128((rem as u128) * (SCALE as u128));
    proof {
        assert(1 <= rem <= SCALE);
        assert(dw as int >= 1) by (nonlinear_arith)
            requires
                is_floor_sqrt((rem as int) * (SCALE as int), dw as int),
                rem as int >= 1,
        ;
        assert(dw as int <= SCALE) by (nonlinear_arith)
            requires
                (dw as int) * (dw as int) <= (rem as int) * (SCALE as int),
                rem as int <= SCALE as int,
                dw as int >= 0,
        ;
    }
    let denom = dw as i128;
    proof {
        lemma_dtr_nonneg(cfg.dt as int * SCALE as int, denom as int);
        lemma_dtr_mag(cfg.dt as int * SCALE as int, denom as int);
        crate::fixed::lemma_dtr_lower(cfg.dt as int * SCALE as int, denom as int);
        assert(dtr(cfg.dt as int * SCALE as int, denom as int) >= cfg.dt) by (nonlinear_arith)
            requires
                dtr(cfg.dt as int * SCALE as int, denom as int) * (denom as int) + (denom as int)
                    > cfg.dt as int * SCALE as int,
                dtr(cfg.dt as int * SCALE as int, denom as int) >= 0,
                1 <= denom as int <= SCALE as int,
                cfg.dt >= 1,
        ;
    }
    let gdt = (cfg.dt * SCALE) / denom;
    gdt
}

/// Truncating division by a positive divisor.
fn div_by_pos(a: i128, b: i128) -> (q: i128)
    requires
        b >= 1,
    ensures
        q as int == dtr(a as int, b as int),
        abs_i(q as int) <= abs_i(a as int),
{
    proof {
        lemma_dtr_mag(a as int, b as int);
        if a >= 0 {
            lemma_dtr_nonneg(a as int, b as int);
        } else {
            lemma_dtr_nonneg(-(a as int), b as int);
        }
    }
    a / b
}

/// A re-export of the product bound under a name local callers can reach.
proof fn lemma_mul_bound_pub(x: int, y: int, m: int, n: int)
    requires
        -m <= x <= m,
        -n <= y <= n,
    ensures
        -(m * n) <= x * y <= m * n,
        -(m * n) <= y * x <= m * n,
{
    crate::r120::lemma_mul_bound(x, y, m, n);
}

/// One background dust mote, advected opposite to the observer's velocity
/// and wrapped once around the screen box.
pub open spec fn dust_step_s(
    x: int,
    y: int,
    vx: int,
    vy: int,
    dt: int,
    w: int,
    h: int,
) -> (int, int) {
    let nx = x - fx_mul_s(vx, dt);
    let ny = y - fx_mul_s(vy, dt);
    let hw = dtr(w, 2);
    let hh = dtr(h, 2);
    let wx = if nx < -hw {
        nx + w
    } else if nx > hw {
        nx - w
    } else {
        nx
    };
    let wy = if ny < -hh {
        ny + h
    } else if ny > hh {
        ny - h
    } else {
        ny
    };
    (wx, wy)
}

/// Moves one dust mote against the observer's motion, wrapping it once
/// around the screen box of the given width and height.
pub fn advance_dust(
    x: i128,
    y: i128,
    vx: i128,
    vy: i128,
    dt: i128,
    w: i128,
    h: i128,
) -> (out: (i128, i128))
    requires
        -POS_MAX <= x <= POS_MAX,
        -POS_MAX <= y <= POS_MAX,
        -COORD_MAX <= vx <= COORD_MAX,
        -COORD_MAX <= vy <= COORD_MAX,
        1 <= dt <= SCALE,
        0 <= w <= COORD_MAX,
        0 <= h <= COORD_MAX,
    ensures
        (out.0 as int, out.1 as int) == dust_step_s(
            x as int,
            y as int,
            vx as int,
            vy as int,
            dt as int,
            w as int,
            h as int,
        ),
{
    proof {
        lemma_mul_bound_pub(vx as int, dt as int, COORD_MAX as int, SCALE as int);
        lemma_mul_bound_pub(vy as int, dt as int, COORD_MAX as int, SCALE as int);
        lemma_dtr_mag(vx as int * dt as int, SCALE as int);
        lemma_dtr_mag(vy as int * dt as int, SCALE as int);
        lemma_dtr_nonneg(w as int, 2);
        lemma_dtr_nonneg(h as int, 2);
    }
    let nx = x - (vx * dt) / SCALE;
    let ny = y - (vy * dt) / SCALE;
    let hw = w / 2;
    let hh = h / 2;
    let wx = if nx < -hw {
        nx + w
    } else if nx > hw {
        nx - w
    } else {
        nx
    };
    let wy = if ny < -hh {
        ny + h
    } else if ny > hh {
        ny - h
    } else {
        ny
    };
    (wx, wy)
}

} // verus!
