//! The worldline / light-cone solver.
//!
//! A [`Path`] is a non-empty sequence of spacetime waypoints with
//! non-decreasing, non-negative timestamps, interpreted as a closed polyline
//! that repeats with period equal to the last timestamp. Timestamps are kept
//! in light-distance units (coordinate time multiplied by the speed of
//! light), as is the observer time handed to the solver.
//!
//! Given the observer's position and current time, the solver finds the
//! segment of the (periodically repeated) worldline that straddles the
//! observer's light cone: it adds whole periods until the cone test has a
//! solution, scans for the first waypoint not above the cone, and solves the
//! quadratic equation of the null-interval condition on that segment. A
//! quadratic with leading coefficient zero is a degenerate segment and a
//! negative discriminant means no causal intersection: both are reported as
//! faults rather than producing an undefined value.

use vstd::prelude::*;

verus! {

broadcast use crate::r120::lemma_r120_view_len;

use vstd::arithmetic::div_mod::{lemma_fundamental_div_mod, lemma_mod_bound, lemma_div_plus_one};
use crate::fixed::{
    SCALE,
    COORD_MAX,
    abs_i,
    dtr,
    fx_mul_s,
    fx_div_s,
    fx_sqrt_s,
    sqrt_floor,
    norm2d_s,
    isqrt_u128,
    lemma_dtr_mag,
};
use crate::r120::{R120, in_range, lemma_mul_bound};
use crate::boost::{ROTOR_MAX, POINT_MAX, boost_point_s, boost_point};

/// Largest observer time (in light-distance units) the solver accepts; the
/// periodic offset stays within `i128` arithmetic below it.
pub const TIME_MAX: i128 = 1152921504606846976;

/// One spacetime waypoint: a 2D position and a timestamp in light-distance
/// units. Timestamps along a path are non-decreasing.
#[derive(Clone, Copy, PartialEq, Eq, Debug)]
pub struct Waypoint {
    pub x: i128,
    pub y: i128,
    pub t: i128,
}

/// A waypoint's coordinates and timestamp are within the world range, with a
/// non-negative timestamp.
pub open spec fn wp_in_range(w: Waypoint) -> bool {
    &&& -COORD_MAX <= w.x <= COORD_MAX
    &&& -COORD_MAX <= w.y <= COORD_MAX
    &&& 0 <= w.t <= COORD_MAX
}

/// Every waypoint of the sequence is within range.
pub open spec fn path_in_range(s: Seq<Waypoint>) -> bool {
    forall|i: int| 0 <= i < s.len() ==> wp_in_range(#[trigger] s[i])
}

/// Timestamps never decrease along the sequence.
pub open spec fn path_monotonic(s: Seq<Waypoint>) -> bool {
    forall|i: int| 0 <= i < s.len() - 1 ==> (#[trigger] s[i].t) <= s[i + 1].t
}

/// The repeat period: the last waypoint's timestamp. It must be positive for
/// the periodic continuation to be meaningful.
pub open spec fn period_s(s: Seq<Waypoint>) -> int {
    s[s.len() - 1].t as int
}

/// A well-formed path: non-empty, in range, non-decreasing timestamps, and a
/// positive period.
pub open spec fn path_wf(s: Seq<Waypoint>) -> bool {
    &&& s.len() >= 1
    &&& path_in_range(s)
    &&& path_monotonic(s)
    &&& period_s(s) >= 1
}

/// Why a waypoint sequence was rejected at path construction.
#[derive(Clone, Copy, PartialEq, Eq, Debug)]
pub enum PathError {
    /// The sequence holds no waypoint: a construction-time, fatal fault.
    Empty,
    /// A coordinate or timestamp is outside the world range, or a timestamp
    /// is negative.
    OutOfRange,
    /// A timestamp decreases along the sequence.
    NonMonotonicTimes,
    /// The last timestamp is zero, so the path could not repeat.
    NonPositivePeriod,
}

/// The error that a given invalid sequence is rejected with: the checks run
/// in this order.
pub open spec fn expected_path_error(s: Seq<Waypoint>) -> PathError {
    if s.len() == 0 {
        PathError::Empty
    } else if !path_in_range(s) {
        PathError::OutOfRange
    } else if !path_monotonic(s) {
        PathError::NonMonotonicTimes
    } else {
        PathError::NonPositivePeriod
    }
}

/// A validated worldline: construction checks every invariant of
/// [`path_wf`], so a held value always satisfies it.
pub struct Path {
    waypoints: Vec<Waypoint>,
}

impl View for Path {
    type V = Seq<Waypoint>;

    closed spec fn view(&self) -> Seq<Waypoint> {
        self.waypoints@
    }
}

impl Path {
    /// The path invariant: what construction established.
    pub open spec fn wf(&self) -> bool {
        path_wf(self@)
    }

    /// Validates a waypoint sequence into a path. A sequence that is empty,
    /// out of range, time-decreasing or without a positive period is
    /// rejected with the matching error.
    pub fn new(waypoints: Vec<Waypoint>) -> (res: Result<Path, PathError>)
        ensures
            match res {
                Ok(p) => path_wf(waypoints@) && p@ == waypoints@ && p.wf(),
                Err(e) => !path_wf(waypoints@) && e == expected_path_error(waypoints@),
            },
    {
        let n = waypoints.len();
        if n == 0 {
            return Err(PathError::Empty);
        }
        let mut i: usize = 0;
        while i < n
            invariant
                i <= n,
                n == waypoints@.len(),
                forall|j: int| 0 <= j < i ==> wp_in_range(#[trigger] waypoints@[j]),
            decreases n - i,
        {
            let w = waypoints[i];
            if w.x < -COORD_MAX || w.x > COORD_MAX || w.y < -COORD_MAX || w.y > COORD_MAX
                || w.t < 0 || w.t > COORD_MAX {
                return Err(PathError::OutOfRange);
            }
            i += 1;
        }
        let mut k: usize = 1;
        while k < n
            invariant
                1 <= k <= n,
                n == waypoints@.len(),
                path_in_range(waypoints@),
                forall|j: int| 0 <= j < k - 1 ==> (#[trigger] waypoints@[j].t)
                    <= waypoints@[j + 1].t,
            decreases n - k,
        {
            if waypoints[k - 1].t > waypoints[k].t {
                proof {
                    let jj = k - 1 as int;
                    assert(waypoints@[jj].t > waypoints@[jj + 1].t);
                    assert(!path_monotonic(waypoints@));
                }
                return Err(PathError::NonMonotonicTimes);
            }
            k += 1;
        }
        if waypoints[n - 1].t < 1 {
            return Err(PathError::NonPositivePeriod);
        }
        Ok(Path { waypoints })
    }

    /// The number of waypoints.
    pub fn len(&self) -> (n: usize)
        ensures
            n == self@.len(),
    {
        self.waypoints.len()
    }

    /// The waypoint at a position.
    pub fn get(&self, i: usize) -> (w: Waypoint)
        requires
            i < self@.len(),
        ensures
            w == self@[i as int],
    {
        self.waypoints[i]
    }
}

/// Distance (rounded down) between a waypoint and the observer.
pub open spec fn wp_dist(w: Waypoint, ox: int, oy: int) -> int {
    norm2d_s(w.x - ox, w.y - oy)
}

/// The periodic offset, in light-distance units: whole repeat periods are
/// added until the light-cone scan below has a solution within the sequence.
pub open spec fn offset_s(s: Seq<Waypoint>, ox: int, oy: int, tc: int) -> int {
    let d = wp_dist(s[s.len() - 1], ox, oy);
    period_s(s) * ((d + tc) / period_s(s))
}

/// The waypoint at `i` is on or above the observer's light cone, its
/// timestamp shifted by the periodic offset.
pub open spec fn above_cone(w: Waypoint, ox: int, oy: int, tc: int, off: int) -> bool {
    wp_dist(w, ox, oy) + tc >= w.t + off
}

/// The first index at or after `i` whose waypoint is not above the cone (or
/// the length, if every one is).
pub open spec fn scan_from(s: Seq<Waypoint>, ox: int, oy: int, tc: int, off: int, i: int) -> int
    decreases s.len() - i,
{
    if i < 0 || i >= s.len() {
        s.len() as int
    } else if !above_cone(s[i], ox, oy, tc, off) {
        i
    } else {
        scan_from(s, ox, oy, tc, off, i + 1)
    }
}

/// The index of the first waypoint not above the cone, scanning from the
/// start under the periodic offset.
pub open spec fn scan_index_s(s: Seq<Waypoint>, ox: int, oy: int, tc: int) -> int {
    scan_from(s, ox, oy, tc, offset_s(s, ox, oy, tc), 0)
}

/// The two observer-relative spacetime points that bound the segment
/// straddling the light cone: the scan index and its predecessor (wrapping to
/// the last waypoint, at the previous period's copy, when the scan stops at
/// the start).
pub open spec fn bounds_s(s: Seq<Waypoint>, ox: int, oy: int, tc: int) -> (
    (int, int, int),
    (int, int, int),
) {
    let off = offset_s(s, ox, oy, tc);
    let i = scan_index_s(s, ox, oy, tc);
    let prev = if i == 0 { s.len() - 1 } else { i - 1 };
    (
        (
            s[prev].x - ox,
            s[prev].y - oy,
            (if i == 0 { 0int } else { s[prev].t as int }) + off,
        ),
        (s[i].x - ox, s[i].y - oy, s[i].t + off),
    )
}

/// Division of a non-negative value by a positive one brackets it between
/// consecutive multiples.
proof fn lemma_floor_bracket(n: int, l: int)
    requires
        n >= 0,
        l >= 1,
    ensures
        0 <= l * (n / l) <= n,
        n < l * (n / l) + l,
        n / l >= 0,
{
    lemma_fundamental_div_mod(n, l);
    lemma_mod_bound(n, l);
    assert(n / l >= 0) by (nonlinear_arith)
        requires
            l * (n / l) + (n % l) == n,
            0 <= n % l < l,
            n >= 0,
            l >= 1,
    ;
    assert(l * (n / l) >= 0) by (nonlinear_arith)
        requires
            n / l >= 0,
            l >= 1,
    ;
}

/// Every timestamp of a monotonic sequence is at most the last one.
proof fn lemma_time_le_last(s: Seq<Waypoint>, i: int)
    requires
        path_monotonic(s),
        0 <= i < s.len(),
    ensures
        s[i].t <= s[s.len() - 1].t,
    decreases s.len() - i,
{
    if i < s.len() - 1 {
        lemma_time_le_last(s, i + 1);
    }
}

/// The scan stops exactly at the first index that fails the cone test.
proof fn lemma_scan_from_value(
    s: Seq<Waypoint>,
    ox: int,
    oy: int,
    tc: int,
    off: int,
    k: int,
    i: int,
)
    requires
        0 <= k <= i < s.len(),
        forall|j: int| k <= j < i ==> above_cone(#[trigger] s[j], ox, oy, tc, off),
        !above_cone(s[i], ox, oy, tc, off),
    ensures
        scan_from(s, ox, oy, tc, off, k) == i,
    decreases i - k,
{
    if k < i {
        lemma_scan_from_value(s, ox, oy, tc, off, k + 1, i);
    }
}

/// Under the periodic offset, the last waypoint always fails the cone test:
/// the scan stays within the sequence.
proof fn lemma_last_below_cone(s: Seq<Waypoint>, ox: int, oy: int, tc: int)
    requires
        path_wf(s),
        tc >= 0,
    ensures
        !above_cone(s[s.len() - 1], ox, oy, tc, offset_s(s, ox, oy, tc)),
        0 <= offset_s(s, ox, oy, tc) <= wp_dist(s[s.len() - 1], ox, oy) + tc,
        tc - offset_s(s, ox, oy, tc) >= -wp_dist(s[s.len() - 1], ox, oy),
        tc - offset_s(s, ox, oy, tc) < period_s(s),
{
    let last = s[s.len() - 1];
    let d = wp_dist(last, ox, oy);
    let l = period_s(s);
    assert((last.x - ox) * (last.x - ox) >= 0 && (last.y - oy) * (last.y - oy) >= 0)
        by (nonlinear_arith);
    crate::fixed::lemma_sqrt_floor_props((last.x - ox) * (last.x - ox) + (last.y - oy) * (last.y
        - oy));
    assert(d >= 0);
    lemma_floor_bracket(d + tc, l);
}

/// The distance between a waypoint and the observer, rounded down.
fn wp_distance(w: Waypoint, ox: i128, oy: i128) -> (d: i128)
    requires
        wp_in_range(w),
        -COORD_MAX <= ox <= COORD_MAX,
        -COORD_MAX <= oy <= COORD_MAX,
    ensures
        d as int == wp_dist(w, ox as int, oy as int),
        0 <= d <= 206158430208,
{
    let dx = w.x - ox;
    let dy = w.y - oy;
    proof {
        lemma_mul_bound(dx as int, dx as int, 137438953472, 137438953472);
        lemma_mul_bound(dy as int, dy as int, 137438953472, 137438953472);
        assert(dx as int * dx as int >= 0 && dy as int * dy as int >= 0) by (nonlinear_arith);
    }
    let d2 = dx * dx + dy * dy;
    let dw = isqrt_u128(d2 as u128);
    proof {
        assert(dw as int <= 206158430208) by (nonlinear_arith)
            requires
                (dw as int) * (dw as int) <= d2 as int,
                d2 as int <= 2 * (137438953472 * 137438953472),
                dw as int >= 0,
        ;
    }
    dw as i128
}

impl Path {
    /// The two spacetime points, relative to the observer, that bound the
    /// segment straddling the observer's backward light cone at time `tc`
    /// (in light-distance units). The periodic offset has been folded into
    /// both timestamps.
    #[verifier::rlimit(100)]
    pub fn get_bounds_at_time(&self, ox: i128, oy: i128, tc: i128) -> (out: (
        (i128, i128, i128),
        (i128, i128, i128),
    ))
        requires
            self.wf(),
            -COORD_MAX <= ox <= COORD_MAX,
            -COORD_MAX <= oy <= COORD_MAX,
            0 <= tc <= TIME_MAX,
        ensures
            (out.0.0 as int, out.0.1 as int, out.0.2 as int) == bounds_s(
                self@,
                ox as int,
                oy as int,
                tc as int,
            ).0,
            (out.1.0 as int, out.1.1 as int, out.1.2 as int) == bounds_s(
                self@,
                ox as int,
                oy as int,
                tc as int,
            ).1,
            -137438953472 <= out.0.0 <= 137438953472,
            -137438953472 <= out.0.1 <= 137438953472,
            -137438953472 <= out.1.0 <= 137438953472,
            -137438953472 <= out.1.1 <= 137438953472,
            -274877906944 <= tc - out.0.2 <= 274877906944,
            0 <= out.1.2 - out.0.2 <= COORD_MAX,
    {
        let ghost s = self@;
        let n = self.len();
        let last = self.get(n - 1);
        let d_last = wp_distance(last, ox, oy);
        proof {
            lemma_last_below_cone(s, ox as int, oy as int, tc as int);
        }
        let q = (d_last + tc) / last.t;
        let offset = last.t * q;
        proof {
            assert(q as int == (d_last as int + tc as int) / (last.t as int));
            assert(offset as int == offset_s(s, ox as int, oy as int, tc as int));
        }
        let mut i: usize = 0;
        let mut w = self.get(0);
        let mut d = wp_distance(w, ox, oy);
        proof {
            assert(wp_in_range(s[0]));
        }
        while d + tc >= w.t + offset
            invariant
                self.wf(),
                s == self@,
                n == s.len(),
                0 <= i < n,
                w == s[i as int],
                d as int == wp_dist(w, ox as int, oy as int),
                offset as int == offset_s(s, ox as int, oy as int, tc as int),
                0 <= offset <= 206158430208 + tc,
                -COORD_MAX <= ox <= COORD_MAX,
                -COORD_MAX <= oy <= COORD_MAX,
                0 <= tc <= TIME_MAX,
                0 <= d <= 206158430208,
                forall|j: int| 0 <= j < i ==> above_cone(
                    #[trigger] s[j],
                    ox as int,
                    oy as int,
                    tc as int,
                    offset as int,
                ),
                !above_cone(s[n - 1], ox as int, oy as int, tc as int, offset as int),
            decreases n - i,
        {
            proof {
                assert(above_cone(s[i as int], ox as int, oy as int, tc as int, offset as int));
                assert(i as int != n - 1);
            }
            i += 1;
            w = self.get(i);
            d = wp_distance(w, ox, oy);
        }
        proof {
            lemma_scan_from_value(
                s,
                ox as int,
                oy as int,
                tc as int,
                offset as int,
                0,
                i as int,
            );
            assert(i as int == scan_index_s(s, ox as int, oy as int, tc as int));
        }
        let prev = if i == 0 {
            n - 1
        } else {
            i - 1
        };
        let wp = self.get(prev);
        let b0t = if i == 0 {
            offset
        } else {
            wp.t + offset
        };
        proof {
            assert(wp_in_range(s[prev as int]));
            lemma_time_le_last(s, prev as int);
            lemma_time_le_last(s, i as int);
            assert(period_s(s) <= COORD_MAX);
            if i == 0 {
                assert(s[i as int].t >= 0);
            } else {
                assert(s[prev as int].t <= s[i as int].t);
            }
        }
        ((wp.x - ox, wp.y - oy, b0t), (w.x - ox, w.y - oy, w.t + offset))
    }
}

/// How the light-cone solver can fail for one entity and tick. Such a fault
/// is local: the caller holds the entity's last position or skips the tick.
#[derive(Clone, Copy, PartialEq, Eq, Debug)]
pub enum SolveError {
    /// The bounding segment collapses: the quadratic's leading coefficient is
    /// zero, so there is no finite solution.
    DegenerateSegment,
    /// The discriminant is negative: no causal intersection exists on the
    /// segment. Reported as a fault rather than guessed over.
    NoCausalIntersection,
    /// The interpolated point lies too far out to be transformed within the
    /// machine range of the boost applicator.
    OutOfFrame,
}

/// Leading coefficient of the light-cone quadratic: the squared spatial
/// length of the segment minus its squared temporal length.
pub open spec fn quad_a(b0: (int, int, int), b1: (int, int, int)) -> int {
    dtr(
        (b1.0 - b0.0) * (b1.0 - b0.0) + (b1.1 - b0.1) * (b1.1 - b0.1) - (b1.2 - b0.2) * (b1.2
            - b0.2),
        SCALE as int,
    )
}

/// Linear coefficient of the light-cone quadratic.
pub open spec fn quad_b(b0: (int, int, int), b1: (int, int, int), tc: int) -> int {
    dtr(
        2 * (b0.0 * (b1.0 - b0.0) + b0.1 * (b1.1 - b0.1) + (tc - b0.2) * (b1.2 - b0.2)),
        SCALE as int,
    )
}

/// Constant coefficient of the light-cone quadratic: the squared spatial
/// distance of the segment start minus its squared temporal distance.
pub open spec fn quad_c(b0: (int, int, int), tc: int) -> int {
    dtr(b0.0 * b0.0 + b0.1 * b0.1 - (tc - b0.2) * (tc - b0.2), SCALE as int)
}

/// The quadratic's discriminant.
pub open spec fn disc_s(qa: int, qb: int, qc: int) -> int {
    fx_mul_s(qb, qb) - 4 * fx_mul_s(qa, qc)
}

/// The chosen root: the `-b - sqrt(disc)` form, unless it falls outside the
/// unit interval, in which case the other root is taken.
pub open spec fn root_s(qa: int, qb: int, disc: int) -> int {
    let sd = fx_sqrt_s(disc);
    let p0 = fx_div_s(-qb - sd, 2 * qa);
    if p0 < 0 || p0 > SCALE {
        fx_div_s(-qb + sd, 2 * qa)
    } else {
        p0
    }
}

/// The point of the worldline causally visible to the observer at `tc`, in
/// observer-relative coordinates: the root of the null-interval quadratic on
/// the bounding segment, interpolated between its endpoints. A zero leading
/// coefficient is the degenerate-segment fault; a negative discriminant is
/// the no-intersection fault.
pub open spec fn visible_point_s(s: Seq<Waypoint>, ox: int, oy: int, tc: int) -> Result<
    (int, int),
    SolveError,
> {
    let bs = bounds_s(s, ox, oy, tc);
    let b0 = bs.0;
    let b1 = bs.1;
    let qa = quad_a(b0, b1);
    if qa == 0 {
        Err(SolveError::DegenerateSegment)
    } else {
        let qb = quad_b(b0, b1, tc);
        let qc = quad_c(b0, tc);
        let disc = disc_s(qa, qb, qc);
        if disc < 0 {
            Err(SolveError::NoCausalIntersection)
        } else {
            let p = root_s(qa, qb, disc);
            Ok((b0.0 + fx_mul_s(p, b1.0 - b0.0), b0.1 + fx_mul_s(p, b1.1 - b0.1)))
        }
    }
}

impl Path {
    /// Solves for the causally visible point of this worldline, relative to
    /// an observer at `(ox, oy)` whose coordinate time is `tc` light-distance
    /// units. Fails exactly on a degenerate segment or a missing causal
    /// intersection, as [`visible_point_s`] states.
    #[verifier::rlimit(100)]
    pub fn visible_point(&self, ox: i128, oy: i128, tc: i128) -> (res: Result<
        (i128, i128),
        SolveError,
    >)
        requires
            self.wf(),
            -COORD_MAX <= ox <= COORD_MAX,
            -COORD_MAX <= oy <= COORD_MAX,
            0 <= tc <= TIME_MAX,
        ensures
            match res {
                Ok(pt) => visible_point_s(self@, ox as int, oy as int, tc as int) == Ok::<
                    (int, int),
                    SolveError,
                >((pt.0 as int, pt.1 as int)),
                Err(e) => visible_point_s(self@, ox as int, oy as int, tc as int) == Err::<
                    (int, int),
                    SolveError,
                >(e),
            },
            res is Err ==> matches!(res, Err(SolveError::DegenerateSegment)
                | Err(SolveError::NoCausalIntersection)),
    {
        let bs = self.get_bounds_at_time(ox, oy, tc);
        let b0 = bs.0;
        let b1 = bs.1;
        let dx = b1.0 - b0.0;
        let dy = b1.1 - b0.1;
        let dt = b1.2 - b0.2;
        let tcb = tc - b0.2;
        proof {
            assert(-274877906944 <= dx <= 274877906944);
            assert(-274877906944 <= dy <= 274877906944);
            assert(-274877906944 <= dt <= 274877906944);
            lemma_mul_bound(dx as int, dx as int, 274877906944, 274877906944);
            lemma_mul_bound(dy as int, dy as int, 274877906944, 274877906944);
            lemma_mul_bound(dt as int, dt as int, 274877906944, 274877906944);
            lemma_mul_bound(b0.0 as int, dx as int, 274877906944, 274877906944);
            lemma_mul_bound(b0.1 as int, dy as int, 274877906944, 274877906944);
            lemma_mul_bound(tcb as int, dt as int, 274877906944, 274877906944);
            lemma_mul_bound(b0.0 as int, b0.0 as int, 274877906944, 274877906944);
            lemma_mul_bound(b0.1 as int, b0.1 as int, 274877906944, 274877906944);
            lemma_mul_bound(tcb as int, tcb as int, 274877906944, 274877906944);
        }
        let ta = dx * dx + dy * dy - dt * dt;
        let qa = ta / SCALE;
        proof {
            lemma_dtr_mag(ta as int, SCALE as int);
            assert(abs_i(qa as int) * 65536 <= abs_i(ta as int));
            assert(-4611686018427387904 <= qa <= 4611686018427387904);
        }
        if qa == 0 {
            return Err(SolveError::DegenerateSegment);
        }
        let tb = 2 * (b0.0 * dx + b0.1 * dy + tcb * dt);
        let qb = tb / SCALE;
        let tcc = b0.0 * b0.0 + b0.1 * b0.1 - tcb * tcb;
        let qc = tcc / SCALE;
        proof {
            lemma_dtr_mag(tb as int, SCALE as int);
            lemma_dtr_mag(tcc as int, SCALE as int);
            assert(-9223372036854775808 <= qb <= 9223372036854775808);
            assert(-4611686018427387904 <= qc <= 4611686018427387904);
            lemma_mul_bound(qb as int, qb as int, 9223372036854775808, 9223372036854775808);
            lemma_mul_bound(qa as int, qc as int, 4611686018427387904, 4611686018427387904);
        }
        let qbb = (qb * qb) / SCALE;
        let qac = (qa * qc) / SCALE;
        proof {
            lemma_dtr_mag(qb as int * qb as int, SCALE as int);
            lemma_dtr_mag(qa as int * qc as int, SCALE as int);
            assert(abs_i(qbb as int) * 65536 <= abs_i(qb as int * qb as int));
            assert(abs_i(qac as int) * 65536 <= abs_i(qa as int * qc as int));
        }
        let disc = qbb - 4 * qac;
        if disc < 0 {
            return Err(SolveError::NoCausalIntersection);
        }
        let sdw = isqrt_u128((disc as u128) * (SCALE as u128));
        proof {
            assert(sdw as int <= 18446744073709551616) by (nonlinear_arith)
                requires
                    (sdw as int) * (sdw as int) <= (disc as int) * (SCALE as int),
                    0 <= disc as int
                        <= 2596148429267413814265248164610048,
                    sdw as int >= 0,
        ;
        }
        let sd = sdw as i128;
        proof {
            assert(sd as int == sqrt_floor(disc as int * SCALE as int));
        }
        let den = 2 * qa;
        let num0 = -qb - sd;
        let p0 = div_signed(num0 * SCALE, den);
        let p = if p0 < 0 || p0 > SCALE {
            div_signed((-qb + sd) * SCALE, den)
        } else {
            p0
        };
        proof {
            assert(p as int == root_s(qa as int, qb as int, disc as int));
            assert(abs_i(p as int) <= 2417851639229258349412352);
            lemma_mul_bound(p as int, dx as int, 2417851639229258349412352, 274877906944);
            lemma_mul_bound(p as int, dy as int, 2417851639229258349412352, 274877906944);
            lemma_dtr_mag(p as int * dx as int, SCALE as int);
            lemma_dtr_mag(p as int * dy as int, SCALE as int);
        }
        let px = b0.0 + (p * dx) / SCALE;
        let py = b0.1 + (p * dy) / SCALE;
        Ok((px, py))
    }
}

/// Truncating division with the divisor's magnitude at least two.
fn div_signed(a: i128, b: i128) -> (q: i128)
    requires
        b <= -2 || b >= 2,
    ensures
        q as int == dtr(a as int, b as int),
        abs_i(q as int) <= abs_i(a as int),
{
    proof {
        if b >= 2 {
            lemma_dtr_mag(a as int, b as int);
            assert(abs_i(dtr(a as int, b as int)) * 2 <= abs_i(a as int)) by (nonlinear_arith)
                requires
                    abs_i(dtr(a as int, b as int)) * (b as int) <= abs_i(a as int),
                    b as int >= 2,
                    abs_i(dtr(a as int, b as int)) >= 0,
            ;
        } else {
            lemma_dtr_negdiv_mag(a as int, b as int);
            assert(abs_i(dtr(a as int, b as int)) * 2 <= abs_i(a as int)) by (nonlinear_arith)
                requires
                    abs_i(dtr(a as int, b as int)) * (-(b as int)) <= abs_i(a as int),
                    b as int <= -2,
                    abs_i(dtr(a as int, b as int)) >= 0,
            ;
        }
    }
    a / b
}

/// Truncating division never grows the magnitude, for a negative divisor
/// either.
proof fn lemma_dtr_negdiv_mag(a: int, b: int)
    requires
        b <= -1,
    ensures
        abs_i(dtr(a, b)) * (-b) <= abs_i(a),
        abs_i(dtr(a, b)) <= abs_i(a),
{
    lemma_fundamental_div_mod(a, b);
    lemma_fundamental_div_mod(-a, b);
    lemma_mod_range_any(a, b);
    lemma_mod_range_any(-a, b);
    assert(abs_i(dtr(a, b)) * (-b) <= abs_i(a) && abs_i(dtr(a, b)) <= abs_i(a))
        by (nonlinear_arith)
        requires
            b <= -1,
            a == b * (a / b) + a % b,
            -a == b * ((-a) / b) + (-a) % b,
            0 <= a % b < -b,
            0 <= (-a) % b < -b,
    ;
}

/// The Euclidean remainder lies in `[0, |b|)` for a negative divisor too.
proof fn lemma_mod_range_any(a: int, b: int)
    by (nonlinear_arith)
    requires
        b <= -1,
    ensures
        0 <= a % b < -b,
{
}

/// The solved point is close enough to the observer to be transformed.
pub open spec fn in_frame(p: (int, int)) -> bool {
    &&& -POINT_MAX <= p.0 <= POINT_MAX
    &&& -POINT_MAX <= p.1 <= POINT_MAX
}

/// Solves a worldline for its causally visible point and applies the
/// observer's boost rotor to it: the full retarded-time reorientation of one
/// path entity for one tick. Solver faults pass through; a solved point
/// outside the transformable frame is reported as such.
pub fn reorient_path_point(path: &Path, ox: i128, oy: i128, tc: i128, rotor: &R120) -> (res:
    Result<(i128, i128), SolveError>)
    requires
        path.wf(),
        -COORD_MAX <= ox <= COORD_MAX,
        -COORD_MAX <= oy <= COORD_MAX,
        0 <= tc <= TIME_MAX,
        in_range(rotor@, ROTOR_MAX as int),
    ensures
        match res {
            Ok(pt) => {
                &&& visible_point_s(path@, ox as int, oy as int, tc as int) is Ok
                &&& in_frame(visible_point_s(path@, ox as int, oy as int, tc as int)->Ok_0)
                &&& (pt.0 as int, pt.1 as int) == boost_point_s(
                    rotor@,
                    visible_point_s(path@, ox as int, oy as int, tc as int)->Ok_0.0,
                    visible_point_s(path@, ox as int, oy as int, tc as int)->Ok_0.1,
                )
            },
            Err(SolveError::OutOfFrame) => {
                &&& visible_point_s(path@, ox as int, oy as int, tc as int) is Ok
                &&& !in_frame(visible_point_s(path@, ox as int, oy as int, tc as int)->Ok_0)
            },
            Err(e) => visible_point_s(path@, ox as int, oy as int, tc as int) == Err::<
                (int, int),
                SolveError,
            >(e),
        },
{
    let solved = path.visible_point(ox, oy, tc);
    match solved {
        Err(e) => Err(e),
        Ok(pt) => {
            let (vx, vy) = pt;
            if vx < -POINT_MAX || vx > POINT_MAX || vy < -POINT_MAX || vy > POINT_MAX {
                Err(SolveError::OutOfFrame)
            } else {
                let out = boost_point(rotor, vx, vy);
                Ok(out)
            }
        },
    }
}

/// The scan is invariant under shifting the observer time and the offset by
/// the same amount: the cone test compares their difference.
proof fn lemma_scan_shift(
    s: Seq<Waypoint>,
    ox: int,
    oy: int,
    tc: int,
    off: int,
    l: int,
    k: int,
)
    ensures
        scan_from(s, ox, oy, tc + l, off + l, k) == scan_from(s, ox, oy, tc, off, k),
    decreases s.len() - k,
{
    if 0 <= k < s.len() {
        assert(above_cone(s[k], ox, oy, tc + l, off + l) == above_cone(s[k], ox, oy, tc, off));
        if above_cone(s[k], ox, oy, tc, off) {
            lemma_scan_shift(s, ox, oy, tc, off, l, k + 1);
        }
    }
}

/// The solver is periodic in the observer time, with the path's repeat
/// period: one period later, the periodic offset grows by exactly one period
/// and everything else cancels, so the output is identical. In particular the
/// solved position cannot jump as the observer time crosses a period
/// boundary: the solution there equals the one a full period earlier.
pub proof fn lemma_visible_point_periodic(s: Seq<Waypoint>, ox: int, oy: int, tc: int)
    requires
        path_wf(s),
        tc >= 0,
    ensures
        visible_point_s(s, ox, oy, tc + period_s(s)) == visible_point_s(s, ox, oy, tc),
{
    let l = period_s(s);
    let last = s[s.len() - 1];
    let d = wp_dist(last, ox, oy);
    assert((last.x - ox) * (last.x - ox) >= 0 && (last.y - oy) * (last.y - oy) >= 0)
        by (nonlinear_arith);
    crate::fixed::lemma_sqrt_floor_props((last.x - ox) * (last.x - ox) + (last.y - oy) * (last.y
        - oy));
    assert(d >= 0);
    let q = (d + tc) / l;
    lemma_div_plus_one(d + tc, l);
    assert((d + (tc + l)) / l == q + 1);
    assert(l * (q + 1) == l * q + l) by (nonlinear_arith);
    let off = offset_s(s, ox, oy, tc);
    assert(offset_s(s, ox, oy, tc + l) == off + l);
    lemma_scan_shift(s, ox, oy, tc, off, l, 0);
    assert(scan_index_s(s, ox, oy, tc + l) == scan_index_s(s, ox, oy, tc));
    let b = bounds_s(s, ox, oy, tc);
    let bp = bounds_s(s, ox, oy, tc + l);
    assert(bp.0.0 == b.0.0 && bp.0.1 == b.0.1 && bp.1.0 == b.1.0 && bp.1.1 == b.1.1);
    assert(bp.0.2 == b.0.2 + l && bp.1.2 == b.1.2 + l);
    assert(quad_a(bp.0, bp.1) == quad_a(b.0, b.1));
    assert(quad_b(bp.0, bp.1, tc + l) == quad_b(b.0, b.1, tc));
    assert(quad_c(bp.0, tc + l) == quad_c(b.0, tc));
    assert(visible_point_s(s, ox, oy, tc + l) == visible_point_s(s, ox, oy, tc));
}

} // verus!
