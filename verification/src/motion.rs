use vstd::prelude::*;
use vstd::arithmetic::div_mod::{lemma_fundamental_div_mod, lemma_mod_bound};
use crate::geom::{
    Coords, Position, within, arrives, div_trunc, sq, distance_sq, POSITION_LIMIT,
    ARRIVE_DIST_SQ,
};
use crate::trig::{cos_step, sin_step, cos_lookup, sin_lookup, lemma_step_bounds, lemma_step_mirror};

verus! {

/// Rotation direction of a circular move.
#[derive(Clone, Copy, Debug, PartialEq, Eq, Structural)]
pub enum Direction {
    Cw,
    Ccw,
}

/// Why a move's step generation ended: either the arrival test fired, or the
/// step budget ran out without it.
#[derive(Clone, Copy, Debug, PartialEq, Eq, Structural)]
pub enum MoveOutcome {
    Arrived,
    Exhausted,
}

/// Largest radius a circular move accepts, in micro-units: any distance
/// between two operand points fits under it.
pub const RADIUS_LIMIT: i64 = 4_000_000_000_000_000;

// ---------------------------------------------------------------------------
// Linear moves: five equal sub-steps toward the target, each the displacement
// divided by five (truncated toward zero, as the fixed-point division does).
// ---------------------------------------------------------------------------

/// Per-axis sub-step of a linear move: one fifth of the displacement.
pub open spec fn lin_delta(start: Coords, target: Coords) -> Coords {
    Coords {
        x: div_trunc(target.x - start.x, 5),
        y: div_trunc(target.y - start.y, 5),
        z: div_trunc(target.z - start.z, 5),
    }
}

/// Position after `i` sub-steps of the linear move from `start` toward `target`.
pub open spec fn lin_point(start: Coords, target: Coords, i: int) -> Coords {
    Coords {
        x: start.x + i * lin_delta(start, target).x,
        y: start.y + i * lin_delta(start, target).y,
        z: start.z + i * lin_delta(start, target).z,
    }
}

pub open spec fn lin_first_stop_from(start: Coords, target: Coords, stop: Coords, i: int) -> int
    recommends
        1 <= i <= 5,
    decreases 5 - i,
{
    if i >= 5 {
        5
    } else if arrives(lin_point(start, target, i), stop) {
        i
    } else {
        lin_first_stop_from(start, target, stop, i + 1)
    }
}

/// Number of sub-steps a linear move emits: the first of the five whose point
/// passes the arrival test against `stop`, or all five if none does.
pub open spec fn lin_step_count(start: Coords, target: Coords, stop: Coords) -> int {
    lin_first_stop_from(start, target, stop, 1)
}

proof fn lemma_lin_scan_shift(start: Coords, target: Coords, stop: Coords, i: int)
    requires
        1 <= i <= 5,
        forall|j: int| 1 <= j < i ==> !arrives(#[trigger] lin_point(start, target, j), stop),
    ensures
        lin_step_count(start, target, stop) == lin_first_stop_from(start, target, stop, i),
    decreases i,
{
    if i > 1 {
        lemma_lin_scan_shift(start, target, stop, i - 1);
    }
}

/// On each axis the sub-step points of a linear move stay between the start
/// and the target coordinate.
proof fn lemma_lin_axis_bounds(s: int, t: int, i: int)
    requires
        0 <= i <= 5,
    ensures
        s <= t ==> s <= s + i * div_trunc(t - s, 5) <= t,
        s > t ==> t <= s + i * div_trunc(t - s, 5) <= s,
{
    let d = t - s;
    if d >= 0 {
        let q = d / 5;
        lemma_fundamental_div_mod(d, 5);
        lemma_mod_bound(d, 5);
        assert(0 <= i * q <= 5 * q) by (nonlinear_arith)
            requires
                0 <= i <= 5,
                0 <= q,
        ;
    } else {
        let e = -d;
        let p = e / 5;
        lemma_fundamental_div_mod(e, 5);
        lemma_mod_bound(e, 5);
        assert(0 <= i * p <= 5 * p) by (nonlinear_arith)
            requires
                0 <= i <= 5,
                0 <= p,
        ;
        assert(i * -p == -(i * p)) by (nonlinear_arith);
    }
}

/// After all five sub-steps the move ends within four micro-units of the
/// target on each axis: five times the truncated fifth of the displacement
/// misses the displacement by at most the division remainder.
proof fn lemma_lin_axis_final(s: int, t: int)
    ensures
        -4 <= t - (s + 5 * div_trunc(t - s, 5)) <= 4,
{
    let d = t - s;
    if d >= 0 {
        lemma_fundamental_div_mod(d, 5);
        lemma_mod_bound(d, 5);
    } else {
        lemma_fundamental_div_mod(-d, 5);
        lemma_mod_bound(-d, 5);
    }
}

proof fn lemma_lin_scan_result(start: Coords, target: Coords, stop: Coords, i: int)
    requires
        1 <= i <= 5,
    ensures
        i <= lin_first_stop_from(start, target, stop, i) <= 5,
        arrives(lin_point(start, target, lin_first_stop_from(start, target, stop, i)), stop)
            || lin_first_stop_from(start, target, stop, i) == 5,
    decreases 5 - i,
{
    if i < 5 && !arrives(lin_point(start, target, i), stop) {
        lemma_lin_scan_result(start, target, stop, i + 1);
    }
}

/// A linear move whose stop point is its own target always arrives: the
/// fifth sub-step point lies within four micro-units of the target on every
/// axis, well inside the 0.001-unit arrival bound, so the scan ends on a
/// point that passes the arrival test.
pub proof fn lemma_linear_reaches_target(start: Coords, target: Coords)
    ensures
        1 <= lin_step_count(start, target, target) <= 5,
        arrives(lin_point(start, target, lin_step_count(start, target, target)), target),
{
    lemma_lin_axis_final(start.x, target.x);
    lemma_lin_axis_final(start.y, target.y);
    lemma_lin_axis_final(start.z, target.z);
    let p5 = lin_point(start, target, 5);
    assert(sq(p5.x - target.x) <= 16) by (nonlinear_arith)
        requires
            -4 <= p5.x - target.x <= 4,
    ;
    assert(sq(p5.y - target.y) <= 16) by (nonlinear_arith)
        requires
            -4 <= p5.y - target.y <= 4,
    ;
    assert(sq(p5.z - target.z) <= 16) by (nonlinear_arith)
        requires
            -4 <= p5.z - target.z <= 4,
    ;
    assert(arrives(p5, target));
    lemma_lin_scan_result(start, target, target, 1);
}

/// A linear move toward the point the tool already stands on never moves it:
/// every sub-step has zero displacement. If the current position already
/// passes the arrival test against the stop point the move arrives on its
/// first step; otherwise it runs all five zero-length steps.
pub proof fn lemma_linear_idempotent(start: Coords, stop: Coords)
    ensures
        forall|i: int| 0 <= i <= 5 ==> #[trigger] lin_point(start, start, i) == start,
        arrives(start, stop) ==> lin_step_count(start, start, stop) == 1,
        !arrives(start, stop) ==> lin_step_count(start, start, stop) == 5,
{
    assert forall|i: int| 0 <= i <= 5 implies #[trigger] lin_point(start, start, i) == start by {
        assert(div_trunc(0, 5) == 0);
        assert(i * 0 == 0) by (nonlinear_arith);
    }
    reveal_with_fuel(lin_first_stop_from, 6);
}

// ---------------------------------------------------------------------------
// Circular moves: points on the circle at successive multiples of the fixed
// 5-degree step, clockwise (negative angles) or counter-clockwise (positive),
// for as many steps as a full circumference needs, stopping early on arrival.
// ---------------------------------------------------------------------------

/// `radius * factor / 1_000_000`, truncated toward zero: scales a radius in
/// micro-units by a sine or cosine held in micro-units.
pub open spec fn scale_radius(radius: int, factor: int) -> int {
    div_trunc(radius * factor, 1_000_000)
}

/// Index into the 72-entry table of 5-degree angles that step `i` of a move
/// in `direction` stands at: counter-clockwise angles grow, clockwise angles
/// shrink, both reduced into one turn.
pub open spec fn angle_index(direction: Direction, i: int) -> int
    recommends
        0 <= i,
{
    if direction == Direction::Ccw {
        i % 72
    } else {
        (72 - (i % 72)) % 72
    }
}

/// The point a circular move generates at step `i`: the circle point at the
/// step's angle, in the plane of the center's z.
pub open spec fn circle_point(center: Coords, radius: int, direction: Direction, i: int) -> Coords {
    let k = angle_index(direction, i);
    Coords {
        x: center.x + scale_radius(radius, cos_step(k)),
        y: center.y + scale_radius(radius, sin_step(k)),
        z: center.z,
    }
}

/// Steps needed to traverse a full circumference: the ceiling of
/// `2 * pi * radius / step` with the fixed 5-degree step, which reduces to
/// the ceiling of 72 times the radius in whole units.
pub open spec fn circle_step_count(radius: int) -> int
    recommends
        0 <= radius,
{
    (72 * radius + 999_999) / 1_000_000
}

pub open spec fn circ_first_stop_from(
    center: Coords,
    radius: int,
    direction: Direction,
    stop: Coords,
    n: int,
    i: int,
) -> int
    decreases n - i,
{
    if i >= n {
        n
    } else if arrives(circle_point(center, radius, direction, i), stop) {
        i
    } else {
        circ_first_stop_from(center, radius, direction, stop, n, i + 1)
    }
}

/// First step of a circular move of `n` steps whose point passes the arrival
/// test against `stop`, or `n` if none does.
pub open spec fn circ_first_stop(
    center: Coords,
    radius: int,
    direction: Direction,
    stop: Coords,
    n: int,
) -> int {
    circ_first_stop_from(center, radius, direction, stop, n, 0)
}

proof fn lemma_circ_scan_shift(
    center: Coords,
    radius: int,
    direction: Direction,
    stop: Coords,
    n: int,
    i: int,
)
    requires
        0 <= i <= n,
        forall|j: int| 0 <= j < i ==> !arrives(
            #[trigger] circle_point(center, radius, direction, j),
            stop,
        ),
    ensures
        circ_first_stop(center, radius, direction, stop, n) == circ_first_stop_from(
            center,
            radius,
            direction,
            stop,
            n,
            i,
        ),
    decreases i,
{
    if i > 0 {
        lemma_circ_scan_shift(center, radius, direction, stop, n, i - 1);
    }
}

proof fn lemma_circ_scan_le(
    center: Coords,
    radius: int,
    direction: Direction,
    stop: Coords,
    n: int,
    k: int,
    i: int,
)
    requires
        0 <= i <= k < n,
        arrives(circle_point(center, radius, direction, k), stop),
    ensures
        circ_first_stop_from(center, radius, direction, stop, n, i) <= k,
        arrives(
            circle_point(
                center,
                radius,
                direction,
                circ_first_stop_from(center, radius, direction, stop, n, i),
            ),
            stop,
        ),
    decreases k - i,
{
    if !arrives(circle_point(center, radius, direction, i), stop) {
        lemma_circ_scan_le(center, radius, direction, stop, n, k, i + 1);
    }
}

/// If the stop point lies within the arrival bound of any point the arc
/// generation visits inside its step budget — in particular if it is such a
/// point itself — the move arrives: the scan stops no later than that step,
/// on a point that passes the arrival test against the stop point.
pub proof fn lemma_circular_reaches_stop(
    center: Coords,
    radius: int,
    direction: Direction,
    stop: Coords,
    k: int,
)
    requires
        0 <= k < circle_step_count(radius),
        arrives(circle_point(center, radius, direction, k), stop),
    ensures
        circ_first_stop(center, radius, direction, stop, circle_step_count(radius)) <= k,
        arrives(
            circle_point(
                center,
                radius,
                direction,
                circ_first_stop(center, radius, direction, stop, circle_step_count(radius)),
            ),
            stop,
        ),
{
    lemma_circ_scan_le(center, radius, direction, stop, circle_step_count(radius), k, 0);
}

/// A point of the arc always passes the arrival test against itself.
pub proof fn lemma_arrives_at_itself(p: Coords)
    ensures
        arrives(p, p),
{
    assert(sq(0) == 0);
}

proof fn lemma_scale_neg(radius: int, factor: int)
    ensures
        scale_radius(radius, -factor) == -scale_radius(radius, factor),
{
    assert(radius * -factor == -(radius * factor)) by (nonlinear_arith);
}

/// Clockwise and counter-clockwise arcs from the same center and radius are
/// mirror images: at every step the x and z coordinates agree and the y
/// offsets from the center are negatives of one another.
pub proof fn lemma_direction_mirror(center: Coords, radius: int, i: int)
    requires
        0 <= i,
    ensures
        circle_point(center, radius, Direction::Cw, i).x == circle_point(
            center,
            radius,
            Direction::Ccw,
            i,
        ).x,
        circle_point(center, radius, Direction::Cw, i).y - center.y == -(circle_point(
            center,
            radius,
            Direction::Ccw,
            i,
        ).y - center.y),
        circle_point(center, radius, Direction::Cw, i).z == circle_point(
            center,
            radius,
            Direction::Ccw,
            i,
        ).z,
{
    let k = i % 72;
    lemma_mod_bound(i, 72);
    lemma_step_mirror(k);
    lemma_scale_neg(radius, sin_step(k));
}

/// Scales `radius` by a trig factor in micro-units, truncating toward zero.
fn scale_mul(radius: i64, factor: i64) -> (r: i64)
    requires
        0 <= radius <= RADIUS_LIMIT,
        -1_000_000 <= factor <= 1_000_000,
    ensures
        r as int == scale_radius(radius as int, factor as int),
        -radius <= r <= radius,
{
    proof {
        assert(-(radius * 1_000_000) <= radius * factor <= radius * 1_000_000)
            by (nonlinear_arith)
            requires
                0 <= radius,
                -1_000_000 <= factor <= 1_000_000,
        ;
        lemma_fundamental_div_mod(radius as int * factor as int, 1_000_000);
        lemma_mod_bound(radius as int * factor as int, 1_000_000);
        if radius * factor >= 0 {
            vstd::arithmetic::div_mod::lemma_div_is_ordered(
                radius as int * factor as int,
                radius as int * 1_000_000,
                1_000_000,
            );
            vstd::arithmetic::div_mod::lemma_div_multiples_vanish(radius as int, 1_000_000);
        } else {
            vstd::arithmetic::div_mod::lemma_div_is_ordered(
                -(radius as int * factor as int),
                radius as int * 1_000_000,
                1_000_000,
            );
            vstd::arithmetic::div_mod::lemma_div_multiples_vanish(radius as int, 1_000_000);
        }
    }
    let p: i128 = (radius as i128) * (factor as i128);
    if p >= 0 {
        (p / 1_000_000) as i64
    } else {
        (-((-p) / 1_000_000)) as i64
    }
}

/// Truncated-toward-zero division by five, the per-axis sub-step of a linear
/// move.
fn div5(a: i64) -> (r: i64)
    requires
        -10_000_000_000_000_000 <= a <= 10_000_000_000_000_000,
    ensures
        r as int == div_trunc(a as int, 5),
{
    if a >= 0 {
        a / 5
    } else {
        -((-a) / 5)
    }
}

impl Position {
    /// Moves the position linearly towards the target position, in exactly
    /// five equal sub-steps, returning the intermediate points in order.
    ///
    /// After each sub-step the just-updated position is tested against the
    /// stop coordinates; the move ends early, reporting arrival, the first
    /// time it comes within 0.001 units of them.
    pub fn linear_move(&mut self, target: &Position, stop_coordinates: &Position) -> (r: (
        Vec<Position>,
        MoveOutcome,
    ))
        requires
            within(old(self)@, POSITION_LIMIT as int),
            within(target@, POSITION_LIMIT as int),
            within(stop_coordinates@, POSITION_LIMIT as int),
        ensures
            ({
                let n = lin_step_count(old(self)@, target@, stop_coordinates@);
                &&& r.0@.len() == n
                &&& forall|j: int|
                    0 <= j < n ==> (#[trigger] r.0@[j])@ == lin_point(old(self)@, target@, j + 1)
                &&& final(self)@ == lin_point(old(self)@, target@, n)
                &&& within(final(self)@, POSITION_LIMIT as int)
                &&& (r.1 == MoveOutcome::Arrived <==> arrives(final(self)@, stop_coordinates@))
            }),
    {
        let ghost start = self@;
        let dx = div5(target.x - self.x);
        let dy = div5(target.y - self.y);
        let dz = div5(target.z - self.z);
        let mut emitted: Vec<Position> = Vec::new();
        let mut done: bool = false;
        let mut i: u64 = 1;
        while i <= 5 && !done
            invariant
                1 <= i <= 6,
                within(start, POSITION_LIMIT as int),
                within(target@, POSITION_LIMIT as int),
                within(stop_coordinates@, POSITION_LIMIT as int),
                dx as int == lin_delta(start, target@).x,
                dy as int == lin_delta(start, target@).y,
                dz as int == lin_delta(start, target@).z,
                self@ == lin_point(start, target@, i - 1),
                within(self@, POSITION_LIMIT as int),
                emitted@.len() == i - 1,
                forall|j: int|
                    0 <= j < i - 1 ==> (#[trigger] emitted@[j])@ == lin_point(
                        start,
                        target@,
                        j + 1,
                    ),
                forall|j: int|
                    1 <= j < i ==> (arrives(#[trigger] lin_point(start, target@, j), stop_coordinates@)
                        <==> (done && j == i - 1)),
                done ==> i >= 2,
            decreases 6 - i,
        {
            proof {
                lemma_lin_axis_bounds(start.x, target@.x, i as int);
                lemma_lin_axis_bounds(start.y, target@.y, i as int);
                lemma_lin_axis_bounds(start.z, target@.z, i as int);
                assert(i as int * dx as int == (i - 1) * dx as int + dx as int)
                    by (nonlinear_arith);
                assert(i as int * dy as int == (i - 1) * dy as int + dy as int)
                    by (nonlinear_arith);
                assert(i as int * dz as int == (i - 1) * dz as int + dz as int)
                    by (nonlinear_arith);
            }
            self.x = self.x + dx;
            self.y = self.y + dy;
            self.z = self.z + dz;
            emitted.push(*self);
            let d2 = distance_sq(self, stop_coordinates);
            if d2 < ARRIVE_DIST_SQ {
                done = true;
            }
            i = i + 1;
        }
        proof {
            let n = lin_step_count(start, target@, stop_coordinates@);
            if done {
                lemma_lin_scan_shift(start, target@, stop_coordinates@, i as int - 1);
                assert(n == i - 1);
            } else {
                lemma_lin_scan_shift(start, target@, stop_coordinates@, 5);
                assert(n == 5);
            }
        }
        let outcome = if done {
            MoveOutcome::Arrived
        } else {
            MoveOutcome::Exhausted
        };
        (emitted, outcome)
    }

    /// Moves the position along a circular path around `center`, advancing by
    /// the fixed 5-degree angle per step (negative angles when clockwise),
    /// for as many steps as a full circumference needs, returning the points
    /// in order.
    ///
    /// After each generated point the position is tested against the stop
    /// coordinates that match the direction of rotation; generation ends
    /// early, reporting arrival, the first time it comes within 0.001 units
    /// of them.
    pub fn circular_move(
        &mut self,
        center: &Position,
        radius: i64,
        direction: Direction,
        stop_coordinates_cw: &Position,
        stop_coordinates_ccw: &Position,
    ) -> (r: (Vec<Position>, MoveOutcome))
        requires
            0 <= radius <= RADIUS_LIMIT,
            within(center@, POSITION_LIMIT as int - radius as int),
            within(old(self)@, POSITION_LIMIT as int),
            within(stop_coordinates_cw@, POSITION_LIMIT as int),
            within(stop_coordinates_ccw@, POSITION_LIMIT as int),
        ensures
            ({
                let stop = if direction == Direction::Cw {
                    stop_coordinates_cw@
                } else {
                    stop_coordinates_ccw@
                };
                let n = circle_step_count(radius as int);
                let f = circ_first_stop(center@, radius as int, direction, stop, n);
                let m = if f < n {
                    f + 1
                } else {
                    n
                };
                &&& r.0@.len() == m
                &&& forall|j: int|
                    0 <= j < m ==> (#[trigger] r.0@[j])@ == circle_point(
                        center@,
                        radius as int,
                        direction,
                        j,
                    )
                &&& final(self)@ == if m == 0 {
                    old(self)@
                } else {
                    circle_point(center@, radius as int, direction, m - 1)
                }
                &&& within(final(self)@, POSITION_LIMIT as int)
                &&& (r.1 == MoveOutcome::Arrived <==> f < n)
                &&& (r.1 == MoveOutcome::Arrived ==> arrives(final(self)@, stop))
            }),
    {
        let ghost start = self@;
        let ghost stop_ghost = if direction == Direction::Cw {
            stop_coordinates_cw@
        } else {
            stop_coordinates_ccw@
        };
        let stop = if direction == Direction::Cw {
            stop_coordinates_cw
        } else {
            stop_coordinates_ccw
        };
        let total: u64 = ((72 * radius + 999_999) / 1_000_000) as u64;
        proof {
            assert(total as int == circle_step_count(radius as int));
            vstd::arithmetic::div_mod::lemma_div_pos_is_pos(
                72 * radius as int + 999_999,
                1_000_000,
            );
        }
        let ghost n = circle_step_count(radius as int);
        let mut emitted: Vec<Position> = Vec::new();
        let mut done: bool = false;
        let mut i: u64 = 0;
        while i < total && !done
            invariant
                0 <= i <= total,
                n == total as int,
                0 <= radius <= RADIUS_LIMIT,
                within(center@, POSITION_LIMIT as int - radius as int),
                within(start, POSITION_LIMIT as int),
                within(stop@, POSITION_LIMIT as int),
                stop_ghost == stop@,
                self@ == if i == 0 {
                    start
                } else {
                    circle_point(center@, radius as int, direction, i - 1)
                },
                within(self@, POSITION_LIMIT as int),
                emitted@.len() == i,
                forall|j: int|
                    0 <= j < i ==> (#[trigger] emitted@[j])@ == circle_point(
                        center@,
                        radius as int,
                        direction,
                        j,
                    ),
                forall|j: int|
                    0 <= j < i ==> (arrives(
                        #[trigger] circle_point(center@, radius as int, direction, j),
                        stop_ghost,
                    ) <==> (done && j == i - 1)),
                done ==> i >= 1,
            decreases total - i,
        {
            let k: u64 = if direction == Direction::Ccw {
                i % 72
            } else {
                (72 - (i % 72)) % 72
            };
            proof {
                lemma_mod_bound(i as int, 72);
                assert(k as int == angle_index(direction, i as int));
                lemma_step_bounds(k as int);
            }
            let c = cos_lookup(k);
            let s = sin_lookup(k);
            let ox = scale_mul(radius, c);
            let oy = scale_mul(radius, s);
            self.x = center.x + ox;
            self.y = center.y + oy;
            self.z = center.z;
            assert(self@ == circle_point(center@, radius as int, direction, i as int));
            emitted.push(*self);
            let d2 = distance_sq(self, stop);
            if d2 < ARRIVE_DIST_SQ {
                done = true;
            }
            i = i + 1;
        }
        proof {
            let f = circ_first_stop(center@, radius as int, direction, stop_ghost, n);
            if done {
                lemma_circ_scan_shift(center@, radius as int, direction, stop_ghost, n, i as int - 1);
                assert(f == i - 1);
            } else {
                lemma_circ_scan_shift(center@, radius as int, direction, stop_ghost, n, i as int);
                assert(f == n);
            }
        }
        let outcome = if done {
            MoveOutcome::Arrived
        } else {
            MoveOutcome::Exhausted
        };
        (emitted, outcome)
    }
}

} // verus!
