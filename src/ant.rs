use crate::fixed::{
    abs, lemma_abs_sq, lemma_sq_mono, lemma_between, lemma_ceil_sqrt_exists, lemma_component_le, lemma_mul_bound,
    lemma_norm_nonneg, lemma_quot_le, lemma_truncated_len, div_toward_zero, minus, norm_sq,
    plus, scale_to, scaled_to, tdiv, truncate, truncated, Vector, COMPONENT_LIMIT, SCALE,
};
use crate::random::draw_between;
use vstd::prelude::*;

verus! {

/// Steering-force cap per tick (0.02 px).
pub const MAX_FORCE: i64 = 20_000;

/// Divisor of the steering force (2.0).
pub const MASS: i64 = 2_000_000;

/// Sprite width and height (15 px).
pub const SPRITE_SIZE: i64 = 15_000_000;

/// Inner margin of the arena bounds (10 px).
pub const EDGE_THRESHOLD: i64 = 10_000_000;

/// Largest arena dimension accepted (about 17.6 million px).
pub const DIM_LIMIT: i64 = 0x1000_0000_0000;

/// Largest magnitude of a bounds value.
pub const BOUND_LIMIT: i64 = 0x2000_0000_0000;

/// Largest magnitude of a position component from which an agent can still be stepped.
pub const POS_LIMIT: i64 = 0x4_0000_0000_0000;

/// Largest magnitude of a velocity component from which an agent can still be stepped.
pub const VEL_LIMIT: i64 = 0x100_0000_0000;

/// Largest steering-force cap accepted (about 4295 px).
pub const FORCE_LIMIT: i64 = 0x1_0000_0000;

/// The play rectangle, shrunk by `edge_threshold` on each side.
#[derive(Clone, Copy, Debug, PartialEq, Eq, Structural)]
pub struct Bounds {
    pub left: i64,
    pub right: i64,
    pub bottom: i64,
    pub top: i64,
    pub edge_threshold: i64,
}

impl Bounds {
    pub open spec fn wf(&self) -> bool {
        abs(self.left as int) <= BOUND_LIMIT && abs(self.right as int) <= BOUND_LIMIT && abs(
            self.bottom as int,
        ) <= BOUND_LIMIT && abs(self.top as int) <= BOUND_LIMIT && abs(
            self.edge_threshold as int,
        ) <= DIM_LIMIT
    }

    /// Bounds of the rectangle `[left, right] x [bottom, top]` shrunk by `edge_threshold`.
    pub fn new(left: i64, right: i64, bottom: i64, top: i64, edge_threshold: i64) -> (r: Bounds)
        requires
            abs(left as int) <= DIM_LIMIT,
            abs(right as int) <= DIM_LIMIT,
            abs(bottom as int) <= DIM_LIMIT,
            abs(top as int) <= DIM_LIMIT,
            abs(edge_threshold as int) <= DIM_LIMIT,
        ensures
            r.left == left + edge_threshold,
            r.right == right - edge_threshold,
            r.bottom == bottom + edge_threshold,
            r.top == top - edge_threshold,
            r.edge_threshold == edge_threshold,
            r.wf(),
    {
        Bounds {
            left: left + edge_threshold,
            right: right - edge_threshold,
            bottom: bottom + edge_threshold,
            top: top - edge_threshold,
            edge_threshold,
        }
    }

    /// Bounds of an arena of size `dims` centred on the origin.
    pub fn from_dims(dims: Vector, edge_threshold: i64) -> (r: Bounds)
        requires
            0 <= dims.x <= DIM_LIMIT,
            0 <= dims.y <= DIM_LIMIT,
            abs(edge_threshold as int) <= DIM_LIMIT,
        ensures
            r == arena_bounds(dims@, edge_threshold as int),
            r.wf(),
    {
        Bounds::new(-(dims.x / 2), dims.x / 2, -(dims.y / 2), dims.y / 2, edge_threshold)
    }
}

/// Bounds of an arena of size `dims` centred on the origin.
pub open spec fn arena_bounds(dims: (int, int), edge_threshold: int) -> Bounds {
    Bounds {
        left: (-(dims.0 / 2) + edge_threshold) as i64,
        right: (dims.0 / 2 - edge_threshold) as i64,
        bottom: (-(dims.1 / 2) + edge_threshold) as i64,
        top: (dims.1 / 2 - edge_threshold) as i64,
        edge_threshold: edge_threshold as i64,
    }
}

/// A target coordinate outside the bounds is replaced by zero, independently per axis.
pub open spec fn validated(t: (int, int), b: Bounds) -> (int, int) {
    (
        if t.0 < b.left || t.0 > b.right {
            0
        } else {
            t.0
        },
        if t.1 < b.bottom || t.1 > b.top {
            0
        } else {
            t.1
        },
    )
}

/// Desired velocity for an offset `d` to the target: one pixel per tick toward it, slowed
/// linearly inside the slowing radius.
pub open spec fn desired_toward(d: (int, int), slowing_radius: int) -> (int, int) {
    if norm_sq(d) < slowing_radius * slowing_radius {
        (tdiv(d.0 * SCALE, slowing_radius), tdiv(d.1 * SCALE, slowing_radius))
    } else {
        scaled_to(d, SCALE as int)
    }
}

/// Steering: the difference of the two velocities, truncated to `max_force`, divided by `mass`.
pub open spec fn steering(desired: (int, int), vel: (int, int), max_force: int, mass: int) -> (
    int,
    int,
) {
    let t = truncated(minus(desired, vel), max_force);
    (tdiv(t.0 * SCALE, mass), tdiv(t.1 * SCALE, mass))
}

/// Millidegrees in a full turn.
pub const FULL_TURN: i64 = 360_000;

/// Largest change of the wander angle per tick away from the edges (pi/16, in millidegrees).
pub const ANGLE_CHANGE: i64 = 11_250;

/// Initial wander angle (one radian, in millidegrees).
pub const INITIAL_WANDER_ANGLE: i64 = 57_296;

/// Distance from the ant to the centre of the wander circle (30 px).
pub const WANDER_DISTANCE: i64 = 30_000_000;

/// Radius of the wander circle (15 px).
pub const WANDER_RADIUS: i64 = 15_000_000;

/// Where an ant stands relative to the nudge zones along the edges.
#[derive(Clone, Copy, Debug, PartialEq, Eq, Structural)]
pub enum Nudge {
    Left,
    Right,
    Bottom,
    Top,
    Interior,
}

/// The nudge zone of `pos`: within twice the edge threshold of an edge, tested left, right,
/// bottom, top in that order.
pub open spec fn zone_of(pos: (int, int), b: Bounds) -> Nudge {
    let t2 = 2 * b.edge_threshold;
    if pos.0 <= b.left + t2 {
        Nudge::Left
    } else if pos.0 >= b.right - t2 {
        Nudge::Right
    } else if pos.1 <= b.bottom + t2 {
        Nudge::Bottom
    } else if pos.1 >= b.top - t2 {
        Nudge::Top
    } else {
        Nudge::Interior
    }
}

/// The inclusive range of the random draw in a zone: whole degrees at the edges,
/// millidegrees strictly between `-angle_change` and `angle_change` inside.
pub open spec fn draw_range_of(z: Nudge, angle_change: int) -> (int, int) {
    match z {
        Nudge::Left => (90, 270),
        Nudge::Right => (-270, -90),
        Nudge::Bottom => (0, 180),
        Nudge::Top => (-180, 0),
        Nudge::Interior => (-angle_change + 1, angle_change - 1),
    }
}

/// The change of the wander angle, in millidegrees, for a draw in zone `z`.
pub open spec fn delta_of(z: Nudge, draw: int) -> int {
    match z {
        Nudge::Interior => draw,
        _ => draw * 1000,
    }
}

/// The inclusive range of the random draw in zone `zone`.
pub fn draw_range(zone: Nudge, angle_change: i64) -> (r: (i64, i64))
    requires
        1 <= angle_change <= FULL_TURN,
    ensures
        r.0 as int == draw_range_of(zone, angle_change as int).0,
        r.1 as int == draw_range_of(zone, angle_change as int).1,
        r.0 <= r.1,
{
    match zone {
        Nudge::Left => (90, 270),
        Nudge::Right => (-270, -90),
        Nudge::Bottom => (0, 180),
        Nudge::Top => (-180, 0),
        Nudge::Interior => (-angle_change + 1, angle_change - 1),
    }
}

/// The change of the wander angle for a draw in zone `zone`.
pub fn angle_delta(zone: Nudge, draw: i64) -> (r: i64)
    requires
        -FULL_TURN <= draw <= FULL_TURN,
    ensures
        r as int == delta_of(zone, draw as int),
{
    match zone {
        Nudge::Interior => draw,
        _ => draw * 1000,
    }
}

/// `a` with its wander angle turned by `delta`, kept in `[0, FULL_TURN)`.
pub open spec fn turned(a: Ant, delta: int) -> Ant {
    Ant { wander_angle: ((a.wander_angle + delta) % (FULL_TURN as int)) as i64, ..a }
}

/// `next` is `a` with its wander angle turned by the delta of some draw in the range of the
/// nudge zone it stands in, for an arena of size `dims`.
pub open spec fn turn_step(a: Ant, next: Ant, dims: (int, int)) -> bool {
    let z = zone_of(a.pos@, arena_bounds(dims, EDGE_THRESHOLD as int));
    exists|d: int|
        draw_range_of(z, ANGLE_CHANGE as int).0 <= d <= draw_range_of(z, ANGLE_CHANGE as int).1
            && next == turned(a, delta_of(z, d))
}

/// The point that wandering aims at: the wander circle ahead of the ant, and on it the
/// point in direction `heading` (a unit vector in fixed point).
pub open spec fn wander_target(a: Ant, heading: (int, int)) -> (int, int) {
    plus(
        plus(a.pos@, scaled_to(a.current_vel@, WANDER_DISTANCE as int)),
        (tdiv(heading.0 * WANDER_RADIUS, SCALE as int), tdiv(heading.1 * WANDER_RADIUS, SCALE as int)),
    )
}

/// `next` is `a` advanced one tick toward `target` by `seek`.
pub open spec fn seek_step(a: Ant, next: Ant, target: (int, int), slowing_radius: int, b: Bounds) -> bool {
    &&& next.desired_vel@ == desired_toward(minus(validated(target, b), a.pos@), slowing_radius)
    &&& next.current_vel@ == plus(
        a.current_vel@,
        steering(next.desired_vel@, a.current_vel@, a.max_force as int, a.mass as int),
    )
    &&& next.pos@ == plus(a.pos@, next.current_vel@)
    &&& next.size == a.size
    &&& next.max_force == a.max_force
    &&& next.mass == a.mass
    &&& next.wander_angle == a.wander_angle
}

/// One simulated ant: kinematic state in fixed-point units, heading in millidegrees.
#[derive(Clone, Copy, Debug, PartialEq, Eq, Structural)]
pub struct Ant {
    pub size: Vector,
    pub pos: Vector,
    pub current_vel: Vector,
    pub desired_vel: Vector,
    pub max_force: i64,
    pub mass: i64,
    pub wander_angle: i64,
}

impl Ant {
    pub open spec fn wf(&self) -> bool {
        &&& 0 < self.mass
        &&& 0 <= self.max_force <= FORCE_LIMIT
        &&& 0 <= self.wander_angle < FULL_TURN
    }

    /// The position and the velocity are far enough from the integer limits for one more
    /// step.
    pub open spec fn in_range(&self) -> bool {
        &&& abs(self.pos.x as int) <= POS_LIMIT
        &&& abs(self.pos.y as int) <= POS_LIMIT
        &&& abs(self.current_vel.x as int) <= VEL_LIMIT
        &&& abs(self.current_vel.y as int) <= VEL_LIMIT
    }

    /// `self` is a fresh ant: at the origin, at rest but for a velocity in `[-1, 1]` px per
    /// tick on each axis, with the default size, force cap, mass and wander angle.
    pub open spec fn is_fresh(&self) -> bool {
        &&& self.pos@ == (0int, 0int)
        &&& -SCALE <= self.current_vel.x <= SCALE
        &&& -SCALE <= self.current_vel.y <= SCALE
        &&& self.desired_vel@ == (0int, 0int)
        &&& self.size@ == (SPRITE_SIZE as int, SPRITE_SIZE as int)
        &&& self.max_force == MAX_FORCE
        &&& self.mass == MASS
        &&& self.wander_angle == INITIAL_WANDER_ANGLE
    }

    /// A fresh ant at the origin, with a random velocity in `[-1, 1]` px per tick on each axis.
    pub fn new(rng: &mut rand::rngs::StdRng) -> (r: Ant)
        ensures
            r.wf(),
            r.is_fresh(),
    {
        let vx = draw_between(rng, -SCALE, SCALE);
        let vy = draw_between(rng, -SCALE, SCALE);
        Ant {
            size: Vector { x: SPRITE_SIZE, y: SPRITE_SIZE },
            pos: Vector { x: 0, y: 0 },
            current_vel: Vector { x: vx, y: vy },
            desired_vel: Vector { x: 0, y: 0 },
            max_force: MAX_FORCE,
            mass: MASS,
            wander_angle: INITIAL_WANDER_ANGLE,
        }
    }

    /// An ant with the default size, force cap and mass, in the given state.
    pub fn with_state(pos: Vector, current_vel: Vector, wander_angle: i64) -> (r: Ant)
        requires
            0 <= wander_angle < FULL_TURN,
        ensures
            r.wf(),
            r.pos == pos,
            r.current_vel == current_vel,
            r.desired_vel@ == (0int, 0int),
            r.size@ == (SPRITE_SIZE as int, SPRITE_SIZE as int),
            r.max_force == MAX_FORCE,
            r.mass == MASS,
            r.wander_angle == wander_angle,
    {
        Ant {
            size: Vector { x: SPRITE_SIZE, y: SPRITE_SIZE },
            pos,
            current_vel,
            desired_vel: Vector { x: 0, y: 0 },
            max_force: MAX_FORCE,
            mass: MASS,
            wander_angle,
        }
    }

    /// The nudge zone the ant stands in.
    pub fn nudge_zone(&self, bounds: &Bounds) -> (r: Nudge)
        requires
            bounds.wf(),
        ensures
            r == zone_of(self.pos@, *bounds),
    {
        let t2 = bounds.edge_threshold * 2;
        if self.pos.x <= bounds.left + t2 {
            Nudge::Left
        } else if self.pos.x >= bounds.right - t2 {
            Nudge::Right
        } else if self.pos.y <= bounds.bottom + t2 {
            Nudge::Bottom
        } else if self.pos.y >= bounds.top - t2 {
            Nudge::Top
        } else {
            Nudge::Interior
        }
    }

    /// A random change of the wander angle; near an edge it turns the heading toward the
    /// interior.
    pub fn generate_wander_angle(&self, angle_change: i64, bounds: &Bounds, rng: &mut rand::rngs::StdRng) -> (r: i64)
        requires
            1 <= angle_change <= FULL_TURN,
            bounds.wf(),
        ensures
            exists|d: int|
                draw_range_of(zone_of(self.pos@, *bounds), angle_change as int).0 <= d
                    <= draw_range_of(zone_of(self.pos@, *bounds), angle_change as int).1
                    && r == delta_of(zone_of(self.pos@, *bounds), d),
            zone_of(self.pos@, *bounds) == Nudge::Left ==> 90_000 <= r <= 270_000,
            zone_of(self.pos@, *bounds) == Nudge::Right ==> -270_000 <= r <= -90_000,
            zone_of(self.pos@, *bounds) == Nudge::Bottom ==> 0 <= r <= 180_000,
            zone_of(self.pos@, *bounds) == Nudge::Top ==> -180_000 <= r <= 0,
            zone_of(self.pos@, *bounds) == Nudge::Interior ==> -angle_change < r < angle_change,
    {
        let zone = self.nudge_zone(bounds);
        let (lo, hi) = draw_range(zone, angle_change);
        let draw = draw_between(rng, lo, hi);
        angle_delta(zone, draw)
    }

    /// Turns the wander angle by `delta` millidegrees, modulo a full turn.
    pub fn turn_by(&mut self, delta: i64)
        requires
            old(self).wf(),
            -FULL_TURN <= delta <= FULL_TURN,
        ensures
            *final(self) == turned(*old(self), delta as int),
            final(self).wf(),
    {
        let a = self.wander_angle + delta;
        if a < 0 {
            self.wander_angle = a + FULL_TURN;
        } else if a >= FULL_TURN {
            self.wander_angle = a - FULL_TURN;
        } else {
            self.wander_angle = a;
        }
    }

    /// Random-walks the wander angle for an arena of size `dims`, nudged inward near its
    /// edges.
    pub fn turn(&mut self, dims: Vector, rng: &mut rand::rngs::StdRng)
        requires
            old(self).wf(),
            0 <= dims.x <= DIM_LIMIT,
            0 <= dims.y <= DIM_LIMIT,
        ensures
            turn_step(*old(self), *final(self), dims@),
            final(self).wf(),
    {
        let bounds = Bounds::from_dims(dims, EDGE_THRESHOLD);
        let delta = self.generate_wander_angle(ANGLE_CHANGE, &bounds, rng);
        self.turn_by(delta);
    }

    /// Steers one tick along the wander circle: `heading` is the unit vector, in fixed
    /// point, at the current wander angle.
    pub fn wander(&mut self, dims: Vector, heading: Vector)
        requires
            old(self).wf(),
            old(self).in_range(),
            0 <= dims.x <= DIM_LIMIT,
            0 <= dims.y <= DIM_LIMIT,
            -SCALE <= heading.x <= SCALE,
            -SCALE <= heading.y <= SCALE,
        ensures
            seek_step(
                *old(self),
                *final(self),
                wander_target(*old(self), heading@),
                0,
                arena_bounds(dims@, EDGE_THRESHOLD as int),
            ),
            final(self).wf(),
    {
        let bounds = Bounds::from_dims(dims, EDGE_THRESHOLD);
        let circle_center = scale_to(self.current_vel, WANDER_DISTANCE);
        proof {
            lemma_mul_bound(heading.x as int, WANDER_RADIUS as int);
            lemma_mul_bound(heading.y as int, WANDER_RADIUS as int);
            lemma_quot_le(heading.x as int, WANDER_RADIUS as int, SCALE as int);
            lemma_quot_le(heading.y as int, WANDER_RADIUS as int, SCALE as int);
        }
        let disp_x = div_toward_zero((heading.x as i128) * (WANDER_RADIUS as i128), SCALE as i128);
        let disp_y = div_toward_zero((heading.y as i128) * (WANDER_RADIUS as i128), SCALE as i128);
        let target = Vector {
            x: self.pos.x + circle_center.x + disp_x as i64,
            y: self.pos.y + circle_center.y + disp_y as i64,
        };
        self.seek(target, 0, &bounds);
    }

    /// Replaces each coordinate of `target` that lies outside `bounds` by zero.
    pub fn validate_target(&self, target: Vector, bounds: &Bounds) -> (r: Vector)
        ensures
            r@ == validated(target@, *bounds),
    {
        let mut new_target = target;
        if target.x < bounds.left || target.x > bounds.right {
            new_target.x = 0;
        }
        if target.y < bounds.bottom || target.y > bounds.top {
            new_target.y = 0;
        }
        new_target
    }

    /// Advances the ant one tick toward `target`.
    pub fn seek(&mut self, target: Vector, slowing_radius: i64, bounds: &Bounds)
        requires
            old(self).wf(),
            old(self).in_range(),
            bounds.wf(),
            0 <= slowing_radius <= COMPONENT_LIMIT,
        ensures
            seek_step(*old(self), *final(self), target@, slowing_radius as int, *bounds),
            final(self).wf(),
    {
        let new_target = self.validate_target(target, bounds);
        let d = Vector { x: new_target.x - self.pos.x, y: new_target.y - self.pos.y };
        let dx = d.x as i128;
        let dy = d.y as i128;
        let sr = slowing_radius as i128;
        proof {
            lemma_abs_sq(dx as int);
            lemma_abs_sq(dy as int);
            lemma_sq_mono(abs(dx as int), COMPONENT_LIMIT as int);
            lemma_sq_mono(abs(dy as int), COMPONENT_LIMIT as int);
            lemma_sq_mono(sr as int, COMPONENT_LIMIT as int);
            lemma_norm_nonneg(d@);
        }
        let dist_sq = dx * dx + dy * dy;
        if dist_sq < sr * sr {
            proof {
                assert(sr > 0) by (nonlinear_arith)
                    requires
                        dist_sq < sr * sr,
                        dist_sq >= 0,
                        sr >= 0,
                ;
                lemma_component_le(d@, sr as int);
                lemma_quot_le(dx as int, SCALE as int, sr as int);
                lemma_quot_le(dy as int, SCALE as int, sr as int);
                lemma_mul_bound(dx as int, SCALE as int);
                lemma_mul_bound(dy as int, SCALE as int);
            }
            let qx = div_toward_zero(dx * (SCALE as i128), sr);
            let qy = div_toward_zero(dy * (SCALE as i128), sr);
            self.desired_vel = Vector { x: qx as i64, y: qy as i64 };
        } else {
            self.desired_vel = scale_to(d, SCALE);
        }
        let ghost desired = self.desired_vel@;
        let ghost vel = self.current_vel@;
        let mut steer = Vector {
            x: self.desired_vel.x - self.current_vel.x,
            y: self.desired_vel.y - self.current_vel.y,
        };
        truncate(&mut steer, self.max_force);
        let ghost t = steer@;
        proof {
            lemma_component_le(steer@, self.max_force as int);
            lemma_force_product(steer.x as int, self.max_force as int);
            lemma_force_product(steer.y as int, self.max_force as int);
        }
        let sx = div_toward_zero((steer.x as i128) * (SCALE as i128), self.mass as i128);
        let sy = div_toward_zero((steer.y as i128) * (SCALE as i128), self.mass as i128);
        self.current_vel = Vector {
            x: self.current_vel.x + sx as i64,
            y: self.current_vel.y + sy as i64,
        };
        self.pos = Vector { x: self.pos.x + self.current_vel.x, y: self.pos.y + self.current_vel.y };
    }
}

/// A truncated steering component times `SCALE` stays within `FORCE_LIMIT * SCALE`.
proof fn lemma_force_product(a: int, f: int)
    requires
        abs(a) <= f <= FORCE_LIMIT,
    ensures
        abs(a * SCALE) <= f * SCALE,
        f * SCALE <= FORCE_LIMIT * SCALE,
{
    assert(abs(a * SCALE) == abs(a) * SCALE) by (nonlinear_arith);
    assert(abs(a) * SCALE <= f * SCALE) by (nonlinear_arith)
        requires
            abs(a) <= f,
    ;
    assert(f * SCALE <= FORCE_LIMIT * SCALE) by (nonlinear_arith)
        requires
            f <= FORCE_LIMIT,
    ;
}

/// The steering of an offset `r` lies, per component, between zero and `r`.
pub proof fn lemma_steer_between(r: (int, int), max_force: int, mass: int)
    requires
        0 <= max_force,
        SCALE <= mass,
    ensures
        ({
            let t = truncated(r, max_force);
            let s = (tdiv(t.0 * SCALE, mass), tdiv(t.1 * SCALE, mass));
            &&& (r.0 >= 0 ==> 0 <= t.0 <= r.0 && 0 <= s.0 <= r.0)
            &&& (r.0 < 0 ==> r.0 <= t.0 <= 0 && r.0 <= s.0 <= 0)
            &&& (r.1 >= 0 ==> 0 <= t.1 <= r.1 && 0 <= s.1 <= r.1)
            &&& (r.1 < 0 ==> r.1 <= t.1 <= 0 && r.1 <= s.1 <= 0)
        }),
{
    let t = truncated(r, max_force);
    let n = norm_sq(r);
    if n > max_force * max_force {
        lemma_norm_nonneg(r);
        lemma_ceil_sqrt_exists(n);
        let len = crate::fixed::ceil_sqrt(n);
        assert(max_force < len) by (nonlinear_arith)
            requires
                n <= len * len,
                n > max_force * max_force,
                0 <= max_force,
                0 <= len,
        ;
        lemma_between(r.0, max_force, len);
        lemma_between(r.1, max_force, len);
    }
    lemma_between(t.0, SCALE as int, mass);
    lemma_between(t.1, SCALE as int, mass);
}

/// Each component of a desired velocity is at most one pixel per tick.
pub proof fn lemma_desired_bound(d: (int, int), slowing_radius: int)
    requires
        slowing_radius >= 0,
    ensures
        abs(desired_toward(d, slowing_radius).0) <= SCALE,
        abs(desired_toward(d, slowing_radius).1) <= SCALE,
{
    lemma_norm_nonneg(d);
    if norm_sq(d) < slowing_radius * slowing_radius {
        assert(slowing_radius > 0) by (nonlinear_arith)
            requires
                norm_sq(d) < slowing_radius * slowing_radius,
                norm_sq(d) >= 0,
                slowing_radius >= 0,
        ;
        lemma_component_le(d, slowing_radius);
        lemma_quot_le(d.0, SCALE as int, slowing_radius);
        lemma_quot_le(d.1, SCALE as int, slowing_radius);
    } else {
        crate::fixed::lemma_scaled_to_bound(d, SCALE as int);
    }
}

/// Steering bound: one step changes the velocity by at most `max_force / mass`, that is
/// `|dv|^2 * mass^2 <= max_force^2 * SCALE^2` in fixed point.
pub proof fn lemma_steering_bound(a: Ant, next: Ant, target: (int, int), slowing_radius: int, b: Bounds)
    requires
        a.wf(),
        seek_step(a, next, target, slowing_radius, b),
    ensures
        norm_sq(minus(next.current_vel@, a.current_vel@)) * (a.mass * a.mass) <= (a.max_force
            * a.max_force) * (SCALE * SCALE),
{
    let f = a.max_force as int;
    let m = a.mass as int;
    let t = truncated(minus(next.desired_vel@, a.current_vel@), f);
    lemma_truncated_len(minus(next.desired_vel@, a.current_vel@), f);
    let s = steering(next.desired_vel@, a.current_vel@, f, m);
    assert(minus(next.current_vel@, a.current_vel@) == s);
    crate::fixed::lemma_tdiv_scaled(t.0, SCALE as int, m);
    crate::fixed::lemma_tdiv_scaled(t.1, SCALE as int, m);
    crate::fixed::lemma_abs_sq(s.0);
    crate::fixed::lemma_abs_sq(s.1);
    crate::fixed::lemma_abs_sq(t.0);
    crate::fixed::lemma_abs_sq(t.1);
    let p = abs(s.0);
    let q = abs(s.1);
    let x = abs(t.0);
    let y = abs(t.1);
    lemma_sq_mono(p * m, x * SCALE);
    lemma_sq_mono(q * m, y * SCALE);
    assert((p * m) * (p * m) == (p * p) * (m * m)) by (nonlinear_arith);
    assert((q * m) * (q * m) == (q * q) * (m * m)) by (nonlinear_arith);
    assert((x * SCALE) * (x * SCALE) == (x * x) * (SCALE * SCALE)) by (nonlinear_arith);
    assert((y * SCALE) * (y * SCALE) == (y * y) * (SCALE * SCALE)) by (nonlinear_arith);
    assert((p * p + q * q) * (m * m) == (p * p) * (m * m) + (q * q) * (m * m)) by (nonlinear_arith);
    assert((x * x + y * y) * (SCALE * SCALE) == (x * x) * (SCALE * SCALE) + (y * y) * (SCALE
        * SCALE)) by (nonlinear_arith);
    assert((x * x + y * y) * (SCALE * SCALE) <= (f * f) * (SCALE * SCALE)) by (nonlinear_arith)
        requires
            x * x + y * y <= f * f,
    ;
}

/// Speed envelope: a step never takes a velocity component out of `[-1, 1]` px per tick
/// when it starts there.
pub proof fn lemma_speed_envelope(a: Ant, next: Ant, target: (int, int), slowing_radius: int, b: Bounds)
    requires
        a.wf(),
        slowing_radius >= 0,
        seek_step(a, next, target, slowing_radius, b),
        SCALE <= a.mass,
        -SCALE <= a.current_vel.x <= SCALE,
        -SCALE <= a.current_vel.y <= SCALE,
    ensures
        -SCALE <= next.current_vel.x <= SCALE,
        -SCALE <= next.current_vel.y <= SCALE,
{
    lemma_step_between(a, next, target, slowing_radius, b);
}

/// Per component, the new velocity lies between the old velocity and the desired one.
pub proof fn lemma_step_between(a: Ant, next: Ant, target: (int, int), slowing_radius: int, b: Bounds)
    requires
        a.wf(),
        SCALE <= a.mass,
        slowing_radius >= 0,
        seek_step(a, next, target, slowing_radius, b),
    ensures
        abs(next.desired_vel.x as int) <= SCALE,
        abs(next.desired_vel.y as int) <= SCALE,
        a.current_vel.x <= next.desired_vel.x ==> a.current_vel.x <= next.current_vel.x
            <= next.desired_vel.x,
        a.current_vel.x > next.desired_vel.x ==> next.desired_vel.x <= next.current_vel.x
            <= a.current_vel.x,
        a.current_vel.y <= next.desired_vel.y ==> a.current_vel.y <= next.current_vel.y
            <= next.desired_vel.y,
        a.current_vel.y > next.desired_vel.y ==> next.desired_vel.y <= next.current_vel.y
            <= a.current_vel.y,
{
    lemma_desired_bound(minus(validated(target, b), a.pos@), slowing_radius);
    lemma_steer_between(minus(next.desired_vel@, a.current_vel@), a.max_force as int, a.mass as int);
}

/// Target sanitization: each coordinate of a validated target is zero or lies within the
/// bounds.
pub proof fn lemma_validated_in_bounds(t: (int, int), b: Bounds)
    ensures
        validated(t, b).0 == 0 || b.left <= validated(t, b).0 <= b.right,
        validated(t, b).1 == 0 || b.bottom <= validated(t, b).1 <= b.top,
{
}

/// Determinism: from the same state, the same draw and the same heading, a tick (turning
/// the wander angle, then steering along it) reaches the same state.
pub proof fn lemma_tick_deterministic(
    a: Ant,
    n1: Ant,
    n2: Ant,
    dims: (int, int),
    draw: int,
    heading: (int, int),
)
    requires
        ({
            let b = arena_bounds(dims, EDGE_THRESHOLD as int);
            let t = turned(a, delta_of(zone_of(a.pos@, b), draw));
            seek_step(t, n1, wander_target(t, heading), 0, b) && seek_step(
                t,
                n2,
                wander_target(t, heading),
                0,
                b,
            )
        }),
    ensures
        n1 == n2,
{
    assert(n1.desired_vel == n2.desired_vel);
    assert(n1.current_vel == n2.current_vel);
    assert(n1.pos == n2.pos);
}

/// Speed envelope, one tick: from a speed of at most one pixel per tick, the new speed is
/// at most `1 + max_force / mass`, that is `|v'| * mass <= SCALE * mass + max_force * SCALE`.
pub proof fn lemma_speed_after_unit(a: Ant, next: Ant, target: (int, int), slowing_radius: int, b: Bounds)
    requires
        a.wf(),
        seek_step(a, next, target, slowing_radius, b),
        norm_sq(a.current_vel@) <= SCALE * SCALE,
    ensures
        norm_sq(next.current_vel@) * (a.mass * a.mass) <= (SCALE * a.mass + a.max_force * SCALE) * (
        SCALE * a.mass + a.max_force * SCALE),
{
    let m = a.mass as int;
    let f = a.max_force as int;
    let v = a.current_vel@;
    let d = minus(next.current_vel@, v);
    lemma_steering_bound(a, next, target, slowing_radius, b);
    let vm = (v.0 * m, v.1 * m);
    let dm = (d.0 * m, d.1 * m);
    assert(norm_sq(vm) == norm_sq(v) * (m * m)) by (nonlinear_arith)
        requires
            vm == (v.0 * m, v.1 * m),
    ;
    assert(norm_sq(dm) == norm_sq(d) * (m * m)) by (nonlinear_arith)
        requires
            dm == (d.0 * m, d.1 * m),
    ;
    assert(norm_sq(v) * (m * m) <= (SCALE * SCALE) * (m * m)) by (nonlinear_arith)
        requires
            norm_sq(v) <= SCALE * SCALE,
    ;
    assert((SCALE * SCALE) * (m * m) == (SCALE * m) * (SCALE * m)) by (nonlinear_arith);
    assert((f * f) * (SCALE * SCALE) == (f * SCALE) * (f * SCALE)) by (nonlinear_arith);
    assert(f * SCALE >= 0) by (nonlinear_arith)
        requires
            f >= 0,
    ;
    crate::fixed::lemma_triangle(vm, dm, SCALE * m, f * SCALE);
    assert(plus(vm, dm) == (next.current_vel@.0 * m, next.current_vel@.1 * m)) by (nonlinear_arith)
        requires
            vm == (v.0 * m, v.1 * m),
            dm == (d.0 * m, d.1 * m),
            d == minus(next.current_vel@, v),
    ;
    let w = next.current_vel@;
    assert(norm_sq((w.0 * m, w.1 * m)) == norm_sq(w) * (m * m)) by (nonlinear_arith);
}

} // verus!
