use vstd::prelude::*;
use crate::config::LENGTH_LIMIT;
use crate::geometry::{Position, Time, Vec2, sat, saturate, tdiv, trunc_div, valid_size};

verus! {

/// The time over which a displayed position catches up with the model's.
pub const INTERPOLATION_TIME: Time = 50;

/// The longest frame that an interpolation steps over at once, forwards or
/// backwards: about four minutes, so that the spline's products of times and
/// coordinates fit in `i128`.
pub const FRAME_LIMIT: Time = 0x4_0000;

/// The cubic Hermite spline from `p0` (moving at `v0`) to `p1` (moving at `v1`)
/// over `INTERPOLATION_TIME`, at the time `a` after its start: the position, in
/// thousandths of a unit, rounded towards zero. Velocities are in thousandths of a
/// unit per second, times in milliseconds.
pub open spec fn spline_position(p0: int, p1: int, v0: int, v1: int, a: int) -> int {
    let b = INTERPOLATION_TIME as int;
    tdiv(
        1000 * (p0 * (2 * a * a * a - 3 * a * a * b + b * b * b) + p1 * (3 * a * a * b - 2 * a * a * a))
            + b * (v0 * (a * a * a - 2 * a * a * b + a * b * b) + v1 * (a * a * a - a * a * b)),
        1000 * b * b * b,
    )
}

/// The velocity of the same spline at the same time (see `spline_position`).
pub open spec fn spline_velocity(p0: int, p1: int, v0: int, v1: int, a: int) -> int {
    let b = INTERPOLATION_TIME as int;
    tdiv(
        1000 * (p0 - p1) * (6 * a * a - 6 * a * b)
            + b * (v0 * (3 * a * a - 4 * a * b + b * b) + v1 * (3 * a * a - 2 * a * b)),
        b * b * b,
    )
}

/// What an update by `delta_time` towards `target_position`, moving at
/// `target_velocity`, makes of the interpolation `i0` (see `Interpolation::update`).
pub open spec fn interpolated(i0: Interpolation, i1: Interpolation, delta_time: Time, target_position: Position, target_velocity: Vec2, world_size: Vec2) -> bool {
    let p0 = i0.position_spec();
    let v0 = i0.velocity_spec();
    let t = sat(i0.time_spec() + delta_time);
    let a = t - i0.time_spec();
    let d = p0.direction_spec(target_position, world_size);
    let v1 = target_velocity;
    &&& i1.time_spec() == t
    &&& i1.position_spec() == Position::from_world_spec(
        Vec2 {
            x: sat(spline_position(p0.x as int, p0.x + d.x, v0.x as int, v1.x as int, a)) as i64,
            y: sat(spline_position(p0.y as int, p0.y + d.y, v0.y as int, v1.y as int, a)) as i64,
        },
        world_size,
    )
    &&& i1.velocity_spec() == (Vec2 {
        x: sat(spline_velocity(p0.x as int, p0.x + d.x, v0.x as int, v1.x as int, a)) as i64,
        y: sat(spline_velocity(p0.y as int, p0.y + d.y, v0.y as int, v1.y as int, a)) as i64,
    })
}

/// A position that is displayed between the model's updates: it follows the
/// model's positions along a spline.
#[derive(Clone, Copy, Debug, PartialEq, Eq, Structural)]
pub struct Interpolation {
    position: Position,
    velocity: Vec2,
    current_time: Time,
}

/// A coordinate that the spline can take as a starting point.
pub open spec fn coord_ok(c: int) -> bool {
    -LENGTH_LIMIT <= c <= LENGTH_LIMIT
}

proof fn lemma_mul_bound(x: int, y: int, bx: int, by: int)
    requires
        -bx <= x <= bx,
        -by <= y <= by,
    ensures
        -(bx * by) <= x * y <= bx * by,
{
    assert(-(bx * by) <= x * y <= bx * by) by (nonlinear_arith)
        requires -bx <= x <= bx, -by <= y <= by;
}

proof fn lemma_basis_bounds(a: int, b: int)
    requires
        -0x4_0000 <= a <= 0x4_0000,
        b == 50,
    ensures
        0 <= a * a <= 0x10_0000_0000,
        -0x40_0000_0000_0000 <= a * a * a <= 0x40_0000_0000_0000,
        -0x100_0000_0000_0000 <= 2 * a * a * a - 3 * a * a * b + b * b * b <= 0x100_0000_0000_0000,
        -0x100_0000_0000_0000 <= 3 * a * a * b - 2 * a * a * a <= 0x100_0000_0000_0000,
        -0x100_0000_0000_0000 <= a * a * a - 2 * a * a * b + a * b * b <= 0x100_0000_0000_0000,
        -0x100_0000_0000_0000 <= a * a * a - a * a * b <= 0x100_0000_0000_0000,
        -0x100_0000_0000 <= 6 * a * a - 6 * a * b <= 0x100_0000_0000,
        -0x100_0000_0000 <= 3 * a * a - 4 * a * b + b * b <= 0x100_0000_0000,
        -0x100_0000_0000 <= 3 * a * a - 2 * a * b <= 0x100_0000_0000,
{
    let a2 = a * a;
    let a3 = a2 * a;
    assert(0 <= a2 <= 0x10_0000_0000) by (nonlinear_arith)
        requires -0x4_0000 <= a <= 0x4_0000, a2 == a * a;
    assert(-0x40_0000_0000_0000 <= a3 <= 0x40_0000_0000_0000) by (nonlinear_arith)
        requires -0x4_0000 <= a <= 0x4_0000, 0 <= a2 <= 0x10_0000_0000, a3 == a2 * a;
    assert(2 * a * a * a == 2 * a3 && 3 * a * a * b == 150 * a2 && 2 * a * a * b == 100 * a2
        && a * a * b == 50 * a2 && a * b * b == 2500 * a && b * b * b == 125000 && 6 * a * a == 6 * a2
        && 3 * a * a == 3 * a2 && 6 * a * b == 300 * a && 4 * a * b == 200 * a && 2 * a * b == 100 * a)
        by (nonlinear_arith)
        requires a2 == a * a, a3 == a2 * a, b == 50;
}

/// One axis of the spline: its position, saturated, and its velocity, saturated.
fn spline_axis(p0: i64, p1: i128, v0: i64, v1: i64, a: i128) -> (r: (i64, i64))
    requires
        coord_ok(p0 as int),
        -3 * LENGTH_LIMIT <= p1 <= 3 * LENGTH_LIMIT,
        -FRAME_LIMIT <= a <= FRAME_LIMIT,
    ensures
        r.0 == sat(spline_position(p0 as int, p1 as int, v0 as int, v1 as int, a as int)),
        r.1 == sat(spline_velocity(p0 as int, p1 as int, v0 as int, v1 as int, a as int)),
{
    let b: i128 = INTERPOLATION_TIME as i128;
    proof {
        lemma_basis_bounds(a as int, b as int);
    }
    let a2: i128 = a * a;
    let a3: i128 = a2 * a;
    let h00: i128 = 2 * a3 - 3 * a2 * b + b * b * b;
    let h01: i128 = 3 * a2 * b - 2 * a3;
    let h10: i128 = a3 - 2 * a2 * b + a * b * b;
    let h11: i128 = a3 - a2 * b;
    let g00: i128 = 6 * a2 - 6 * a * b;
    let g10: i128 = 3 * a2 - 4 * a * b + b * b;
    let g11: i128 = 3 * a2 - 2 * a * b;
    let q0: i128 = p0 as i128;
    let w0: i128 = v0 as i128;
    let w1: i128 = v1 as i128;
    proof {
        lemma_mul_bound(q0 as int, h00 as int, 0x400_0000_0000, 0x100_0000_0000_0000);
        lemma_mul_bound(p1 as int, h01 as int, 0x400_0000_0000, 0x100_0000_0000_0000);
        lemma_mul_bound(w0 as int, h10 as int, 0x8000_0000_0000_0000, 0x100_0000_0000_0000);
        lemma_mul_bound(w1 as int, h11 as int, 0x8000_0000_0000_0000, 0x100_0000_0000_0000);
        lemma_mul_bound(q0 - p1, g00 as int, 0x1000_0000_0000, 0x100_0000_0000);
        lemma_mul_bound(w0 as int, g10 as int, 0x8000_0000_0000_0000, 0x100_0000_0000);
        lemma_mul_bound(w1 as int, g11 as int, 0x8000_0000_0000_0000, 0x100_0000_0000);
    }
    let places: i128 = q0 * h00 + p1 * h01;
    let speeds: i128 = w0 * h10 + w1 * h11;
    let bends: i128 = (q0 - p1) * g00;
    let turns: i128 = w0 * g10 + w1 * g11;
    proof {
        lemma_mul_bound(places as int, 1000, 0x8_0000_0000_0000_0000_0000_0000, 1000);
        lemma_mul_bound(speeds as int, b as int, 0x100_0000_0000_0000_0000_0000_0000_0000, 50);
        lemma_mul_bound(bends as int, 1000, 0x10_0000_0000_0000_0000_0000, 1000);
        lemma_mul_bound(turns as int, b as int, 0x100_0000_0000_0000_0000_0000_0000, 50);
    }
    let pos: i128 = trunc_div(1000 * places + b * speeds, 1000 * b * b * b);
    let vel: i128 = trunc_div(1000 * bends + b * turns, b * b * b);
    proof {
        assert(1000 * places + b * speeds == 1000 * (p0 * (2 * a * a * a - 3 * a * a * b + b * b * b) + p1 * (3 * a
            * a * b - 2 * a * a * a)) + b * (v0 * (a * a * a - 2 * a * a * b + a * b * b) + v1 * (a * a * a - a * a
            * b))) by (nonlinear_arith)
            requires
                places == q0 * h00 + p1 * h01,
                speeds == w0 * h10 + w1 * h11,
                q0 == p0, w0 == v0, w1 == v1,
                h00 == 2 * a3 - 3 * a2 * b + b * b * b,
                h01 == 3 * a2 * b - 2 * a3,
                h10 == a3 - 2 * a2 * b + a * b * b,
                h11 == a3 - a2 * b,
                a2 == a * a, a3 == a2 * a;
        assert(1000 * bends + b * turns == 1000 * (p0 - p1) * (6 * a * a - 6 * a * b) + b * (v0 * (3 * a * a - 4 * a
            * b + b * b) + v1 * (3 * a * a - 2 * a * b))) by (nonlinear_arith)
            requires
                bends == (q0 - p1) * g00,
                turns == w0 * g10 + w1 * g11,
                q0 == p0, w0 == v0, w1 == v1,
                g00 == 6 * a2 - 6 * a * b,
                g10 == 3 * a2 - 4 * a * b + b * b,
                g11 == 3 * a2 - 2 * a * b,
                a2 == a * a;
    }
    (saturate(pos), saturate(vel))
}

impl Interpolation {
    pub closed spec fn position_spec(self) -> Position {
        self.position
    }

    pub closed spec fn velocity_spec(self) -> Vec2 {
        self.velocity
    }

    pub closed spec fn time_spec(self) -> Time {
        self.current_time
    }

    /// A new interpolation at `position`, moving at `velocity` (see `new`).
    pub closed spec fn fresh(position: Position, velocity: Vec2) -> Interpolation {
        Interpolation { position, velocity, current_time: 0 }
    }

    /// The interpolation that `update` makes of `self` (see `interpolated`).
    pub closed spec fn stepped(self, delta_time: Time, target_position: Position, target_velocity: Vec2, world_size: Vec2) -> Interpolation {
        let p0 = self.position;
        let v0 = self.velocity;
        let t = sat(self.current_time + delta_time);
        let a = t - self.current_time;
        let d = p0.direction_spec(target_position, world_size);
        let v1 = target_velocity;
        Interpolation {
            position: Position::from_world_spec(
                Vec2 {
                    x: sat(spline_position(p0.x as int, p0.x + d.x, v0.x as int, v1.x as int, a)) as i64,
                    y: sat(spline_position(p0.y as int, p0.y + d.y, v0.y as int, v1.y as int, a)) as i64,
                },
                world_size,
            ),
            velocity: Vec2 {
                x: sat(spline_velocity(p0.x as int, p0.x + d.x, v0.x as int, v1.x as int, a)) as i64,
                y: sat(spline_velocity(p0.y as int, p0.y + d.y, v0.y as int, v1.y as int, a)) as i64,
            },
            current_time: t as i64,
        }
    }

    /// The interpolation that `update` makes is the one that `interpolated`
    /// describes, and a fresh one starts where it is put.
    pub proof fn lemma_stepped(self, delta_time: Time, target_position: Position, target_velocity: Vec2, world_size: Vec2)
        ensures
            interpolated(self, self.stepped(delta_time, target_position, target_velocity, world_size), delta_time,
                target_position, target_velocity, world_size),
            forall|p: Position, v: Vec2| #![auto] Interpolation::fresh(p, v).position_spec() == p
                && Interpolation::fresh(p, v).velocity_spec() == v && Interpolation::fresh(p, v).time_spec() == 0,
    {
    }

    /// Starts at `position`, moving at `velocity`.
    pub fn new(position: Position, velocity: Vec2) -> (r: Interpolation)
        ensures
            r.position_spec() == position,
            r.velocity_spec() == velocity,
            r.time_spec() == 0,
            r == Interpolation::fresh(position, velocity),
    {
        Interpolation { position, velocity, current_time: 0 }
    }

    /// The position to display.
    pub fn get_interpolated(&self) -> (p: Position)
        ensures
            p == self.position_spec(),
    {
        self.position
    }

    /// Moves along the spline from the displayed position and velocity towards the
    /// model's `target_position` and `target_velocity`, by the time that passed:
    /// the position goes as far along the spline as that time reaches, the shortest
    /// way round the torus, and wraps onto the arena; the velocity is the spline's.
    pub fn update(&mut self, delta_time: Time, target_position: Position, target_velocity: Vec2, world_size: Vec2)
        requires
            -FRAME_LIMIT <= delta_time <= FRAME_LIMIT,
            valid_size(world_size),
            world_size.x <= LENGTH_LIMIT,
            world_size.y <= LENGTH_LIMIT,
            coord_ok(old(self).position_spec().x as int),
            coord_ok(old(self).position_spec().y as int),
        ensures
            interpolated(*old(self), *final(self), delta_time, target_position, target_velocity, world_size),
            *final(self) == old(self).stepped(delta_time, target_position, target_velocity, world_size),
            final(self).position_spec().in_arena(world_size),
    {
        let start: Time = self.current_time;
        let now: Time = saturate(start as i128 + delta_time as i128);
        self.current_time = now;
        let a: i128 = now as i128 - start as i128;
        let p0: Position = self.position;
        let d: Vec2 = p0.direction(&target_position, world_size);
        proof {
            let m = world_size.x as int;
            let n = world_size.y as int;
            let rx = (target_position.x - p0.x) % m;
            let ry = (target_position.y - p0.y) % n;
            assert(0 <= rx < m && 0 <= ry < n);
        }
        let (x, vx): (i64, i64) = spline_axis(p0.x, p0.x as i128 + d.x as i128, self.velocity.x, target_velocity.x, a);
        let (y, vy): (i64, i64) = spline_axis(p0.y, p0.y as i128 + d.y as i128, self.velocity.y, target_velocity.y, a);
        self.position = Position::from_world(Vec2 { x, y }, world_size);
        self.velocity = Vec2 { x: vx, y: vy };
    }
}

} // verus!
