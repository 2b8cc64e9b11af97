use vstd::prelude::*;
use crate::geometry::{Coord, MILLIS, Time, UNIT, Vec2, isqrt, isqrt_spec, lemma_isqrt_unique, sat, saturate, tdiv, time_sub, trunc_div};
use crate::random::random_range;
use crate::rotation::{Rotation, TURN, cos_at, direction_at, normalize, sin_at};

verus! {

/// The largest turn that a bounce of a shake takes: about a tenth of a radian.
pub const BOUNCE_TURN: i64 = 23;

/// The length of a vector, rounded down.
pub open spec fn length(v: Vec2) -> int {
    isqrt_spec(v.len_sq())
}

/// `v * k / d`, component by component, rounded towards zero and saturated.
pub open spec fn scaled(v: Vec2, k: int, d: int) -> Vec2 {
    Vec2 { x: sat(tdiv(v.x * k, d)) as i64, y: sat(tdiv(v.y * k, d)) as i64 }
}

/// `v` brought down to length `max` when it is longer, its components rounded away
/// from zero so that taking it away from `v` always makes progress.
pub open spec fn clamp_len(v: Vec2, max: int) -> Vec2 {
    if length(v) > max { scaled_up(v, max, length(v)) } else { v }
}

/// `v` turned by the angle `a`.
pub open spec fn rotated(v: Vec2, a: int) -> Vec2 {
    let c = cos_at(normalize(a));
    let s = sin_at(normalize(a));
    Vec2 {
        x: sat(tdiv(v.x * c - v.y * s, UNIT as int)) as i64,
        y: sat(tdiv(v.x * s + v.y * c, UNIT as int)) as i64,
    }
}

/// A shake of the camera: an offset that bounces around within an amplitude for a
/// while, then settles back.
pub struct Shake {
    offset: Vec2,
    velocity: Vec2,
    amplitude: Coord,
    speed: Coord,
    time: Time,
}

fn length_of(v: Vec2) -> (l: i128)
    ensures
        l == length(v),
        0 <= l <= 0x2_0000_0000_0000_0000,
{
    let x: i128 = v.x as i128;
    let y: i128 = v.y as i128;
    assert(0 <= x * x <= 0x4000_0000_0000_0000_0000_0000_0000_0000) by (nonlinear_arith)
        requires -0x8000_0000_0000_0000 <= x <= 0x8000_0000_0000_0000;
    assert(0 <= y * y <= 0x4000_0000_0000_0000_0000_0000_0000_0000) by (nonlinear_arith)
        requires -0x8000_0000_0000_0000 <= y <= 0x8000_0000_0000_0000;
    let xx: i128 = x * x;
    let yy: i128 = y * y;
    let n: u128 = xx as u128 + yy as u128;
    let l: u128 = isqrt(n);
    proof {
        lemma_isqrt_unique(n as int, l as int);
        assert(l <= 0x2_0000_0000_0000_0000) by (nonlinear_arith)
            requires l * l <= n, n <= 0x8000_0000_0000_0000_0000_0000_0000_0000u128, l >= 0;
    }
    l as i128
}

/// Division rounded away from zero.
pub open spec fn tdiv_up(a: int, b: int) -> int {
    if a >= 0 { (a + b - 1) / b } else { -((-a + b - 1) / b) }
}

/// `v * k / d`, component by component, rounded away from zero and saturated.
pub open spec fn scaled_up(v: Vec2, k: int, d: int) -> Vec2 {
    Vec2 { x: sat(tdiv_up(v.x * k, d)) as i64, y: sat(tdiv_up(v.y * k, d)) as i64 }
}

fn scaled_up_axis(a: i64, k: i64, d: i128) -> (r: i64)
    requires
        0 < d <= 0x2_0000_0000_0000_0000,
    ensures
        r == sat(tdiv_up(a * k, d as int)),
{
    let ai: i128 = a as i128;
    let ki: i128 = k as i128;
    assert(-0x4000_0000_0000_0000_0000_0000_0000_0000 <= ai * ki <= 0x4000_0000_0000_0000_0000_0000_0000_0000)
        by (nonlinear_arith)
        requires
            -0x8000_0000_0000_0000 <= ai <= 0x8000_0000_0000_0000,
            -0x8000_0000_0000_0000 <= ki <= 0x8000_0000_0000_0000;
    let p: i128 = ai * ki;
    let q: i128 = if p >= 0 { (p + d - 1) / d } else { -((-p + d - 1) / d) };
    saturate(q)
}

fn scaled_up_by(v: Vec2, k: i64, d: i128) -> (r: Vec2)
    requires
        0 < d <= 0x2_0000_0000_0000_0000,
    ensures
        r == scaled_up(v, k as int, d as int),
{
    Vec2 { x: scaled_up_axis(v.x, k, d), y: scaled_up_axis(v.y, k, d) }
}

fn scaled_by(v: Vec2, k: i64, d: i128) -> (r: Vec2)
    requires
        d > 0,
    ensures
        r == scaled(v, k as int, d as int),
{
    Vec2 { x: crate::geometry::scale_coord(v.x, k, d), y: crate::geometry::scale_coord(v.y, k, d) }
}

fn rotated_by(v: Vec2, a: i64) -> (r: Vec2)
    ensures
        r == rotated(v, a as int),
{
    let d: Vec2 = Rotation::new(a).direction();
    proof {
        crate::rotation::lemma_direction_small(a as int);
    }
    let c: i128 = d.x as i128;
    let s: i128 = d.y as i128;
    let x: i128 = v.x as i128;
    let y: i128 = v.y as i128;
    proof {
        crate::rotation::lemma_small_product(c as int, x as int);
        crate::rotation::lemma_small_product(s as int, y as int);
        crate::rotation::lemma_small_product(s as int, x as int);
        crate::rotation::lemma_small_product(c as int, y as int);
        assert(x * c == c * x && y * s == s * y && x * s == s * x && y * c == c * y) by (nonlinear_arith);
    }
    Vec2 {
        x: saturate(trunc_div(x * c - y * s, UNIT as i128)),
        y: saturate(trunc_div(x * s + y * c, UNIT as i128)),
    }
}

impl Shake {
    pub closed spec fn offset_spec(self) -> Vec2 {
        self.offset
    }

    pub closed spec fn velocity_spec(self) -> Vec2 {
        self.velocity
    }

    pub closed spec fn amplitude_spec(self) -> Coord {
        self.amplitude
    }

    pub closed spec fn speed_spec(self) -> Coord {
        self.speed
    }

    pub closed spec fn time_spec(self) -> Time {
        self.time
    }

    /// A shake that has nothing to do: everything zero.
    pub fn new() -> (s: Shake)
        ensures
            s.offset_spec() == (Vec2 { x: 0, y: 0 }),
            s.velocity_spec() == (Vec2 { x: 0, y: 0 }),
            s.amplitude_spec() == 0,
            s.speed_spec() == 0,
            s.time_spec() == 0,
    {
        Shake {
            offset: Vec2 { x: 0, y: 0 },
            velocity: Vec2 { x: 0, y: 0 },
            amplitude: 0,
            speed: 0,
            time: 0,
        }
    }

    /// Starts shaking within `amplitude`, at `speed`, for `time`, from no offset,
    /// in a direction drawn at random.
    pub fn start(&mut self, amplitude: Coord, speed: Coord, time: Time)
        ensures
            final(self).amplitude_spec() == amplitude,
            final(self).speed_spec() == speed,
            final(self).time_spec() == time,
            final(self).offset_spec() == (Vec2 { x: 0, y: 0 }),
            exists|a: int| 0 <= a <= TURN && final(self).velocity_spec() == #[trigger] direction_at(a).scale_spec(
                speed as int,
                UNIT as int,
            ),
    {
        self.amplitude = amplitude;
        self.speed = speed;
        self.time = time;
        self.offset = Vec2 { x: 0, y: 0 };
        let angle: i64 = random_range(0, TURN);
        self.velocity = Rotation::new(angle).direction().scale(speed, UNIT);
        proof {
            assert(normalize(angle as int) == angle);
            assert(direction_at(angle as int) == direction_at(normalize(angle as int)));
        }
    }

    /// The current offset.
    pub fn offset(&self) -> (v: Vec2)
        ensures
            v == self.offset_spec(),
    {
        self.offset
    }

    /// Moves the shake on by `delta_time`. While its time lasts, the offset moves at
    /// the shake's velocity and, when it reaches the amplitude, is brought back onto
    /// it and bounces back, turned by at most `BOUNCE_TURN` at random. Once the time
    /// is over, the offset settles back towards zero by at most the speed.
    pub fn update(&mut self, delta_time: Time)
        requires
            !shake_divides_by_zero(*old(self), delta_time),
        ensures
            shake_updated(*old(self), *final(self), delta_time),
    {
        if self.time <= 0 {
            let len: i128 = length_of(self.offset);
            if len > self.speed as i128 {
                let c: Vec2 = scaled_up_by(self.offset, self.speed, len);
                self.offset = self.offset.sub(c);
            } else {
                self.offset = self.offset.sub(self.offset);
            }
            return;
        }
        self.time = time_sub(self.time, delta_time);
        self.offset = self.offset.add(self.velocity.scale(delta_time, MILLIS));
        let len: i128 = length_of(self.offset);
        if len >= self.amplitude as i128 {
            self.offset = scaled_by(self.offset, self.amplitude, len);
            let turn: i64 = random_range(-BOUNCE_TURN, BOUNCE_TURN);
            self.velocity = rotated_by(self.velocity, turn).neg();
        }
    }
}

/// What an update by `dt` makes of the shake `s0` (see `Shake::update`).
pub open spec fn shake_updated(s0: Shake, s1: Shake, dt: Time) -> bool {
    &&& s1.amplitude_spec() == s0.amplitude_spec()
    &&& s1.speed_spec() == s0.speed_spec()
    &&& if s0.time_spec() <= 0 {
        &&& s1.offset_spec() == s0.offset_spec().sub_spec(clamp_len(s0.offset_spec(), s0.speed_spec() as int))
        &&& s1.velocity_spec() == s0.velocity_spec()
        &&& s1.time_spec() == s0.time_spec()
    } else {
        let o = shaken_offset(s0, dt);
        &&& s1.time_spec() == sat(s0.time_spec() - dt)
        &&& if length(o) >= s0.amplitude_spec() {
            &&& s1.offset_spec() == scaled(o, s0.amplitude_spec() as int, length(o))
            &&& exists|r: int| -BOUNCE_TURN <= r <= BOUNCE_TURN
                && s1.velocity_spec() == #[trigger] rotated(s0.velocity_spec(), r).neg_spec()
        } else {
            &&& s1.offset_spec() == o
            &&& s1.velocity_spec() == s0.velocity_spec()
        }
    }
}

/// The offset of a shake that still lasts, moved on by `dt` at its velocity.
pub open spec fn shaken_offset(s: Shake, dt: Time) -> Vec2 {
    s.offset_spec().add_spec(s.velocity_spec().scale_spec(dt as int, MILLIS as int))
}

/// The update would divide by a zero length: bringing a zero offset down to a
/// negative speed, or onto an amplitude that is not positive.
pub open spec fn shake_divides_by_zero(s: Shake, dt: Time) -> bool {
    ||| s.time_spec() <= 0 && length(s.offset_spec()) == 0 && s.speed_spec() < 0
    ||| s.time_spec() > 0 && length(shaken_offset(s, dt)) == 0 && s.amplitude_spec() <= 0
}

impl Default for Shake {
    fn default() -> (s: Shake)
        ensures
            s.offset_spec() == (Vec2 { x: 0, y: 0 }),
            s.velocity_spec() == (Vec2 { x: 0, y: 0 }),
            s.amplitude_spec() == 0,
            s.speed_spec() == 0,
            s.time_spec() == 0,
    {
        Shake::new()
    }
}

} // verus!
