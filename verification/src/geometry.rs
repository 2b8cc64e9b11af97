use vstd::prelude::*;

verus! {

/// A length or coordinate, in thousandths of a world unit.
pub type Coord = i64;

/// A duration, in milliseconds.
pub type Time = i64;

/// Coordinate units in one world unit; also the length of a unit vector.
pub const UNIT: i64 = 1000;

/// Milliseconds in one second.
pub const MILLIS: i64 = 1000;


/// Truncating division (rounds towards zero), as integer division does.
pub open spec fn tdiv(a: int, b: int) -> int {
    if a >= 0 { a / b } else { -((-a) / b) }
}

/// Clamps a mathematical integer into the range of `i64`.
pub open spec fn sat(a: int) -> int {
    if a > i64::MAX { i64::MAX as int }
    else if a < i64::MIN { i64::MIN as int }
    else { a }
}

/// Euclidean remainder: the representative of `a` modulo `m` in `[0, m)`.
pub open spec fn wrap(a: int, m: int) -> int {
    a % m
}

/// The shortest signed offset that is congruent to `d` modulo `m`,
/// in `(-m/2, m/2]`.
pub open spec fn shortest(d: int, m: int) -> int {
    let r = d % m;
    if 2 * r > m { r - m } else { r }
}

/// Division rounded towards zero.
pub fn trunc_div(a: i128, b: i128) -> (r: i128)
    requires
        b > 0,
        a > i128::MIN,
    ensures
        r == tdiv(a as int, b as int),
{
    a / b
}

/// Stores an exact result in an `i64`, saturating at the type's limits.
pub fn saturate(a: i128) -> (r: i64)
    ensures
        r == sat(a as int),
{
    if a > i64::MAX as i128 {
        i64::MAX
    } else if a < i64::MIN as i128 {
        i64::MIN
    } else {
        a as i64
    }
}

/// Subtracts two times, saturating at the limits of `i64`.
pub fn time_sub(a: Time, b: Time) -> (r: Time)
    ensures
        r == sat(a - b),
{
    saturate(a as i128 - b as i128)
}

/// The remainder of `a` modulo `m` in `[0, m)`.
pub fn euclid_rem(a: i128, m: i128) -> (r: i128)
    requires
        m > 0,
        a > i128::MIN,
    ensures
        r == wrap(a as int, m as int),
        0 <= r < m,
{
    if a >= 0 {
        a % m
    } else {
        let n: i128 = -a;
        let rn: i128 = n % m;
        proof {
            vstd::arithmetic::div_mod::lemma_fundamental_div_mod(n as int, m as int);
        }
        if rn == 0 {
            proof {
                let q: int = (n as int) / (m as int);
                assert((a as int) == (-q) * (m as int) + 0) by (nonlinear_arith)
                    requires (n as int) == (m as int) * q + 0, a == -n;
                vstd::arithmetic::div_mod::lemma_fundamental_div_mod_converse(a as int, m as int, -q, 0);
            }
            0
        } else {
            proof {
                let q: int = (n as int) / (m as int);
                assert((a as int) == (-q - 1) * (m as int) + ((m - rn) as int)) by (nonlinear_arith)
                    requires (n as int) == (m as int) * q + (rn as int), a == -n;
                vstd::arithmetic::div_mod::lemma_fundamental_div_mod_converse(a as int, m as int, -q - 1, (m - rn) as int);
            }
            m - rn
        }
    }
}

/// A vector of coordinates: an offset, a velocity (units per second) or a size.
#[derive(Clone, Copy, Debug, PartialEq, Eq, Structural)]
pub struct Vec2 {
    pub x: Coord,
    pub y: Coord,
}

impl Vec2 {
    /// The zero vector.
    pub fn zero() -> (v: Vec2)
        ensures
            v.x == 0,
            v.y == 0,
    {
        Vec2 { x: 0, y: 0 }
    }

    /// The vector `(x, y)`.
    pub fn new(x: Coord, y: Coord) -> (v: Vec2)
        ensures
            v.x == x,
            v.y == y,
    {
        Vec2 { x, y }
    }

    pub open spec fn len_sq(self) -> int {
        self.x * self.x + self.y * self.y
    }

    pub open spec fn dot_spec(self, other: Vec2) -> int {
        self.x * other.x + self.y * other.y
    }

    /// `self * k / d`, component by component, rounded towards zero and saturated.
    pub open spec fn scale_spec(self, k: int, d: int) -> Vec2 {
        Vec2 { x: sat(tdiv(self.x * k, d)) as i64, y: sat(tdiv(self.y * k, d)) as i64 }
    }

    pub open spec fn add_spec(self, o: Vec2) -> Vec2 {
        Vec2 { x: sat(self.x + o.x) as i64, y: sat(self.y + o.y) as i64 }
    }

    pub open spec fn sub_spec(self, o: Vec2) -> Vec2 {
        Vec2 { x: sat(self.x - o.x) as i64, y: sat(self.y - o.y) as i64 }
    }

    pub open spec fn neg_spec(self) -> Vec2 {
        Vec2 { x: sat(-self.x) as i64, y: sat(-self.y) as i64 }
    }

    /// `self * k / d` (see `scale_spec`).
    pub fn scale(&self, k: i64, d: i64) -> (r: Vec2)
        requires
            d > 0,
        ensures
            r == self.scale_spec(k as int, d as int),
    {
        Vec2 { x: scale_coord(self.x, k, d as i128), y: scale_coord(self.y, k, d as i128) }
    }

    /// The sum, saturated.
    pub fn add(&self, o: Vec2) -> (r: Vec2)
        ensures
            r == self.add_spec(o),
    {
        Vec2 {
            x: saturate(self.x as i128 + o.x as i128),
            y: saturate(self.y as i128 + o.y as i128),
        }
    }

    /// The difference, saturated.
    pub fn sub(&self, o: Vec2) -> (r: Vec2)
        ensures
            r == self.sub_spec(o),
    {
        Vec2 {
            x: saturate(self.x as i128 - o.x as i128),
            y: saturate(self.y as i128 - o.y as i128),
        }
    }

    /// The opposite, saturated.
    pub fn neg(&self) -> (r: Vec2)
        ensures
            r == self.neg_spec(),
    {
        Vec2 { x: saturate(-(self.x as i128)), y: saturate(-(self.y as i128)) }
    }
}

/// `a * k / d`, rounded towards zero and saturated.
pub fn scale_coord(a: i64, k: i64, d: i128) -> (r: i64)
    requires
        d > 0,
    ensures
        r == sat(tdiv(a * k, d as int)),
{
    let ai: i128 = a as i128;
    let ki: i128 = k as i128;
    assert(-0x4000_0000_0000_0000_0000_0000_0000_0000 <= ai * ki <= 0x4000_0000_0000_0000_0000_0000_0000_0000) by (nonlinear_arith)
        requires
            -0x8000_0000_0000_0000 <= ai <= 0x8000_0000_0000_0000,
            -0x8000_0000_0000_0000 <= ki <= 0x8000_0000_0000_0000;
    let p: i128 = ai * ki;
    let q: i128 = trunc_div(p, d);
    saturate(q)
}


/// Integer square root: the largest `r` with `r * r <= n`.
pub fn isqrt(n: u128) -> (r: u128)
    ensures
        r * r <= n,
        n < (r + 1) * (r + 1),
{
    let mut lo: u128 = 0;
    let mut hi: u128 = 0x1_0000_0000_0000_0000;
    proof {
        assert(hi * hi > u128::MAX) by (nonlinear_arith) requires hi == 0x1_0000_0000_0000_0000u128;
    }
    while hi - lo > 1
        invariant
            lo < hi <= 0x1_0000_0000_0000_0000,
            lo * lo <= n,
            n < hi * hi,
        decreases hi - lo,
    {
        let mid: u128 = lo + (hi - lo) / 2;
        assert(lo < mid < hi);
        assert(mid * mid <= 0x1_0000_0000_0000_0000u128 * 0x1_0000_0000_0000_0000u128) by (nonlinear_arith)
            requires mid <= 0x1_0000_0000_0000_0000u128;
        if mid <= 0xFFFF_FFFF_FFFF_FFFF {
            assert(mid * mid <= 0xFFFF_FFFF_FFFF_FFFFu128 * 0xFFFF_FFFF_FFFF_FFFFu128) by (nonlinear_arith)
                requires mid <= 0xFFFF_FFFF_FFFF_FFFFu128;
        }
        if mid <= 0xFFFF_FFFF_FFFF_FFFF && mid * mid <= n {
            lo = mid;
        } else {
            if mid > 0xFFFF_FFFF_FFFF_FFFF {
                assert(mid * mid > u128::MAX) by (nonlinear_arith) requires mid >= 0x1_0000_0000_0000_0000u128;
            }
            hi = mid;
        }
    }
    assert(hi == lo + 1);
    lo
}

/// The integer square root of `n` (see `isqrt`).
pub open spec fn isqrt_spec(n: int) -> int {
    choose|r: int| #[trigger] is_root(n, r)
}

/// `r` is the integer square root of `n`.
pub open spec fn is_root(n: int, r: int) -> bool {
    0 <= r && r * r <= n && n < (r + 1) * (r + 1)
}

/// An integer square root is the integer square root.
pub proof fn lemma_isqrt_unique(n: int, r: int)
    requires
        0 <= r,
        r * r <= n,
        n < (r + 1) * (r + 1),
    ensures
        isqrt_spec(n) == r,
{
    assert(is_root(n, r));
    let s = isqrt_spec(n);
    assert(is_root(n, s));
    if s < r {
        assert((s + 1) * (s + 1) <= r * r) by (nonlinear_arith) requires 0 <= s, s + 1 <= r;
    } else if r < s {
        assert((r + 1) * (r + 1) <= s * s) by (nonlinear_arith) requires 0 <= r, r + 1 <= s;
    }
}

/// `v` shortened to length `UNIT` when it is longer (its length rounded down).
pub open spec fn clamp_unit(v: Vec2) -> Vec2 {
    if v.len_sq() <= UNIT * UNIT {
        v
    } else {
        let l = isqrt_spec(v.len_sq());
        Vec2 { x: tdiv(v.x * UNIT, l) as i64, y: tdiv(v.y * UNIT, l) as i64 }
    }
}

/// `v` shortened to length `UNIT` when it is longer (see `clamp_unit`).
pub fn clamp_to_unit(v: Vec2) -> (r: Vec2)
    ensures
        r == clamp_unit(v),
        -UNIT <= r.x <= UNIT,
        -UNIT <= r.y <= UNIT,
{
    let x: i128 = v.x as i128;
    let y: i128 = v.y as i128;
    assert(0 <= x * x <= 0x4000_0000_0000_0000_0000_0000_0000_0000) by (nonlinear_arith)
        requires -0x8000_0000_0000_0000 <= x <= 0x8000_0000_0000_0000;
    assert(0 <= y * y <= 0x4000_0000_0000_0000_0000_0000_0000_0000) by (nonlinear_arith)
        requires -0x8000_0000_0000_0000 <= y <= 0x8000_0000_0000_0000;
    let xx: i128 = x * x;
    let yy: i128 = y * y;
    let n: u128 = xx as u128 + yy as u128;
    if n <= 1_000_000u128 {
        proof {
            assert(x * x <= 1000000 && y * y <= 1000000);
            assert(-1000 <= x <= 1000) by (nonlinear_arith) requires x * x <= 1000000;
            assert(-1000 <= y <= 1000) by (nonlinear_arith) requires y * y <= 1000000;
        }
        return v;
    }
    let l: u128 = isqrt(n);
    proof {
        lemma_isqrt_unique(n as int, l as int);
        assert(l >= 1000) by (nonlinear_arith) requires n > 1000000, n < (l + 1) * (l + 1), l >= 0;
        assert(l * l <= 0x8000_0000_0000_0000_0000_0000_0000_0000u128);
        assert(l <= 0x1_0000_0000_0000_0000) by (nonlinear_arith) requires l * l <= 0x8000_0000_0000_0000_0000_0000_0000_0000u128, l >= 0;
        // Each component is at most the length.
        assert(x * x <= l * l + 2 * l) by (nonlinear_arith) requires x * x + y * y == n, y * y >= 0, n < (l + 1) * (l + 1);
        assert(-(l as int) <= x <= l) by (nonlinear_arith) requires x * x <= l * l + 2 * l, l >= 0;
        assert(y * y <= l * l + 2 * l) by (nonlinear_arith) requires x * x + y * y == n, x * x >= 0, n < (l + 1) * (l + 1);
        assert(-(l as int) <= y <= l) by (nonlinear_arith) requires y * y <= l * l + 2 * l, l >= 0;
    }
    let li: i128 = l as i128;
    let rx: i128 = trunc_div(x * 1000, li);
    let ry: i128 = trunc_div(y * 1000, li);
    proof {
        assert(-1000 <= rx <= 1000) by {
            if x >= 0 {
                vstd::arithmetic::div_mod::lemma_div_is_ordered(x * 1000, li * 1000, li as int);
                vstd::arithmetic::div_mod::lemma_div_multiples_vanish(1000, li as int);
                assert(li * 1000 == 1000 * li) by (nonlinear_arith);
                assert(x * 1000 <= li * 1000) by (nonlinear_arith) requires x <= li;
            } else {
                vstd::arithmetic::div_mod::lemma_div_is_ordered(-x * 1000, li * 1000, li as int);
                vstd::arithmetic::div_mod::lemma_div_multiples_vanish(1000, li as int);
                assert(li * 1000 == 1000 * li) by (nonlinear_arith);
                assert(-x * 1000 <= li * 1000) by (nonlinear_arith) requires -x <= li;
                assert(-(x * 1000) == -x * 1000) by (nonlinear_arith);
            }
        }
        assert(-1000 <= ry <= 1000) by {
            if y >= 0 {
                vstd::arithmetic::div_mod::lemma_div_is_ordered(y * 1000, li * 1000, li as int);
                vstd::arithmetic::div_mod::lemma_div_multiples_vanish(1000, li as int);
                assert(li * 1000 == 1000 * li) by (nonlinear_arith);
                assert(y * 1000 <= li * 1000) by (nonlinear_arith) requires y <= li;
            } else {
                vstd::arithmetic::div_mod::lemma_div_is_ordered(-y * 1000, li * 1000, li as int);
                vstd::arithmetic::div_mod::lemma_div_multiples_vanish(1000, li as int);
                assert(li * 1000 == 1000 * li) by (nonlinear_arith);
                assert(-y * 1000 <= li * 1000) by (nonlinear_arith) requires -y <= li;
                assert(-(y * 1000) == -y * 1000) by (nonlinear_arith);
            }
        }
    }
    Vec2 { x: rx as i64, y: ry as i64 }
}

/// A point on the torus-shaped arena: each coordinate lies in `[0, size)`.
#[derive(Clone, Copy, Debug, PartialEq, Eq, Structural)]
pub struct Position {
    pub x: Coord,
    pub y: Coord,
}

pub open spec fn valid_size(size: Vec2) -> bool {
    size.x > 0 && size.y > 0
}

impl Position {
    pub open spec fn in_arena(self, size: Vec2) -> bool {
        0 <= self.x < size.x && 0 <= self.y < size.y
    }

    pub open spec fn from_world_spec(v: Vec2, size: Vec2) -> Position {
        Position { x: wrap(v.x as int, size.x as int) as i64, y: wrap(v.y as int, size.y as int) as i64 }
    }

    pub open spec fn direction_spec(self, other: Position, size: Vec2) -> Vec2 {
        Vec2 {
            x: shortest(other.x - self.x, size.x as int) as i64,
            y: shortest(other.y - self.y, size.y as int) as i64,
        }
    }

    pub open spec fn shifted_spec(self, offset: Vec2, size: Vec2) -> Position {
        Position {
            x: wrap(self.x + offset.x, size.x as int) as i64,
            y: wrap(self.y + offset.y, size.y as int) as i64,
        }
    }

    /// The origin of the arena.
    pub fn zero() -> (p: Position)
        ensures
            p.x == 0,
            p.y == 0,
    {
        Position { x: 0, y: 0 }
    }

    /// The point of the arena that a point of the plane wraps onto.
    pub fn from_world(v: Vec2, size: Vec2) -> (p: Position)
        requires
            valid_size(size),
        ensures
            p == Position::from_world_spec(v, size),
            p.in_arena(size),
    {
        let x: i128 = euclid_rem(v.x as i128, size.x as i128);
        let y: i128 = euclid_rem(v.y as i128, size.y as i128);
        Position { x: x as i64, y: y as i64 }
    }

    /// The point as a vector of the plane.
    pub fn to_world(&self) -> (v: Vec2)
        ensures
            v.x == self.x,
            v.y == self.y,
    {
        Vec2 { x: self.x, y: self.y }
    }

    /// The shortest offset that leads from `self` to `other` across the torus.
    pub fn direction(&self, other: &Position, size: Vec2) -> (d: Vec2)
        requires
            valid_size(size),
        ensures
            d == self.direction_spec(*other, size),
            -size.x < 2 * d.x <= size.x,
            -size.y < 2 * d.y <= size.y,
    {
        let x: i64 = shortest_offset(other.x as i128 - self.x as i128, size.x);
        let y: i64 = shortest_offset(other.y as i128 - self.y as i128, size.y);
        Vec2 { x, y }
    }

    /// The squared length of the shortest offset between two points.
    pub fn distance_sq(&self, other: &Position, size: Vec2) -> (d: i128)
        requires
            valid_size(size),
        ensures
            d == self.direction_spec(*other, size).len_sq(),
    {
        let v: Vec2 = self.direction(other, size);
        let x: i128 = v.x as i128;
        let y: i128 = v.y as i128;
        assert(x * x <= 0x1000_0000_0000_0000_0000_0000_0000_0000) by (nonlinear_arith)
            requires -0x4000_0000_0000_0000 <= x <= 0x4000_0000_0000_0000;
        assert(y * y <= 0x1000_0000_0000_0000_0000_0000_0000_0000) by (nonlinear_arith)
            requires -0x4000_0000_0000_0000 <= y <= 0x4000_0000_0000_0000;
        assert(x * x >= 0 && y * y >= 0) by (nonlinear_arith);
        let xx: i128 = x * x;
        let yy: i128 = y * y;
        xx + yy
    }

    /// `self` moved by `offset`, wrapped back onto the arena.
    pub fn shifted(&self, offset: Vec2, size: Vec2) -> (p: Position)
        requires
            valid_size(size),
        ensures
            p == self.shifted_spec(offset, size),
            p.in_arena(size),
    {
        let x: i128 = euclid_rem(self.x as i128 + offset.x as i128, size.x as i128);
        let y: i128 = euclid_rem(self.y as i128 + offset.y as i128, size.y as i128);
        Position { x: x as i64, y: y as i64 }
    }

    /// Moves the point by `offset`, wrapping it back onto the arena.
    pub fn shift(&mut self, offset: Vec2, size: Vec2)
        requires
            valid_size(size),
        ensures
            *final(self) == old(self).shifted_spec(offset, size),
            final(self).in_arena(size),
    {
        *self = self.shifted(offset, size);
    }
}

/// Moving a point always leaves it on the arena.
pub proof fn lemma_shifted_in_arena_all(size: Vec2)
    requires
        valid_size(size),
    ensures
        forall|p: Position, o: Vec2| #[trigger] p.shifted_spec(o, size).in_arena(size),
{
    assert forall|p: Position, o: Vec2| #[trigger] p.shifted_spec(o, size).in_arena(size) by {
        vstd::arithmetic::div_mod::lemma_mod_bound(p.x + o.x, size.x as int);
        vstd::arithmetic::div_mod::lemma_mod_bound(p.y + o.y, size.y as int);
    }
}

fn shortest_offset(d: i128, m: i64) -> (r: i64)
    requires
        m > 0,
        -0x1_0000_0000_0000_0000 <= d <= 0x1_0000_0000_0000_0000,
    ensures
        r == shortest(d as int, m as int),
        -m < 2 * r <= m,
{
    let w: i128 = euclid_rem(d, m as i128);
    if 2 * w > m as i128 {
        (w - m as i128) as i64
    } else {
        w as i64
    }
}

} // verus!
