use vstd::prelude::*;
use crate::geometry::{UNIT, Vec2, euclid_rem, wrap};

verus! {

/// Angle units in a full turn (a unit is a quarter of a degree).
pub const TURN: i64 = 1440;

/// Angle units in a quarter turn.
pub const QUARTER: i64 = 360;

/// `QSIN[k]` is the sine of `k` angle units, times `UNIT`, rounded.
pub const QSIN: [i16; 361] = [
    0, 4, 9, 13, 17, 22, 26, 31, 35, 39, 44, 48, 52, 57, 61, 65,
    70, 74, 78, 83, 87, 92, 96, 100, 105, 109, 113, 118, 122, 126, 131, 135,
    139, 143, 148, 152, 156, 161, 165, 169, 174, 178, 182, 187, 191, 195, 199, 204,
    208, 212, 216, 221, 225, 229, 233, 238, 242, 246, 250, 255, 259, 263, 267, 271,
    276, 280, 284, 288, 292, 297, 301, 305, 309, 313, 317, 321, 326, 330, 334, 338,
    342, 346, 350, 354, 358, 362, 367, 371, 375, 379, 383, 387, 391, 395, 399, 403,
    407, 411, 415, 419, 423, 427, 431, 434, 438, 442, 446, 450, 454, 458, 462, 466,
    469, 473, 477, 481, 485, 489, 492, 496, 500, 504, 508, 511, 515, 519, 522, 526,
    530, 534, 537, 541, 545, 548, 552, 556, 559, 563, 566, 570, 574, 577, 581, 584,
    588, 591, 595, 598, 602, 605, 609, 612, 616, 619, 623, 626, 629, 633, 636, 639,
    643, 646, 649, 653, 656, 659, 663, 666, 669, 672, 676, 679, 682, 685, 688, 692,
    695, 698, 701, 704, 707, 710, 713, 716, 719, 722, 725, 728, 731, 734, 737, 740,
    743, 746, 749, 752, 755, 758, 760, 763, 766, 769, 772, 774, 777, 780, 783, 785,
    788, 791, 793, 796, 799, 801, 804, 806, 809, 812, 814, 817, 819, 822, 824, 827,
    829, 831, 834, 836, 839, 841, 843, 846, 848, 850, 853, 855, 857, 859, 862, 864,
    866, 868, 870, 872, 875, 877, 879, 881, 883, 885, 887, 889, 891, 893, 895, 897,
    899, 901, 903, 904, 906, 908, 910, 912, 914, 915, 917, 919, 921, 922, 924, 926,
    927, 929, 930, 932, 934, 935, 937, 938, 940, 941, 943, 944, 946, 947, 948, 950,
    951, 952, 954, 955, 956, 958, 959, 960, 961, 962, 964, 965, 966, 967, 968, 969,
    970, 971, 972, 973, 974, 975, 976, 977, 978, 979, 980, 981, 982, 982, 983, 984,
    985, 986, 986, 987, 988, 988, 989, 990, 990, 991, 991, 992, 993, 993, 994, 994,
    995, 995, 995, 996, 996, 997, 997, 997, 998, 998, 998, 998, 999, 999, 999, 999,
    999, 1000, 1000, 1000, 1000, 1000, 1000, 1000, 1000,
];

/// The representative of an angle that `Rotation::new` keeps: below zero it adds
/// whole turns until the angle is not negative, above a full turn it takes whole
/// turns away until the angle is at most a full turn.
pub open spec fn normalize(a: int) -> int {
    if a < 0 {
        wrap(a, TURN as int)
    } else if a > TURN {
        if a % (TURN as int) == 0 { TURN as int } else { a % (TURN as int) }
    } else {
        a
    }
}

pub open spec fn qsin(k: int) -> int {
    QSIN@[k] as int
}

/// Cosine of an angle in `[0, TURN]`, times `UNIT`.
pub open spec fn cos_at(a: int) -> int {
    if a <= QUARTER {
        qsin(QUARTER - a)
    } else if a <= 2 * QUARTER {
        -qsin(a - QUARTER)
    } else if a <= 3 * QUARTER {
        -qsin(3 * QUARTER - a)
    } else {
        qsin(a - 3 * QUARTER)
    }
}

/// Sine of an angle in `[0, TURN]`, times `UNIT`.
pub open spec fn sin_at(a: int) -> int {
    if a <= QUARTER {
        qsin(a)
    } else if a <= 2 * QUARTER {
        qsin(2 * QUARTER - a)
    } else if a <= 3 * QUARTER {
        -qsin(a - 2 * QUARTER)
    } else {
        -qsin(TURN - a)
    }
}

/// The unit vector (times `UNIT`) that an angle points along.
pub open spec fn direction_at(a: int) -> Vec2 {
    let n = normalize(a);
    Vec2 { x: cos_at(n) as i64, y: sin_at(n) as i64 }
}

/// How far `v` points along the angle `a`.
pub open spec fn alignment(a: int, v: Vec2) -> int {
    direction_at(a).dot_spec(v)
}

/// How far `v` strays sideways from the angle `a`: the size of the cross product
/// of the angle's direction and `v`.
pub open spec fn deviation(a: int, v: Vec2) -> int {
    let d = direction_at(a);
    let c = d.x * v.y - d.y * v.x;
    if c < 0 { -c } else { c }
}

/// The angle `a` fits `v` better than the angle `b`: it points further along `v`,
/// or as far and strays less sideways.
pub open spec fn fits_better(a: int, b: int, v: Vec2) -> bool {
    ||| alignment(a, v) > alignment(b, v)
    ||| alignment(a, v) == alignment(b, v) && deviation(a, v) < deviation(b, v)
}

/// The first angle in `[0, k)` (or `0`) that fits `v` best.
pub open spec fn best_angle(v: Vec2, k: int) -> int
    decreases k,
{
    if k <= 1 {
        0
    } else {
        let b = best_angle(v, k - 1);
        if fits_better(k - 1, b, v) { k - 1 } else { b }
    }
}

/// The angle of a vector: the first angle of a turn whose direction points most
/// along it and, among those, strays least from it (`0` for the zero vector).
pub open spec fn arg_spec(v: Vec2) -> int {
    best_angle(v, TURN as int)
}

/// An orientation, kept as an angle in `[0, TURN]`.
#[derive(Clone, Copy, Debug, PartialEq, Eq, Structural)]
pub struct Rotation {
    angle: i64,
}

impl Rotation {
    #[verifier::type_invariant]
    closed spec fn inv(self) -> bool {
        0 <= self.angle <= TURN
    }

    pub closed spec fn angle_spec(self) -> int {
        self.angle as int
    }

    pub closed spec fn from_angle(a: int) -> Rotation {
        Rotation { angle: a as i64 }
    }

    /// An angle in `[0, TURN]` is kept as it is.
    pub proof fn lemma_from_angle(a: int)
        requires
            0 <= a <= TURN,
        ensures
            Rotation::from_angle(a).angle_spec() == a,
    {
    }

    /// Rotations are equal when their angles are.
    pub proof fn lemma_eq(a: Rotation, b: Rotation)
        requires
            a.angle_spec() == b.angle_spec(),
        ensures
            a == b,
    {
    }

    /// No rotation.
    pub fn zero() -> (r: Rotation)
        ensures
            r.angle_spec() == 0,
    {
        Rotation { angle: 0 }
    }

    /// The rotation by `angle`, normalized (see `normalize`).
    pub fn new(angle: i64) -> (r: Rotation)
        ensures
            r.angle_spec() == normalize(angle as int),
    {
        Rotation { angle: normalize_angle(angle) }
    }

    /// The angle of the rotation.
    pub fn angle(&self) -> (a: i64)
        ensures
            a == self.angle_spec(),
    {
        self.angle
    }

    /// The unit direction of the rotation, times `UNIT`.
    pub fn direction(&self) -> (d: Vec2)
        ensures
            d == direction_at(self.angle_spec()),
    {
        let a: i64 = normalize_angle(self.angle);
        if a <= QUARTER {
            Vec2 { x: QSIN[(QUARTER - a) as usize] as i64, y: QSIN[a as usize] as i64 }
        } else if a <= 2 * QUARTER {
            Vec2 { x: -(QSIN[(a - QUARTER) as usize] as i64), y: QSIN[(2 * QUARTER - a) as usize] as i64 }
        } else if a <= 3 * QUARTER {
            Vec2 {
                x: -(QSIN[(3 * QUARTER - a) as usize] as i64),
                y: -(QSIN[(a - 2 * QUARTER) as usize] as i64),
            }
        } else {
            Vec2 { x: QSIN[(a - 3 * QUARTER) as usize] as i64, y: -(QSIN[(TURN - a) as usize] as i64) }
        }
    }

    /// The same rotation with its angle normalized.
    pub fn normalized(self) -> (r: Rotation)
        ensures
            r.angle_spec() == normalize(self.angle_spec()),
            0 <= r.angle_spec() <= TURN,
    {
        proof {
            use_type_invariant(&self);
        }
        self
    }

    /// The rotation by the sum of both angles.
    pub fn add(self, rhs: Rotation) -> (r: Rotation)
        ensures
            r.angle_spec() == normalize(self.angle_spec() + rhs.angle_spec()),
    {
        let sum: i128 = self.angle as i128 + rhs.angle as i128;
        let s: i64 = crate::geometry::saturate(sum);
        proof {
            use_type_invariant(&self);
            use_type_invariant(&rhs);
        }
        Rotation::new(s)
    }
}

fn normalize_angle(a: i64) -> (r: i64)
    ensures
        r == normalize(a as int),
        0 <= r <= TURN,
{
    if a < 0 {
        euclid_rem(a as i128, TURN as i128) as i64
    } else if a > TURN {
        let m: i64 = a % TURN;
        if m == 0 { TURN } else { m }
    } else {
        a
    }
}

impl Vec2 {
    /// The angle of the vector (see `arg_spec`).
    pub fn arg(&self) -> (a: i64)
        ensures
            a == arg_spec(*self),
            0 <= a < TURN,
    {
        let mut best: i64 = 0;
        let mut best_dot: i128 = dot_along(0, self);
        let mut best_dev: i128 = deviation_along(0, self);
        let mut k: i64 = 1;
        while k < TURN
            invariant
                1 <= k <= TURN,
                best == best_angle(*self, k as int),
                0 <= best < k,
                best_dot == alignment(best as int, *self),
                best_dev == deviation(best as int, *self),
            decreases TURN - k,
        {
            let d: i128 = dot_along(k, self);
            let e: i128 = deviation_along(k, self);
            if d > best_dot || (d == best_dot && e < best_dev) {
                best = k;
                best_dot = d;
                best_dev = e;
            }
            k = k + 1;
        }
        best
    }
}

fn deviation_along(a: i64, v: &Vec2) -> (e: i128)
    ensures
        e == deviation(a as int, *v),
{
    let dir: Vec2 = Rotation::new(a).direction();
    proof {
        lemma_direction_small(a as int);
    }
    let dx: i128 = dir.x as i128;
    let dy: i128 = dir.y as i128;
    let vx: i128 = v.x as i128;
    let vy: i128 = v.y as i128;
    proof {
        lemma_small_product(dx as int, vy as int);
        lemma_small_product(dy as int, vx as int);
    }
    let c: i128 = dx * vy - dy * vx;
    if c < 0 {
        -c
    } else {
        c
    }
}

fn dot_along(a: i64, v: &Vec2) -> (d: i128)
    ensures
        d == alignment(a as int, *v),
{
    let dir: Vec2 = Rotation::new(a).direction();
    proof {
        lemma_direction_small(a as int);
    }
    let dx: i128 = dir.x as i128;
    let dy: i128 = dir.y as i128;
    let vx: i128 = v.x as i128;
    let vy: i128 = v.y as i128;
    proof {
        lemma_small_product(dx as int, vx as int);
        lemma_small_product(dy as int, vy as int);
    }
    let x: i128 = dx * vx;
    let y: i128 = dy * vy;
    x + y
}

/// A direction component times a coordinate stays far from the limits of `i128`.
pub proof fn lemma_small_product(d: int, v: int)
    requires
        -0x8000 <= d <= 0x8000,
        i64::MIN <= v <= i64::MAX,
    ensures
        -0x40_0000_0000_0000_0000_0000 <= d * v <= 0x40_0000_0000_0000_0000_0000,
{
    assert(-0x40_0000_0000_0000_0000_0000 <= d * v <= 0x40_0000_0000_0000_0000_0000) by (nonlinear_arith)
        requires
            -0x8000 <= d <= 0x8000,
            -0x8000_0000_0000_0000 <= v <= 0x8000_0000_0000_0000;
}

/// Directions have small coordinates.
pub proof fn lemma_direction_small(a: int)
    ensures
        -0x8000 <= direction_at(a).x <= 0x8000,
        -0x8000 <= direction_at(a).y <= 0x8000,
{
}

} // verus!
