use vstd::prelude::*;
use crate::geometry::{Coord, Vec2};

verus! {

/// The shape of an entity, centred on its position.
#[derive(Clone, Copy, Debug, PartialEq, Eq, Structural)]
pub enum Collider {
    /// An axis-aligned bounding box of the given full size.
    Aabb { size: Vec2 },
}

/// How two overlapping colliders can be pushed apart: along `normal`
/// (a unit vector along one axis) by `penetration`.
#[derive(Clone, Copy, Debug, PartialEq, Eq, Structural)]
pub struct Collision {
    pub normal: Vec2,
    pub penetration: Coord,
}

pub open spec fn abs(a: int) -> int {
    if a < 0 { -a } else { a }
}

impl Collider {
    pub open spec fn size(self) -> Vec2 {
        match self {
            Collider::Aabb { size } => size,
        }
    }

    /// The two boxes, `other` moved by `delta`, overlap with a positive area: on each
    /// axis the distance of the centres is below the sum of the half sizes.
    pub open spec fn overlaps(self, other: Collider, delta: Vec2) -> bool {
        let a = self.size();
        let b = other.size();
        &&& 2 * abs(delta.x as int) < a.x + b.x
        &&& 2 * abs(delta.y as int) < a.y + b.y
    }

    /// Twice the overlap of the boxes along the x axis.
    pub open spec fn overlap2_x(self, other: Collider, delta: Vec2) -> int {
        self.size().x + other.size().x - 2 * abs(delta.x as int)
    }

    pub open spec fn overlap2_y(self, other: Collider, delta: Vec2) -> int {
        self.size().y + other.size().y - 2 * abs(delta.y as int)
    }

    /// The collision of the two boxes: `None` when they do not overlap, else the
    /// axis of least overlap (x on a tie only when the x overlap is smaller),
    /// pointing from `self` towards `other`, with the overlap along it, rounded up so
    /// that a push by it separates the boxes.
    pub open spec fn collision_spec(self, other: Collider, delta: Vec2) -> Option<Collision> {
        let px = self.overlap2_x(other, delta);
        let py = self.overlap2_y(other, delta);
        let nx: i64 = if delta.x > 0 { 1i64 } else { -1i64 };
        let ny: i64 = if delta.y > 0 { 1i64 } else { -1i64 };
        if px <= 0 || py <= 0 {
            None
        } else if px < py {
            Some(Collision { normal: Vec2 { x: nx, y: 0 }, penetration: ((px + 1) / 2) as i64 })
        } else {
            Some(Collision { normal: Vec2 { x: 0, y: ny }, penetration: ((py + 1) / 2) as i64 })
        }
    }

    /// Tells whether the boxes overlap, `other` displaced by `delta_pos` (see `overlaps`).
    pub fn check(&self, other: &Self, delta_pos: Vec2) -> (r: bool)
        ensures
            r == self.overlaps(*other, delta_pos),
    {
        match (self, other) {
            (Collider::Aabb { size: size_a }, Collider::Aabb { size: size_b }) => {
                let dx: i128 = abs_i128(delta_pos.x as i128);
                let dy: i128 = abs_i128(delta_pos.y as i128);
                2 * dx < size_a.x as i128 + size_b.x as i128 && 2 * dy < size_a.y as i128
                    + size_b.y as i128
            },
        }
    }

    /// How the boxes, `other` displaced by `delta_pos`, can be pushed apart (see
    /// `collision_spec`).
    pub fn collision(&self, other: &Self, delta_pos: Vec2) -> (r: Option<Collision>)
        ensures
            r == self.collision_spec(*other, delta_pos),
    {
        match (self, other) {
            (Collider::Aabb { size: size_a }, Collider::Aabb { size: size_b }) => {
                let px: i128 = size_a.x as i128 + size_b.x as i128 - 2 * abs_i128(
                    delta_pos.x as i128,
                );
                let py: i128 = size_a.y as i128 + size_b.y as i128 - 2 * abs_i128(
                    delta_pos.y as i128,
                );
                let nx: i64 = if delta_pos.x > 0 { 1 } else { -1 };
                let ny: i64 = if delta_pos.y > 0 { 1 } else { -1 };
                if px <= 0 || py <= 0 {
                    None
                } else if px < py {
                    Some(Collision { normal: Vec2 { x: nx, y: 0 }, penetration: ((px + 1) / 2) as i64 })
                } else {
                    Some(Collision { normal: Vec2 { x: 0, y: ny }, penetration: ((py + 1) / 2) as i64 })
                }
            },
        }
    }
}

fn abs_i128(a: i128) -> (r: i128)
    requires
        a > i128::MIN,
    ensures
        r == abs(a as int),
{
    if a < 0 { -a } else { a }
}

/// Two colliders collide exactly when they overlap: `collision` finds a collision
/// for the same arguments on which `check` reports one.
pub proof fn lemma_collision_iff_check(a: Collider, b: Collider, delta: Vec2)
    ensures
        a.collision_spec(b, delta).is_some() == a.overlaps(b, delta),
{
}

/// A collision pushes along one axis by a positive amount.
pub proof fn lemma_collision_normal_is_axis(a: Collider, b: Collider, delta: Vec2)
    requires
        a.collision_spec(b, delta).is_some(),
    ensures
        ({
            let c = a.collision_spec(b, delta).unwrap();
            &&& (c.normal.x == 0 && (c.normal.y == 1 || c.normal.y == -1))
                || (c.normal.y == 0 && (c.normal.x == 1 || c.normal.x == -1))
            &&& c.penetration >= 0
        }),
{
}

} // verus!
