use vstd::prelude::*;
use rand::Rng;

verus! {

/// Draws a number from `low..=high` with `rand::thread_rng().gen_range`.
/// rand's documentation promises a value in the range and a panic for an empty
/// range, which `requires` rules out. Which value comes out is left open: it
/// depends on chance.
#[verifier::external_body]
pub(crate) fn random_range(low: i64, high: i64) -> (r: i64)
    requires
        low <= high,
    ensures
        low <= r <= high,
{
    rand::thread_rng().gen_range(low..=high)
}

} // verus!

verus! {

impl crate::geometry::Position {
    /// A point of the arena drawn at random.
    pub fn random(size: crate::geometry::Vec2) -> (p: crate::geometry::Position)
        requires
            crate::geometry::valid_size(size),
        ensures
            p.in_arena(size),
    {
        let x: i64 = random_range(0, size.x - 1);
        let y: i64 = random_range(0, size.y - 1);
        crate::geometry::Position { x, y }
    }
}

} // verus!
