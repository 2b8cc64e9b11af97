use vstd::prelude::*;
use crate::geometry::{MILLIS, Position, Time, Vec2, sat, time_sub, valid_size};
use crate::logic::movement::travel;

verus! {

/// Something short-lived that the client draws over the arena, a particle or a
/// floating text: it drifts at its velocity until its lifetime runs out.
#[derive(Clone, Copy, Debug, PartialEq, Eq, Structural)]
pub struct Particle {
    pub position: Position,
    pub velocity: Vec2,
    pub lifetime: Time,
}

/// A particle after `dt`: moved by its velocity over that time, wrapped onto the
/// arena, with that much less lifetime left.
pub open spec fn aged(p: Particle, size: Vec2, dt: Time) -> Particle {
    Particle {
        position: p.position.shifted_spec(travel(p.velocity, dt), size),
        lifetime: sat(p.lifetime - dt) as i64,
        ..p
    }
}

/// Whether a particle still has lifetime left.
pub open spec fn alive(p: Particle) -> bool {
    p.lifetime > 0
}

/// The particles after `dt`: each one aged, and those whose lifetime has run out
/// dropped; the others keep their order.
pub open spec fn aged_all(ps: Seq<Particle>, size: Vec2, dt: Time) -> Seq<Particle> {
    survivors(ps.map_values(|p: Particle| aged(p, size, dt)))
}

/// The particles that still have lifetime left, in their order.
pub open spec fn survivors(ps: Seq<Particle>) -> Seq<Particle> {
    ps.filter(|p: Particle| alive(p))
}

/// Ages the particles by `dt` (see `aged_all`).
pub fn age_particles(particles: &mut Vec<Particle>, size: Vec2, dt: Time)
    requires
        valid_size(size),
    ensures
        final(particles)@ == aged_all(old(particles)@, size, dt),
{
    let ghost ps: Seq<Particle> = old(particles)@;
    let mut kept: Vec<Particle> = Vec::new();
    let mut k: usize = 0;
    while k < particles.len()
        invariant
            particles@ == ps,
            valid_size(size),
            k <= ps.len(),
            kept@ == aged_all(ps.take(k as int), size, dt),
        decreases ps.len() - k,
    {
        let p: Particle = particles[k];
        let q: Particle = Particle {
            position: p.position.shifted(p.velocity.scale(dt, MILLIS), size),
            lifetime: time_sub(p.lifetime, dt),
            ..p
        };
        proof {
            let s0 = ps.take(k as int).map_values(|p: Particle| aged(p, size, dt));
            let s1 = ps.take(k as int + 1).map_values(|p: Particle| aged(p, size, dt));
            assert(s1.drop_last() =~= s0);
            assert(s1.last() == q);
            reveal(Seq::filter);
            assert(survivors(s1) == (if alive(q) { survivors(s0).push(q) } else { survivors(s0) }));
            assert(aged_all(ps.take(k as int + 1), size, dt) == survivors(s1));
            assert(aged_all(ps.take(k as int), size, dt) == survivors(s0));
        }
        if q.lifetime > 0 {
            kept.push(q);
        }
        k = k + 1;
    }
    proof {
        assert(ps.take(ps.len() as int) =~= ps);
    }
    *particles = kept;
}

} // verus!
