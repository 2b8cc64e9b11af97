use vstd::prelude::*;
use std::collections::HashMap;
use crate::config::LENGTH_LIMIT;
use crate::geometry::{Position, Time, Vec2, valid_size};
use crate::interpolation::{FRAME_LIMIT, Interpolation};
use crate::model::{Gun, Human, Model, Projectile};

verus! {

broadcast use vstd::std_specs::hash::group_hash_axioms;

/// An entity of the model as the client smooths it: the number of its
/// identifier, where it is and how it moves.
#[derive(Clone, Copy, Debug, PartialEq, Eq, Structural)]
pub struct Motion {
    pub id: u64,
    pub position: Position,
    pub velocity: Vec2,
}

pub open spec fn projectile_motion(q: Projectile) -> Motion {
    Motion { id: q.id.0, position: q.position, velocity: q.velocity }
}

pub open spec fn human_motion(h: Human) -> Motion {
    Motion { id: h.id.0, position: h.position, velocity: h.velocity }
}

pub open spec fn gun_motion(g: Gun) -> Motion {
    Motion { id: g.id.0, position: g.position, velocity: g.velocity }
}

/// The entities that the client smooths: the projectiles, then the humans, then
/// the guns, each in the order of the model.
pub open spec fn motions(m: Model) -> Seq<Motion> {
    m.projectiles@.map_values(|q: Projectile| projectile_motion(q))
        + m.humans@.map_values(|h: Human| human_motion(h))
        + m.guns@.map_values(|g: Gun| gun_motion(g))
}

/// The interpolations after smoothing the entities `es` in turn: each entity's
/// interpolation, started where the entity is if it has none yet, steps towards
/// the entity.
pub open spec fn smoothed(m: Map<u64, Interpolation>, es: Seq<Motion>, dt: Time, size: Vec2) -> Map<u64, Interpolation>
    decreases es.len(),
{
    if es.len() == 0 {
        m
    } else {
        let m0 = smoothed(m, es.drop_last(), dt, size);
        let e = es.last();
        let i = if m0.contains_key(e.id) { m0[e.id] } else { Interpolation::fresh(e.position, e.velocity) };
        m0.insert(e.id, i.stepped(dt, e.position, e.velocity, size))
    }
}

/// Every interpolation of the map stands on the arena.
pub open spec fn all_on_arena(m: Map<u64, Interpolation>, size: Vec2) -> bool {
    forall|k: u64| #[trigger] m.contains_key(k) ==> m[k].position_spec().in_arena(size)
}

/// The entities of the model that the client smooths (see `motions`).
pub fn model_motions(model: &Model) -> (r: Vec<Motion>)
    ensures
        r@ == motions(*model),
{
    let mut r: Vec<Motion> = Vec::new();
    let mut k: usize = 0;
    while k < model.projectiles.len()
        invariant
            k <= model.projectiles@.len(),
            r@ == model.projectiles@.take(k as int).map_values(|q: Projectile| projectile_motion(q)),
        decreases model.projectiles@.len() - k,
    {
        let q: &Projectile = &model.projectiles[k];
        r.push(Motion { id: q.id.0, position: q.position, velocity: q.velocity });
        k = k + 1;
        assert(r@ =~= model.projectiles@.take(k as int).map_values(|q: Projectile| projectile_motion(q)));
    }
    assert(model.projectiles@.take(k as int) =~= model.projectiles@);
    let ghost a: Seq<Motion> = r@;
    k = 0;
    while k < model.humans.len()
        invariant
            k <= model.humans@.len(),
            r@ == a + model.humans@.take(k as int).map_values(|h: Human| human_motion(h)),
        decreases model.humans@.len() - k,
    {
        let h: &Human = &model.humans[k];
        r.push(Motion { id: h.id.0, position: h.position, velocity: h.velocity });
        k = k + 1;
        assert(r@ =~= a + model.humans@.take(k as int).map_values(|h: Human| human_motion(h)));
    }
    assert(model.humans@.take(k as int) =~= model.humans@);
    let ghost b: Seq<Motion> = r@;
    k = 0;
    while k < model.guns.len()
        invariant
            k <= model.guns@.len(),
            r@ == b + model.guns@.take(k as int).map_values(|g: Gun| gun_motion(g)),
        decreases model.guns@.len() - k,
    {
        let g: &Gun = &model.guns[k];
        r.push(Motion { id: g.id.0, position: g.position, velocity: g.velocity });
        k = k + 1;
        assert(r@ =~= b + model.guns@.take(k as int).map_values(|g: Gun| gun_motion(g)));
    }
    assert(model.guns@.take(k as int) =~= model.guns@);
    assert(r@ =~= motions(*model));
    r
}

/// Steps the interpolation of each of the entities `es` in turn (see
/// `smoothed`), starting one where an entity has none yet.
pub fn smooth(interpolations: &mut HashMap<u64, Interpolation>, es: &Vec<Motion>, dt: Time, size: Vec2)
    requires
        valid_size(size),
        size.x <= LENGTH_LIMIT,
        size.y <= LENGTH_LIMIT,
        -FRAME_LIMIT <= dt <= FRAME_LIMIT,
        forall|x: int| 0 <= x < es@.len() ==> (#[trigger] es@[x]).position.in_arena(size),
        all_on_arena(old(interpolations)@, size),
    ensures
        final(interpolations)@ == smoothed(old(interpolations)@, es@, dt, size),
        all_on_arena(final(interpolations)@, size),
{
    let ghost m0: Map<u64, Interpolation> = old(interpolations)@;
    let mut k: usize = 0;
    while k < es.len()
        invariant
            k <= es@.len(),
            valid_size(size),
            size.x <= LENGTH_LIMIT,
            size.y <= LENGTH_LIMIT,
            -FRAME_LIMIT <= dt <= FRAME_LIMIT,
            forall|x: int| 0 <= x < es@.len() ==> (#[trigger] es@[x]).position.in_arena(size),
            interpolations@ == smoothed(m0, es@.take(k as int), dt, size),
            all_on_arena(interpolations@, size),
        decreases es@.len() - k,
    {
        let e: Motion = es[k];
        let mut i: Interpolation = match interpolations.get(&e.id) {
            Some(found) => *found,
            None => Interpolation::new(e.position, e.velocity),
        };
        proof {
            assert(es@[k as int] == e);
        }
        i.update(dt, e.position, e.velocity, size);
        interpolations.insert(e.id, i);
        proof {
            assert(es@.take(k as int + 1).drop_last() =~= es@.take(k as int));
            assert(es@.take(k as int + 1).last() == e);
        }
        k = k + 1;
    }
    proof {
        assert(es@.take(es@.len() as int) =~= es@);
    }
}

/// Steps the displayed interpolations of all the model's entities by the time
/// that passed (see `smooth` and `motions`).
pub fn interpolate(interpolations: &mut HashMap<u64, Interpolation>, model: &Model, dt: Time)
    requires
        model.wf(),
        -FRAME_LIMIT <= dt <= FRAME_LIMIT,
        all_on_arena(old(interpolations)@, model.arena()),
    ensures
        final(interpolations)@ == smoothed(old(interpolations)@, motions(*model), dt, model.arena()),
        all_on_arena(final(interpolations)@, model.arena()),
{
    let es: Vec<Motion> = model_motions(model);
    let size: Vec2 = model.assets.config.arena_size;
    proof {
        assert forall|x: int| 0 <= x < es@.len() implies (#[trigger] es@[x]).position.in_arena(size) by {
            let np = model.projectiles@.len() as int;
            let nh = model.humans@.len() as int;
            if x < np {
                assert(model.projectiles@[x].position.in_arena(size));
            } else if x < np + nh {
                assert(model.humans@[x - np].position.in_arena(size));
            } else {
                assert(model.guns@[x - np - nh].position.in_arena(size));
            }
        }
    }
    smooth(interpolations, &es, dt, size);
}

} // verus!
