use vstd::prelude::*;
use crate::config::Config;
use crate::entity::{Keyed, find, has_key};
use crate::geometry::{MILLIS, Position, Time, UNIT, Vec2, clamp_to_unit, clamp_unit, sat, saturate, tdiv, trunc_div};
use crate::logic::Logic;
use crate::model::{Gun, Human, Model, Projectile};
use crate::rotation::direction_at;

verus! {

/// The slowdown of a velocity over `dt`: its direction (its value when slower than
/// one unit per second) times the friction.
pub open spec fn friction(v: Vec2, f: i64, dt: Time) -> Vec2 {
    let c = clamp_unit(v);
    Vec2 {
        x: sat(tdiv(c.x * f * dt, UNIT * MILLIS)) as i64,
        y: sat(tdiv(c.y * f * dt, UNIT * MILLIS)) as i64,
    }
}

/// The offset that a velocity covers in `dt`.
pub open spec fn travel(v: Vec2, dt: Time) -> Vec2 {
    v.scale_spec(dt as int, MILLIS as int)
}

/// The human that a gun is attached to.
pub open spec fn host_of(g: Gun, humans: Seq<Human>) -> Human {
    let j = choose|j: int| 0 <= j < humans.len() && #[trigger] humans[j].key() == g.attached_human.unwrap().0;
    humans[j]
}

/// A gun after moving for `dt`: an attached gun sits on its orbit around the host
/// (on the far side when it aims at the host) and stands still; a free gun slows
/// down by friction and moves by its velocity.
pub open spec fn moved_gun(g: Gun, humans: Seq<Human>, c: Config, dt: Time) -> Gun {
    let size = c.arena_size;
    if g.attached_human is Some && has_key(humans, g.attached_human.unwrap().0) {
        let h = host_of(g, humans);
        let r: int = if g.aiming_at_host { -c.gun_orbit_radius } else { c.gun_orbit_radius as int };
        let offset = direction_at(g.rotation.angle_spec()).scale_spec(r, UNIT as int);
        Gun { position: h.position.shifted_spec(offset, size), velocity: Vec2 { x: 0, y: 0 }, ..g }
    } else {
        let v = g.velocity.sub_spec(friction(g.velocity, c.gun_friction, dt));
        Gun { position: g.position.shifted_spec(travel(v, dt), size), velocity: v, ..g }
    }
}

pub open spec fn moved_projectile(q: Projectile, size: Vec2, dt: Time) -> Projectile {
    Projectile { position: q.position.shifted_spec(travel(q.velocity, dt), size), ..q }
}

fn friction_of(v: Vec2, f: i64, dt: Time) -> (r: Vec2)
    requires
        0 <= f <= crate::config::FACTOR_LIMIT,
    ensures
        r == friction(v, f, dt),
{
    let c: Vec2 = clamp_to_unit(v);
    let fi: i128 = f as i128;
    let di: i128 = dt as i128;
    assert(-0x2000_0000_0000_0000_0000_0000 <= fi * di <= 0x2000_0000_0000_0000_0000_0000) by (nonlinear_arith)
        requires 0 <= fi <= 0x4000_0000, -0x8000_0000_0000_0000 <= di <= 0x8000_0000_0000_0000;
    let fd: i128 = fi * di;
    let cx: i128 = c.x as i128;
    let cy: i128 = c.y as i128;
    assert(-0x100_0000_0000_0000_0000_0000_0000 <= cx * fd <= 0x100_0000_0000_0000_0000_0000_0000) by (nonlinear_arith)
        requires -1000 <= cx <= 1000, -0x2000_0000_0000_0000_0000_0000 <= fd <= 0x2000_0000_0000_0000_0000_0000;
    assert(-0x100_0000_0000_0000_0000_0000_0000 <= cy * fd <= 0x100_0000_0000_0000_0000_0000_0000) by (nonlinear_arith)
        requires -1000 <= cy <= 1000, -0x2000_0000_0000_0000_0000_0000 <= fd <= 0x2000_0000_0000_0000_0000_0000;
    assert(cx * fd == c.x * f * dt) by (nonlinear_arith) requires fd == f * dt, cx == c.x;
    assert(cy * fd == c.y * f * dt) by (nonlinear_arith) requires fd == f * dt, cy == c.y;
    let x: i128 = trunc_div(cx * fd, (UNIT * MILLIS) as i128);
    let y: i128 = trunc_div(cy * fd, (UNIT * MILLIS) as i128);
    Vec2 { x: saturate(x), y: saturate(y) }
}

/// What movement does to a step: guns and projectiles move (see `moved_gun` and
/// `moved_projectile`), nothing else changes.
pub open spec fn movement_step(l0: Logic, l1: Logic) -> bool {
    &&& l1.delta_time == l0.delta_time
    &&& l1.events@ == l0.events@
    &&& l1.model.id_gen == l0.model.id_gen
    &&& l1.model.state == l0.model.state
    &&& l1.model.assets == l0.model.assets
    &&& l1.model.players@ == l0.model.players@
    &&& l1.model.humans@ == l0.model.humans@
    &&& l1.model.blocks@ == l0.model.blocks@
    &&& l1.model.guns@ == l0.model.guns@.map_values(
        |g: Gun| moved_gun(g, l0.model.humans@, l0.model.config(), l0.delta_time),
    )
    &&& l1.model.projectiles@ == l0.model.projectiles@.map_values(
        |q: Projectile| moved_projectile(q, l0.model.arena(), l0.delta_time),
    )
}

impl Logic {
    /// Moves the guns and the projectiles (see `moved_gun` and `moved_projectile`).
    pub fn process_movement(&mut self)
        requires
            old(self).model.wf(),
        ensures
            final(self).model.wf(),
            movement_step(*old(self), *final(self)),
    {
        let config: Config = self.model.assets.config;
        let size: Vec2 = config.arena_size;
        let dt: Time = self.delta_time;
        let ghost m0 = self.model;
        let mut i: usize = 0;
        while i < self.model.guns.len()
            invariant
                i <= m0.guns@.len(),
                config == m0.config(),
                config.wf(),
                size == config.arena_size,
                dt == old(self).delta_time,
                self.delta_time == dt,
                self.events@ == old(self).events@,
                self.model.id_gen == m0.id_gen,
                self.model.state == m0.state,
                self.model.assets == m0.assets,
                self.model.players@ == m0.players@,
                self.model.humans@ == m0.humans@,
                self.model.projectiles@ == m0.projectiles@,
                self.model.blocks@ == m0.blocks@,
                self.model.guns@.len() == m0.guns@.len(),
                crate::entity::keys_distinct(m0.humans@),
                forall|k: int| 0 <= k < i ==> #[trigger] self.model.guns@[k] == moved_gun(m0.guns@[k], m0.humans@, config, dt),
                forall|k: int| i <= k < m0.guns@.len() ==> #[trigger] self.model.guns@[k] == m0.guns@[k],
            decreases m0.guns@.len() - i,
        {
            let mut gun: Gun = self.model.guns[i];
            let ghost g0 = gun;
            let mut host: Option<usize> = None;
            if let Some(hid) = gun.attached_human {
                host = find(&self.model.humans, hid.0);
            }
            match host {
                Some(hj) => {
                    let hpos: Position = self.model.humans[hj].position;
                    let r: i64 = if gun.aiming_at_host { -config.gun_orbit_radius } else { config.gun_orbit_radius };
                    let offset: Vec2 = gun.rotation.direction().scale(r, UNIT);
                    gun.position = hpos.shifted(offset, size);
                    gun.velocity = Vec2 { x: 0, y: 0 };
                    proof {
                        let hid = g0.attached_human.unwrap();
                        let j = choose|j: int| 0 <= j < m0.humans@.len() && #[trigger] m0.humans@[j].key() == hid.0;
                        crate::entity::lemma_key_index(m0.humans@, j, hj as int);
                    }
                },
                None => {
                    let slow: Vec2 = friction_of(gun.velocity, config.gun_friction, dt);
                    gun.velocity = gun.velocity.sub(slow);
                    gun.position = gun.position.shifted(gun.velocity.scale(dt, MILLIS), size);
                    proof {
                        if g0.attached_human is Some {
                            assert(!has_key(m0.humans@, g0.attached_human.unwrap().0));
                        }
                    }
                },
            }
            assert(gun == moved_gun(g0, m0.humans@, config, dt));
            self.model.guns.set(i, gun);
            i = i + 1;
        }
        let mut k: usize = 0;
        while k < self.model.projectiles.len()
            invariant
                k <= m0.projectiles@.len(),
                config == m0.config(),
                config.wf(),
                size == config.arena_size,
                dt == old(self).delta_time,
                self.delta_time == dt,
                self.events@ == old(self).events@,
                self.model.id_gen == m0.id_gen,
                self.model.state == m0.state,
                self.model.assets == m0.assets,
                self.model.players@ == m0.players@,
                self.model.humans@ == m0.humans@,
                self.model.blocks@ == m0.blocks@,
                self.model.guns@ == m0.guns@.map_values(|g: Gun| moved_gun(g, m0.humans@, config, dt)),
                self.model.projectiles@.len() == m0.projectiles@.len(),
                forall|x: int| 0 <= x < k ==> #[trigger] self.model.projectiles@[x] == moved_projectile(m0.projectiles@[x], size, dt),
                forall|x: int| k <= x < m0.projectiles@.len() ==> #[trigger] self.model.projectiles@[x] == m0.projectiles@[x],
            decreases m0.projectiles@.len() - k,
        {
            proof {
                if k == 0 {
                    assert(self.model.guns@ =~= m0.guns@.map_values(|g: Gun| moved_gun(g, m0.humans@, config, dt)));
                }
            }
            let mut q: Projectile = self.model.projectiles[k];
            q.position = q.position.shifted(q.velocity.scale(dt, MILLIS), size);
            self.model.projectiles.set(k, q);
            k = k + 1;
        }
        proof {
            assert(self.model.guns@ =~= m0.guns@.map_values(|g: Gun| moved_gun(g, m0.humans@, config, dt)));
            assert(self.model.projectiles@ =~= m0.projectiles@.map_values(|q: Projectile| moved_projectile(q, size, dt)));
            lemma_movement_wf(m0, self.model, dt);
        }
    }
}

proof fn lemma_movement_wf(m0: Model, m1: Model, dt: Time)
    requires
        m0.wf(),
        m1.id_gen == m0.id_gen,
        m1.assets == m0.assets,
        m1.players@ == m0.players@,
        m1.humans@ == m0.humans@,
        m1.blocks@ == m0.blocks@,
        m1.guns@ == m0.guns@.map_values(|g: Gun| moved_gun(g, m0.humans@, m0.config(), dt)),
        m1.projectiles@ == m0.projectiles@.map_values(|q: Projectile| moved_projectile(q, m0.arena(), dt)),
    ensures
        m1.wf(),
{
    let size = m0.arena();
    let mid = Model { projectiles: m0.projectiles, ..m1 };
    assert forall|k: int| 0 <= k < m0.guns@.len() implies (#[trigger] m1.guns@[k]).id == m0.guns@[k].id
        && m1.guns@[k].attached_human == m0.guns@[k].attached_human
        && m1.guns@[k].position.in_arena(m0.arena()) by {
        let g = m0.guns@[k];
        assert(m1.guns@[k] == moved_gun(g, m0.humans@, m0.config(), dt));
        crate::geometry::lemma_shifted_in_arena_all(size);
    }
    crate::logic::lemma_guns_moved(m0, mid);
    let q0 = m0.projectiles@;
    let q1 = m1.projectiles@;
    assert forall|x: int, y: int| 0 <= x < q1.len() && 0 <= y < q1.len() && x != y implies #[trigger] q1[x].key() != #[trigger] q1[y].key() by {
        assert(q0[x].key() != q0[y].key());
    }
    assert forall|x: int| 0 <= x < q1.len() implies #[trigger] q1[x].key() < m0.id_gen.next_spec()
        && q1[x].position.in_arena(size) by {
        assert(q0[x].key() < m0.id_gen.next_spec());
        crate::geometry::lemma_shifted_in_arena_all(size);
    }
}

} // verus!
