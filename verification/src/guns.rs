use vstd::prelude::*;
use crate::collider::Collider;
use crate::config::Config;
use crate::entity::{Keyed, find, has_key, keys_distinct};
use crate::geometry::{Position, Time, UNIT, Vec2, tdiv, trunc_div};
use crate::id::Id;
use crate::model::{DeathInfo, Event, Gun, Human, Model, Projectile};
use crate::rotation::{Rotation, arg_spec, direction_at, normalize};

verus! {

/// The kind of a shot.
pub enum ShotType {
    Normal,
    Heavy,
    Kill,
}

pub open spec fn shot_type(g: Gun, heavy: bool) -> ShotType {
    if heavy {
        if g.attached_human is Some { ShotType::Kill } else { ShotType::Heavy }
    } else {
        ShotType::Normal
    }
}

/// The recoil speed of a shot.
pub open spec fn shot_speed(st: ShotType, c: Config) -> i64 {
    match st {
        ShotType::Normal => c.gun_recoil_speed,
        ShotType::Heavy => c.gun_heavy_recoil_speed,
        ShotType::Kill => c.gun_recoil_attached_speed,
    }
}

/// The ammunition that a shot takes.
pub open spec fn shot_bullets(st: ShotType, c: Config) -> usize {
    match st {
        ShotType::Normal => 1,
        _ => c.gun_heavy_bullets,
    }
}

/// The angle of the `i`-th of `n` heavy bullets from the gun's own angle: evenly
/// spread over `angle`, centred on the gun.
pub open spec fn spread_angle(i: int, n: int, angle: int) -> int {
    crate::geometry::tdiv((2 * i - (n - 1)) * angle, 2 * (n - 1))
}

pub open spec fn gun_direction(g: Gun) -> Vec2 {
    direction_at(g.rotation.angle_spec())
}

/// The size of a projectile.
pub open spec fn projectile_collider() -> Collider {
    Collider::Aabb { size: Vec2 { x: 500, y: 500 } }
}

/// A projectile that leaves the gun's edge along `dir` (the gun's direction for its
/// velocity, `aim` for where it appears).
pub open spec fn bullet(g: Gun, c: Config, id: u64, aim: Vec2, speed: i64, lifetime: i64) -> Projectile {
    let offset = aim.scale_spec(g.collider.size().x as int, 2 * UNIT);
    Projectile {
        id: Id(id),
        caster: g.owner,
        lifetime,
        position: g.position.shifted_spec(offset, c.arena_size),
        velocity: gun_direction(g).scale_spec(speed as int, UNIT as int),
        collider: projectile_collider(),
    }
}

/// The direction of the `k`-th heavy bullet.
pub open spec fn heavy_aim(g: Gun, c: Config, k: int) -> Vec2 {
    direction_at(
        normalize(
            g.rotation.angle_spec() + normalize(
                spread_angle(k, c.gun_heavy_bullets as int, c.gun_heavy_angle as int),
            ),
        ),
    )
}

/// The projectiles that a shot spawns, with identifiers from `next` on.
#[verifier::opaque]
pub open spec fn shot_projectiles(g: Gun, st: ShotType, c: Config, next: u64) -> Seq<Projectile> {
    match st {
        ShotType::Normal => seq![
            bullet(g, c, next, gun_direction(g), c.gun_shoot_speed, c.gun_shoot_lifetime),
        ],
        ShotType::Heavy => Seq::new(
            c.gun_heavy_bullets as nat,
            |k: int|
                bullet(
                    g,
                    c,
                    (next + k) as u64,
                    heavy_aim(g, c, k),
                    c.gun_heavy_speed,
                    c.gun_heavy_lifetime,
                ),
        ),
        ShotType::Kill => seq![],
    }
}

/// The gun after a shot: ammunition spent, recoil against its direction, and let go
/// of its host on a kill.
pub open spec fn shot_gun(g: Gun, st: ShotType, c: Config) -> Gun {
    Gun {
        ammo: (g.ammo - shot_bullets(st, c)) as usize,
        velocity: g.velocity.sub_spec(gun_direction(g).scale_spec(shot_speed(st, c) as int, UNIT as int)),
        attached_human: if st is Kill { None } else { g.attached_human },
        ..g
    }
}

/// A human after a shot of `g`: a kill shot lets go of the host and kills it,
/// with the gun's owner recorded as the killer, so that the owner scores the
/// kill of a human when deaths are counted.
pub open spec fn shot_human(h: Human, g: Gun, st: ShotType) -> Human {
    if st is Kill && g.attached_human == Some(h.id) {
        Human { holding_gun: None, death: Some(DeathInfo { killer: g.owner }), ..h }
    } else {
        h
    }
}

/// The model and events after the gun at index `i` shot.
#[verifier::opaque]
pub open spec fn shot_outcome(m0: Model, m1: Model, i: int, heavy: bool, e0: Seq<Event>, e1: Seq<Event>) -> bool {
    let g = m0.guns@[i];
    let c = m0.config();
    let st = shot_type(g, heavy);
    let next = m0.id_gen.next_spec();
    &&& m1.assets == m0.assets
    &&& m1.state == m0.state
    &&& m1.players@ == m0.players@
    &&& m1.blocks@ == m0.blocks@
    &&& if g.ammo < shot_bullets(st, c) {
        &&& m1.id_gen == m0.id_gen
        &&& m1.guns@ == m0.guns@
        &&& m1.humans@ == m0.humans@
        &&& m1.projectiles@ == m0.projectiles@
        &&& e1 == e0
    } else {
        let new = shot_projectiles(g, st, c, next);
        &&& m1.id_gen.next_spec() == next + new.len()
        &&& m1.guns@ == m0.guns@.update(i, shot_gun(g, st, c))
        &&& m1.humans@ == m0.humans@.map_values(|h: Human| shot_human(h, g, st))
        &&& m1.projectiles@ == m0.projectiles@ + new
        &&& e1 == e0.push(Event::Shoot { position: g.position, direction: gun_direction(g) })
    }
}

/// A gun that a heavy shot would spread over a single bullet, which divides by zero.
pub open spec fn lone_heavy_bullet(m: Model, gun_id: Id) -> bool {
    &&& m.config().gun_heavy_bullets == 1
    &&& exists|i: int|
        0 <= i < m.guns@.len() && (#[trigger] m.guns@[i]).id == gun_id && m.guns@[i].attached_human
            is None && m.guns@[i].ammo >= 1
}

/// The rotation that aims from `from` at `target`.
pub open spec fn aim_rotation(from: Position, target: Position, size: Vec2) -> Rotation {
    Rotation::from_angle(arg_spec(from.direction_spec(target, size)))
}

/// The gun aimed at `target`: around its host when it has one, at the host itself
/// when the target lies within the orbit.
pub open spec fn aimed_gun(g: Gun, humans: Seq<Human>, target: Position, c: Config) -> Gun {
    let size = c.arena_size;
    if g.attached_human is Some && has_key(humans, g.attached_human.unwrap().0) {
        let j = choose|j: int| 0 <= j < humans.len() && #[trigger] humans[j].key() == g.attached_human.unwrap().0;
        let h = humans[j];
        if target.direction_spec(h.position, size).len_sq() <= c.gun_orbit_radius * c.gun_orbit_radius {
            Gun { aiming_at_host: true, rotation: aim_rotation(g.position, target, size), ..g }
        } else {
            Gun { aiming_at_host: false, rotation: aim_rotation(h.position, target, size), ..g }
        }
    } else {
        Gun { aiming_at_host: false, rotation: aim_rotation(g.position, target, size), ..g }
    }
}

fn aim(from: &Position, target: &Position, size: Vec2) -> (r: Rotation)
    requires
        crate::geometry::valid_size(size),
    ensures
        r == aim_rotation(*from, *target, size),
{
    let d: Vec2 = from.direction(target, size);
    let r: Rotation = Rotation::new(d.arg());
    proof {
        let a = arg_spec(from.direction_spec(*target, size));
        Rotation::lemma_from_angle(a);
        Rotation::lemma_eq(r, Rotation::from_angle(a));
    }
    r
}

/// What aiming the gun `gun_id` at `target` does to the model: that gun, if it is
/// there, becomes `aimed_gun`; nothing else changes.
pub open spec fn aim_done(m0: Model, m1: Model, gun_id: Id, target: Position) -> bool {
    &&& m1.id_gen == m0.id_gen
    &&& m1.assets == m0.assets
    &&& m1.state == m0.state
    &&& m1.players@ == m0.players@
    &&& m1.humans@ == m0.humans@
    &&& m1.projectiles@ == m0.projectiles@
    &&& m1.blocks@ == m0.blocks@
    &&& !has_key(m0.guns@, gun_id.0) ==> m1.guns@ == m0.guns@
    &&& forall|i: int|
        0 <= i < m0.guns@.len() && #[trigger] m0.guns@[i].id == gun_id
            ==> m1.guns@ == m0.guns@.update(i, aimed_gun(m0.guns@[i], m0.humans@, target, m0.config()))
}

/// What a shot of the gun `gun_id` does to the model and the events: nothing when
/// the gun is not there, `shot_outcome` when it is.
pub open spec fn shoot_done(m0: Model, e0: Seq<Event>, m1: Model, e1: Seq<Event>, gun_id: Id, heavy: bool) -> bool {
    &&& !has_key(m0.guns@, gun_id.0) ==> {
        &&& m1.id_gen == m0.id_gen
        &&& m1.assets == m0.assets
        &&& m1.state == m0.state
        &&& m1.players@ == m0.players@
        &&& m1.humans@ == m0.humans@
        &&& m1.guns@ == m0.guns@
        &&& m1.projectiles@ == m0.projectiles@
        &&& m1.blocks@ == m0.blocks@
        &&& e1 == e0
    }
    &&& forall|i: int|
        0 <= i < m0.guns@.len() && #[trigger] m0.guns@[i].id == gun_id
            ==> shot_outcome(m0, m1, i, heavy, e0, e1)
}

impl Model {
    /// Turns the gun towards `target` (see `aimed_gun`); nothing happens when no gun
    /// carries `gun_id`.
    pub fn gun_aim(&mut self, gun_id: Id, target: Position)
        requires
            old(self).wf(),
        ensures
            final(self).wf(),
            aim_done(*old(self), *final(self), gun_id, target),
    {
        let config: Config = self.assets.config;
        let size: Vec2 = config.arena_size;
        if let Some(gi) = find(&self.guns, gun_id.0) {
            let mut gun: Gun = self.guns[gi];
            let ghost g0 = gun;
            let mut host: Option<usize> = None;
            if let Some(hid) = gun.attached_human {
                host = find(&self.humans, hid.0);
            }
            match host {
                Some(hj) => {
                    let hpos: Position = self.humans[hj].position;
                    let d2: i128 = target.distance_sq(&hpos, size);
                    let r: i128 = config.gun_orbit_radius as i128;
                    assert(r * r <= 0x100_0000_0000i128 * 0x100_0000_0000i128) by (nonlinear_arith)
                        requires 0 <= r <= 0x100_0000_0000i128;
                    if d2 <= r * r {
                        gun.aiming_at_host = true;
                        gun.rotation = aim(&gun.position, &target, size);
                    } else {
                        gun.aiming_at_host = false;
                        gun.rotation = aim(&hpos, &target, size);
                    }
                    proof {
                        let hid = g0.attached_human.unwrap();
                        let j = choose|j: int| 0 <= j < self.humans@.len() && #[trigger] self.humans@[j].key() == hid.0;
                        crate::entity::lemma_key_index(self.humans@, j, hj as int);
                    }
                },
                None => {
                    gun.aiming_at_host = false;
                    gun.rotation = aim(&gun.position, &target, size);
                },
            }
            proof {
                if host is None && g0.attached_human is Some {
                    assert(!has_key(self.humans@, g0.attached_human.unwrap().0));
                }
            }
            assert(gun == aimed_gun(g0, self.humans@, target, config));
            let ghost m0 = *self;
            self.guns.set(gi, gun);
            proof {
                assert forall|i: int|
                    0 <= i < m0.guns@.len() && #[trigger] m0.guns@[i].id == gun_id implies self.guns@
                    == m0.guns@.update(i, aimed_gun(m0.guns@[i], m0.humans@, target, config)) by {
                    crate::entity::lemma_key_index(m0.guns@, i, gi as int);
                }
                lemma_same_skeleton(m0, *self, gi as int);
            }
        } else {
            proof {
                assert forall|i: int| 0 <= i < self.guns@.len() implies #[trigger] self.guns@[i].id != gun_id by {
                    assert(self.guns@[i].key() != gun_id.0);
                }
            }
        }
    }
}

fn make_bullet(g: &Gun, c: &Config, id: Id, aim: Vec2, speed: i64, lifetime: Time) -> (p: Projectile)
    requires
        c.wf(),
    ensures
        p == bullet(*g, *c, id.0, aim, speed, lifetime),
{
    let size: Vec2 = match g.collider {
        Collider::Aabb { size } => size,
    };
    let offset: Vec2 = aim.scale(size.x, 2 * UNIT);
    Projectile {
        id,
        caster: g.owner,
        lifetime,
        position: g.position.shifted(offset, c.arena_size),
        velocity: g.rotation.direction().scale(speed, UNIT),
        collider: Collider::Aabb { size: Vec2 { x: 500, y: 500 } },
    }
}

fn spread(k: usize, c: &Config) -> (a: i64)
    requires
        c.wf(),
        k < c.gun_heavy_bullets,
        c.gun_heavy_bullets != 1,
    ensures
        a == spread_angle(k as int, c.gun_heavy_bullets as int, c.gun_heavy_angle as int),
{
    let n: i128 = c.gun_heavy_bullets as i128;
    let f: i128 = 2 * (k as i128) - (n - 1);
    let ang: i128 = c.gun_heavy_angle as i128;
    assert(-(n - 1) <= f <= n - 1);
    assert(n >= 2);
    let d: i128 = 2 * (n - 1);
    let ghost e: int = if ang >= 0 { ang as int } else { -ang };
    assert(-(e * d) <= f * ang <= e * d) by (nonlinear_arith)
        requires -(n - 1) <= f <= n - 1, d == 2 * (n - 1), n >= 2, e >= 0, e == ang || e == -ang;
    assert(0 <= e * d <= 0x100_0000_0000 * 0x2_0000_0000) by (nonlinear_arith)
        requires 0 <= e <= 0x100_0000_0000, 0 < d <= 0x2_0000_0000;
    let q: i128 = trunc_div(f * ang, d);
    assert(-0x100_0000_0000 <= q <= 0x100_0000_0000) by {
        let p: int = f * ang;
        vstd::arithmetic::div_mod::lemma_div_multiples_vanish(e, d as int);
        if p >= 0 {
            vstd::arithmetic::div_mod::lemma_div_is_ordered(p, e * d, d as int);
            vstd::arithmetic::div_mod::lemma_div_pos_is_pos(p, d as int);
        } else {
            vstd::arithmetic::div_mod::lemma_div_is_ordered(-p, e * d, d as int);
            vstd::arithmetic::div_mod::lemma_div_pos_is_pos(-p, d as int);
        }
    }
    q as i64
}

impl Model {
    /// Fires the gun (see `shot_outcome`): a normal shot spends one bullet and spawns
    /// one projectile; a heavy shot spends a magazine's worth of bullets and spawns a
    /// spread of them; a heavy shot of an attached gun kills its host instead. Each
    /// shot pushes the gun back and is reported. Without enough ammunition, or
    /// without a gun that carries `gun_id`, nothing happens.
    #[verifier::spinoff_prover]
    #[verifier::rlimit(40)]
    pub fn gun_shoot(&mut self, gun_id: Id, heavy: bool, events: &mut Vec<Event>)
        requires
            old(self).wf(),
            old(self).id_gen.next_spec() + old(self).config().gun_heavy_bullets + 1 <= u64::MAX,
            !(heavy && lone_heavy_bullet(*old(self), gun_id)),
        ensures
            final(self).wf(),
            shoot_done(*old(self), old(events)@, *final(self), final(events)@, gun_id, heavy),
    {
        let ghost m0 = *self;
        let ghost e0 = events@;
        let config: Config = self.assets.config;
        let gi: usize = match find(&self.guns, gun_id.0) {
            Some(gi) => gi,
            None => {
                proof {
                    assert forall|i: int| 0 <= i < self.guns@.len() implies #[trigger] self.guns@[i].id != gun_id by {
                        assert(self.guns@[i].key() != gun_id.0);
                    }
                }
                return;
            },
        };
        proof {
            assert forall|i: int| 0 <= i < m0.guns@.len() && #[trigger] m0.guns@[i].id == gun_id implies i == gi as int by {
                crate::entity::lemma_key_index(m0.guns@, i, gi as int);
            }
        }
        let mut gun: Gun = self.guns[gi];
        let ghost g0 = gun;
        let kind: ShotType = if heavy {
            if gun.attached_human.is_some() { ShotType::Kill } else { ShotType::Heavy }
        } else {
            ShotType::Normal
        };
        let (speed, bullets): (i64, usize) = match kind {
            ShotType::Normal => (config.gun_recoil_speed, 1),
            ShotType::Heavy => (config.gun_heavy_recoil_speed, config.gun_heavy_bullets),
            ShotType::Kill => (config.gun_recoil_attached_speed, config.gun_heavy_bullets),
        };
        assert(kind == shot_type(g0, heavy));
        if gun.ammo < bullets {
            proof { reveal(shot_outcome); }
            return;
        }
        gun.ammo = gun.ammo - bullets;
        let direction: Vec2 = gun.rotation.direction();
        gun.velocity = gun.velocity.sub(direction.scale(speed, UNIT));
        let ghost next = m0.id_gen.next_spec();
        match kind {
            ShotType::Normal => {
                self.fire_normal(&gun, direction, &config);
            },
            ShotType::Heavy => {
                proof {
                    if config.gun_heavy_bullets == 1 {
                        assert(lone_heavy_bullet(m0, gun_id)) by {
                            assert(m0.guns@[gi as int].id == gun_id);
                        }
                    }
                }
                self.fire_heavy(&gun, &config);
            },
            ShotType::Kill => {
                let hid: Id = gun.attached_human.unwrap();
                gun.attached_human = None;
                self.kill_host(hid, gun.owner);
                proof {
                    assert(self.humans@ =~= m0.humans@.map_values(|h: Human| shot_human(h, g0, kind)));
                    lemma_kill_spawns_nothing(g0, config, next);
                    assert(self.projectiles@ =~= m0.projectiles@ + shot_projectiles(g0, kind, config, next));
                }
            },
        }
        events.push(Event::Shoot { position: gun.position, direction });
        let ghost m1 = *self;
        self.guns.set(gi, gun);
        proof {
            assert(gun == shot_gun(g0, kind, config));
            if !(kind is Kill) {
                assert(self.humans@ =~= m0.humans@.map_values(|h: Human| shot_human(h, g0, kind)));
            }
            lemma_shot_len(g0, kind, config, next);
            lemma_shot_depends_on_aim(g0, gun, kind, config, next);
            reveal(shot_outcome);
            assert(self.guns@ =~= m0.guns@.update(gi as int, shot_gun(g0, kind, config)));
            assert(self.humans@ == m0.humans@.map_values(|h: Human| shot_human(h, g0, kind)));
            assert(self.projectiles@ == m0.projectiles@ + shot_projectiles(g0, kind, config, next));
            assert(self.id_gen.next_spec() == next + shot_projectiles(g0, kind, config, next).len());
            assert(events@ == e0.push(Event::Shoot { position: g0.position, direction: gun_direction(g0) }));
            assert(shot_outcome(m0, *self, gi as int, heavy, e0, events@));
            lemma_shot_wf(m0, *self, gi as int, kind);
        }
    }
}

impl Model {
    fn fire_normal(&mut self, gun: &Gun, direction: Vec2, config: &Config)
        requires
            config.wf(),
            old(self).id_gen.next_spec() < u64::MAX,
            direction == gun_direction(*gun),
        ensures
            final(self).id_gen.next_spec() == old(self).id_gen.next_spec() + 1,
            final(self).projectiles@ == old(self).projectiles@ + shot_projectiles(*gun, ShotType::Normal, *config, old(self).id_gen.next_spec()),
            final(self).assets == old(self).assets,
            final(self).state == old(self).state,
            final(self).players@ == old(self).players@,
            final(self).humans@ == old(self).humans@,
            final(self).guns@ == old(self).guns@,
            final(self).blocks@ == old(self).blocks@,
    {
        let id: Id = self.id_gen.next();
        let p: Projectile = make_bullet(gun, config, id, direction, config.gun_shoot_speed, config.gun_shoot_lifetime);
        self.projectiles.push(p);
        proof {
            reveal(shot_projectiles);
            assert(self.projectiles@ =~= old(self).projectiles@ + shot_projectiles(*gun, ShotType::Normal, *config, old(self).id_gen.next_spec()));
        }
    }

    fn fire_heavy(&mut self, gun: &Gun, config: &Config)
        requires
            config.wf(),
            config.gun_heavy_bullets != 1,
            old(self).id_gen.next_spec() + config.gun_heavy_bullets + 1 <= u64::MAX,
        ensures
            final(self).id_gen.next_spec() == old(self).id_gen.next_spec() + config.gun_heavy_bullets,
            final(self).projectiles@ == old(self).projectiles@ + shot_projectiles(*gun, ShotType::Heavy, *config, old(self).id_gen.next_spec()),
            final(self).assets == old(self).assets,
            final(self).state == old(self).state,
            final(self).players@ == old(self).players@,
            final(self).humans@ == old(self).humans@,
            final(self).guns@ == old(self).guns@,
            final(self).blocks@ == old(self).blocks@,
    {
        let ghost next = self.id_gen.next_spec();
        let ghost q0 = self.projectiles@;
        let ghost all = shot_projectiles(*gun, ShotType::Heavy, *config, next);
        proof {
            reveal(shot_projectiles);
            assert(all.len() == config.gun_heavy_bullets);
        }
        let mut k: usize = 0;
        while k < config.gun_heavy_bullets
            invariant
                k <= config.gun_heavy_bullets,
                config.wf(),
                config.gun_heavy_bullets != 1,
                next + config.gun_heavy_bullets + 1 <= u64::MAX,
                all == shot_projectiles(*gun, ShotType::Heavy, *config, next),
                all.len() == config.gun_heavy_bullets,
                self.id_gen.next_spec() == next + k,
                self.projectiles@ == q0 + all.take(k as int),
                self.assets == old(self).assets,
                self.state == old(self).state,
                self.players@ == old(self).players@,
                self.humans@ == old(self).humans@,
                self.guns@ == old(self).guns@,
                self.blocks@ == old(self).blocks@,
            decreases config.gun_heavy_bullets - k,
        {
            let a: i64 = spread(k, config);
            let rot: Rotation = gun.rotation.add(Rotation::new(a));
            let id: Id = self.id_gen.next();
            let p: Projectile = make_bullet(gun, config, id, rot.direction(), config.gun_heavy_speed, config.gun_heavy_lifetime);
            self.projectiles.push(p);
            proof {
                reveal(shot_projectiles);
                assert(p == all[k as int]);
                assert(all.take(k as int + 1) =~= all.take(k as int).push(p));
                assert(self.projectiles@ =~= q0 + all.take(k as int + 1));
            }
            k = k + 1;
        }
        proof {
            assert(all.take(k as int) =~= all);
        }
    }

    fn kill_host(&mut self, hid: Id, killer: Option<crate::id::PlayerId>)
        requires
            keys_distinct(old(self).humans@),
        ensures
            final(self).humans@.len() == old(self).humans@.len(),
            forall|x: int| 0 <= x < old(self).humans@.len() ==> #[trigger] final(self).humans@[x] == (
                if old(self).humans@[x].id == hid {
                    Human { holding_gun: None, death: Some(DeathInfo { killer }), ..old(self).humans@[x] }
                } else {
                    old(self).humans@[x]
                }),
            final(self).id_gen == old(self).id_gen,
            final(self).projectiles@ == old(self).projectiles@,
            final(self).assets == old(self).assets,
            final(self).state == old(self).state,
            final(self).players@ == old(self).players@,
            final(self).guns@ == old(self).guns@,
            final(self).blocks@ == old(self).blocks@,
    {
        if let Some(hj) = find(&self.humans, hid.0) {
            let mut h: Human = self.humans[hj];
            h.holding_gun = None;
            h.death = Some(DeathInfo { killer });
            self.humans.set(hj, h);
            proof {
                assert forall|x: int| 0 <= x < old(self).humans@.len() && x != hj as int implies old(self).humans@[x].id != hid by {
                    assert(old(self).humans@[x].key() != old(self).humans@[hj as int].key());
                }
            }
        } else {
            proof {
                assert forall|x: int| 0 <= x < old(self).humans@.len() implies old(self).humans@[x].id != hid by {
                    assert(old(self).humans@[x].key() != hid.0);
                }
            }
        }
    }
}

/// What a shot spawns depends on the gun's position, shape, owner and aim only.
proof fn lemma_shot_depends_on_aim(g: Gun, g2: Gun, st: ShotType, c: Config, next: u64)
    requires
        g.position == g2.position,
        g.collider == g2.collider,
        g.owner == g2.owner,
        g.rotation == g2.rotation,
    ensures
        shot_projectiles(g, st, c, next) == shot_projectiles(g2, st, c, next),
{
    reveal(shot_projectiles);
    assert(shot_projectiles(g, st, c, next) =~= shot_projectiles(g2, st, c, next));
}

proof fn lemma_kill_spawns_nothing(g: Gun, c: Config, next: u64)
    ensures
        shot_projectiles(g, ShotType::Kill, c, next) == Seq::<Projectile>::empty(),
{
    reveal(shot_projectiles);
}

proof fn lemma_shot_len(g: Gun, st: ShotType, c: Config, next: u64)
    ensures
        shot_projectiles(g, st, c, next).len() == match st {
            ShotType::Normal => 1nat,
            ShotType::Heavy => c.gun_heavy_bullets as nat,
            ShotType::Kill => 0nat,
        },
{
    reveal(shot_projectiles);
}

/// A shot keeps the invariant.
proof fn lemma_shot_wf(m0: Model, m1: Model, i: int, st: ShotType)
    requires
        m0.wf(),
        0 <= i < m0.guns@.len(),
        st == shot_type(m0.guns@[i], st is Kill || st is Heavy),
        m0.guns@[i].ammo >= shot_bullets(st, m0.config()),
        m1.assets == m0.assets,
        m1.players@ == m0.players@,
        m1.blocks@ == m0.blocks@,
        m1.id_gen.next_spec() == m0.id_gen.next_spec() + shot_projectiles(m0.guns@[i], st, m0.config(), m0.id_gen.next_spec()).len(),
        m1.guns@ == m0.guns@.update(i, shot_gun(m0.guns@[i], st, m0.config())),
        m1.humans@ == m0.humans@.map_values(|h: Human| shot_human(h, m0.guns@[i], st)),
        m1.projectiles@ == m0.projectiles@ + shot_projectiles(m0.guns@[i], st, m0.config(), m0.id_gen.next_spec()),
    ensures
        m1.wf(),
{
    let g = m0.guns@[i];
    let c = m0.config();
    let next = m0.id_gen.next_spec();
    let n1 = m1.id_gen.next_spec();
    let new = shot_projectiles(g, st, c, next);
    reveal(shot_projectiles);
    let h0 = m0.humans@;
    let h1 = m1.humans@;
    let g0 = m0.guns@;
    let g1 = m1.guns@;
    // New projectiles carry fresh, distinct identifiers and lie on the arena.
    assert forall|k: int| 0 <= k < new.len() implies #[trigger] new[k].key() == next + k
        && new[k].position.in_arena(c.arena_size) by {
        let off = if st is Normal { gun_direction(g) } else { heavy_aim(g, c, k) };
        let o = off.scale_spec(g.collider.size().x as int, 2 * UNIT);
        assert(new[k].position == g.position.shifted_spec(o, c.arena_size));
        vstd::arithmetic::div_mod::lemma_mod_bound(g.position.x + o.x, c.arena_size.x as int);
        vstd::arithmetic::div_mod::lemma_mod_bound(g.position.y + o.y, c.arena_size.y as int);
    }
    let q = m1.projectiles@;
    let q0 = m0.projectiles@;
    assert forall|x: int, y: int| 0 <= x < q.len() && 0 <= y < q.len() && x != y implies #[trigger] q[x].key() != #[trigger] q[y].key() by {
        if x < q0.len() && y < q0.len() {
            assert(q0[x].key() != q0[y].key());
        } else if x < q0.len() {
            assert(q0[x].key() < next);
            assert(q[y] == new[y - q0.len()]);
        } else if y < q0.len() {
            assert(q0[y].key() < next);
            assert(q[x] == new[x - q0.len()]);
        } else {
            assert(q[x] == new[x - q0.len()]);
            assert(q[y] == new[y - q0.len()]);
        }
    }
    assert forall|x: int| 0 <= x < q.len() implies #[trigger] q[x].key() < n1 && q[x].position.in_arena(c.arena_size) by {
        if x < q0.len() {
            assert(q0[x].key() < next);
        } else {
            assert(q[x] == new[x - q0.len()]);
        }
    }
    assert forall|x: int| 0 <= x < g1.len() implies #[trigger] g1[x].id == g0[x].id && g1[x].position == g0[x].position by {
    }
    assert forall|x: int, y: int| 0 <= x < g1.len() && 0 <= y < g1.len() && x != y implies #[trigger] g1[x].key() != #[trigger] g1[y].key() by {
        assert(g0[x].key() != g0[y].key());
    }
    assert forall|x: int| 0 <= x < g1.len() implies #[trigger] g1[x].key() < n1 by {
        assert(g0[x].key() < next);
    }
    assert forall|x: int| 0 <= x < h1.len() implies #[trigger] h1[x].id == h0[x].id && h1[x].position == h0[x].position by {
    }
    assert forall|x: int, y: int| 0 <= x < h1.len() && 0 <= y < h1.len() && x != y implies #[trigger] h1[x].key() != #[trigger] h1[y].key() by {
        assert(h0[x].key() != h0[y].key());
    }
    assert forall|x: int| 0 <= x < h1.len() implies #[trigger] h1[x].key() < n1 by {
        assert(h0[x].key() < next);
    }
    assert forall|x: int| 0 <= x < m1.players@.len() implies #[trigger] m1.players@[x].key() < n1 by {
        assert(m0.players@[x].key() < next);
    }
    // The links.
    assert forall|x: int| 0 <= x < g1.len() && (#[trigger] g1[x]).attached_human is Some
        implies has_key(h1, g1[x].attached_human.unwrap().0) by {
        assert(g0[x].attached_human == g1[x].attached_human);
        let hid = g1[x].attached_human.unwrap();
        let a = choose|a: int| 0 <= a < h0.len() && #[trigger] h0[a].key() == hid.0;
        assert(h1[a].key() == hid.0);
    }
    assert forall|x: int, y: int| 0 <= x < g1.len() && 0 <= y < h1.len() implies ((#[trigger] g1[x]).attached_human
        == Some((#[trigger] h1[y]).id) <==> h1[y].holding_gun == Some(g1[x].id)) by {
        assert(g0[x].attached_human == Some(h0[y].id) <==> h0[y].holding_gun == Some(g0[x].id));
        if st is Kill && g.attached_human == Some(h0[y].id) {
            // The host lets go of the gun, and no other gun was attached to it.
            if x != i && g0[x].attached_human == Some(h0[y].id) {
                assert(h0[y].holding_gun == Some(g0[i].id));
                assert(g0[x].key() == g0[i].key());
            }
        } else if st is Kill && x == i {
            if h0[y].holding_gun == Some(g0[i].id) {
                assert(g0[i].attached_human == Some(h0[y].id));
            }
        } else {
            assert(h1[y] == h0[y]);
        }
    }
}

/// Changing a gun's aim, ammunition or velocity keeps the invariant.
proof fn lemma_same_skeleton(m0: Model, m1: Model, i: int)
    requires
        m0.wf(),
        0 <= i < m0.guns@.len(),
        m1.id_gen == m0.id_gen,
        m1.assets == m0.assets,
        m1.players@ == m0.players@,
        m1.humans@ == m0.humans@,
        m1.projectiles@ == m0.projectiles@,
        m1.blocks@ == m0.blocks@,
        m1.guns@.len() == m0.guns@.len(),
        forall|k: int| 0 <= k < m0.guns@.len() && k != i ==> #[trigger] m1.guns@[k] == m0.guns@[k],
        m1.guns@[i].id == m0.guns@[i].id,
        m1.guns@[i].position == m0.guns@[i].position,
        m1.guns@[i].attached_human == m0.guns@[i].attached_human,
    ensures
        m1.wf(),
{
    let g0 = m0.guns@;
    let g1 = m1.guns@;
    assert forall|x: int| 0 <= x < g1.len() implies #[trigger] g1[x].id == g0[x].id
        && g1[x].position == g0[x].position && g1[x].attached_human == g0[x].attached_human by {
        if x != i {
            assert(g1[x] == g0[x]);
        }
    }
    assert forall|x: int, y: int|
        0 <= x < g1.len() && 0 <= y < g1.len() && x != y implies #[trigger] g1[x].key() != #[trigger] g1[y].key() by {
        assert(g0[x].key() != g0[y].key());
    }
}

} // verus!
