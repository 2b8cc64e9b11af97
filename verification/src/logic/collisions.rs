use vstd::prelude::*;
use crate::entity::{Keyed, find, first_index, has_key, keys_distinct, lemma_first_index_is, lemma_first_index_none, lemma_first_index_range};
use crate::geometry::Vec2;
use crate::logic::Logic;
use crate::model::{DeathInfo, Gun, Human, Model, Projectile};

verus! {

/// The projectile hits a living human.
pub open spec fn hits_human(q: Projectile, h: Human, size: Vec2) -> bool {
    h.death is None && q.collider.overlaps(h.collider, q.position.direction_spec(h.position, size))
}

/// The projectile hits a gun.
pub open spec fn hits_gun(q: Projectile, g: Gun, size: Vec2) -> bool {
    q.collider.overlaps(g.collider, q.position.direction_spec(g.position, size))
}

pub open spec fn human_hit_pred(q: Projectile, hs: Seq<Human>, size: Vec2) -> spec_fn(int) -> bool {
    |k: int| hits_human(q, hs[k], size)
}

pub open spec fn gun_hit_pred(q: Projectile, gs: Seq<Gun>, size: Vec2) -> spec_fn(int) -> bool {
    |k: int| hits_gun(q, gs[k], size)
}

/// One projectile against the humans and the guns: it kills the first living human
/// it overlaps, and the first gun it overlaps, and each hit ends it.
pub open spec fn projectile_step(q: Projectile, hs: Seq<Human>, gs: Seq<Gun>, size: Vec2) -> (Projectile, Seq<Human>, Seq<Gun>) {
    let j = first_index(human_hit_pred(q, hs, size), hs.len() as int);
    let hs1 = if j >= 0 { hs.update(j, Human { death: Some(DeathInfo { killer: q.caster }), ..hs[j] }) } else { hs };
    let q1 = if j >= 0 { Projectile { lifetime: 0, ..q } } else { q };
    let i = first_index(gun_hit_pred(q, gs, size), gs.len() as int);
    let gs1 = if i >= 0 { gs.update(i, Gun { death: Some(DeathInfo { killer: q.caster }), ..gs[i] }) } else { gs };
    let q2 = if i >= 0 { Projectile { lifetime: 0, ..q1 } } else { q1 };
    (q2, hs1, gs1)
}

/// The first `k` projectiles, in order, against the humans and the guns.
pub open spec fn projectile_fold(qs: Seq<Projectile>, hs: Seq<Human>, gs: Seq<Gun>, size: Vec2, k: nat) -> (Seq<Projectile>, Seq<Human>, Seq<Gun>)
    decreases k,
{
    if k == 0 {
        (qs, hs, gs)
    } else {
        let prev = projectile_fold(qs, hs, gs, size, (k - 1) as nat);
        let step = projectile_step(prev.0[k - 1], prev.1, prev.2, size);
        (prev.0.update(k - 1, step.0), step.1, step.2)
    }
}

/// The fold over the projectiles keeps the lengths of the collections.
pub proof fn lemma_projectile_fold_len(qs: Seq<Projectile>, hs: Seq<Human>, gs: Seq<Gun>, size: Vec2, k: nat)
    requires
        k <= qs.len(),
    ensures
        ({
            let r = projectile_fold(qs, hs, gs, size, k);
            r.0.len() == qs.len() && r.1.len() == hs.len() && r.2.len() == gs.len()
        }),
    decreases k,
{
    if k > 0 {
        lemma_projectile_fold_len(qs, hs, gs, size, (k - 1) as nat);
        let prev = projectile_fold(qs, hs, gs, size, (k - 1) as nat);
        let q = prev.0[k - 1];
        lemma_first_index_range(human_hit_pred(q, prev.1, size), prev.1.len() as int);
        lemma_first_index_range(gun_hit_pred(q, prev.2, size), prev.2.len() as int);
    }
}

fn first_human_hit(q: &Projectile, hs: &Vec<Human>, size: Vec2) -> (r: Option<usize>)
    requires
        crate::geometry::valid_size(size),
    ensures
        r matches Some(j) ==> first_index(human_hit_pred(*q, hs@, size), hs@.len() as int) == j as int,
        r is None ==> first_index(human_hit_pred(*q, hs@, size), hs@.len() as int) == -1,
{
    let ghost p = human_hit_pred(*q, hs@, size);
    let mut j: usize = 0;
    while j < hs.len()
        invariant
            j <= hs@.len(),
            p == human_hit_pred(*q, hs@, size),
            crate::geometry::valid_size(size),
            forall|k: int| 0 <= k < j ==> !#[trigger] p(k),
        decreases hs@.len() - j,
    {
        let h: Human = hs[j];
        if h.death.is_none() && q.collider.check(&h.collider, q.position.direction(&h.position, size)) {
            proof {
                assert(p(j as int));
                lemma_first_index_is(p, hs@.len() as int, j as int);
            }
            return Some(j);
        }
        j = j + 1;
    }
    proof {
        lemma_first_index_none(p, hs@.len() as int);
    }
    None
}

fn first_gun_hit(q: &Projectile, gs: &Vec<Gun>, size: Vec2) -> (r: Option<usize>)
    requires
        crate::geometry::valid_size(size),
    ensures
        r matches Some(i) ==> first_index(gun_hit_pred(*q, gs@, size), gs@.len() as int) == i as int,
        r is None ==> first_index(gun_hit_pred(*q, gs@, size), gs@.len() as int) == -1,
{
    let ghost p = gun_hit_pred(*q, gs@, size);
    let mut i: usize = 0;
    while i < gs.len()
        invariant
            i <= gs@.len(),
            p == gun_hit_pred(*q, gs@, size),
            crate::geometry::valid_size(size),
            forall|k: int| 0 <= k < i ==> !#[trigger] p(k),
        decreases gs@.len() - i,
    {
        let g: Gun = gs[i];
        if q.collider.check(&g.collider, q.position.direction(&g.position, size)) {
            proof {
                assert(p(i as int));
                lemma_first_index_is(p, gs@.len() as int, i as int);
            }
            return Some(i);
        }
        i = i + 1;
    }
    proof {
        lemma_first_index_none(p, gs@.len() as int);
    }
    None
}

impl Logic {
    /// Projectiles against humans and guns (see `projectile_fold`).
    pub fn projectile_collisions(&mut self)
        requires
            old(self).model.config().wf(),
        ensures
            ({
                let r = projectile_fold(
                    old(self).model.projectiles@,
                    old(self).model.humans@,
                    old(self).model.guns@,
                    old(self).model.arena(),
                    old(self).model.projectiles@.len(),
                );
                &&& final(self).model.projectiles@ == r.0
                &&& final(self).model.humans@ == r.1
                &&& final(self).model.guns@ == r.2
            }),
            final(self).delta_time == old(self).delta_time,
            final(self).events@ == old(self).events@,
            final(self).model.id_gen == old(self).model.id_gen,
            final(self).model.state == old(self).model.state,
            final(self).model.assets == old(self).model.assets,
            final(self).model.players@ == old(self).model.players@,
            final(self).model.blocks@ == old(self).model.blocks@,
    {
        let size: Vec2 = self.model.assets.config.arena_size;
        let ghost m0 = self.model;
        let mut k: usize = 0;
        while k < self.model.projectiles.len()
            invariant
                k <= m0.projectiles@.len(),
                size == m0.arena(),
                m0.config().wf(),
                self.delta_time == old(self).delta_time,
                self.events@ == old(self).events@,
                self.model.id_gen == m0.id_gen,
                self.model.state == m0.state,
                self.model.assets == m0.assets,
                self.model.players@ == m0.players@,
                self.model.blocks@ == m0.blocks@,
                ({
                    let r = projectile_fold(m0.projectiles@, m0.humans@, m0.guns@, size, k as nat);
                    &&& self.model.projectiles@ == r.0
                    &&& self.model.humans@ == r.1
                    &&& self.model.guns@ == r.2
                }),
            decreases m0.projectiles@.len() - k,
        {
            proof {
                lemma_projectile_fold_len(m0.projectiles@, m0.humans@, m0.guns@, size, k as nat);
            }
            let mut q: Projectile = self.model.projectiles[k];
            let q0: Projectile = q;
            let ghost hs0 = self.model.humans@;
            let ghost gs0 = self.model.guns@;
            if let Some(j) = first_human_hit(&q0, &self.model.humans, size) {
                let mut h: Human = self.model.humans[j];
                h.death = Some(DeathInfo { killer: q0.caster });
                self.model.humans.set(j, h);
                q.lifetime = 0;
            }
            if let Some(i) = first_gun_hit(&q0, &self.model.guns, size) {
                let mut g: Gun = self.model.guns[i];
                g.death = Some(DeathInfo { killer: q0.caster });
                self.model.guns.set(i, g);
                q.lifetime = 0;
            }
            self.model.projectiles.set(k, q);
            proof {
                lemma_first_index_range(human_hit_pred(q0, hs0, size), hs0.len() as int);
                lemma_first_index_range(gun_hit_pred(q0, gs0, size), gs0.len() as int);
                let step = projectile_step(q0, hs0, gs0, size);
                assert(q == step.0);
                assert(self.model.humans@ == step.1);
                assert(self.model.guns@ == step.2);
            }
            k = k + 1;
        }
        proof {
            lemma_projectile_fold_len(m0.projectiles@, m0.humans@, m0.guns@, size, k as nat);
        }
    }
}

} // verus!

verus! {

/// The free gun can attach to the human: the human lives, holds nothing, is not
/// knocked out, and overlaps the gun.
pub open spec fn can_grab(g: Gun, h: Human, size: Vec2) -> bool {
    &&& h.death is None
    &&& h.holding_gun is None
    &&& h.knock_out_timer is None
    &&& g.collider.overlaps(h.collider, g.position.direction_spec(h.position, size))
}

pub open spec fn grab_pred(g: Gun, hs: Seq<Human>, size: Vec2) -> spec_fn(int) -> bool {
    |k: int| can_grab(g, hs[k], size)
}

/// The position of the human with the given identifier.
pub open spec fn human_index(hs: Seq<Human>, hid: crate::id::Id) -> int {
    choose|j: int| 0 <= j < hs.len() && #[trigger] hs[j].key() == hid.0
}

/// The gun at index `i` against the humans: an attached gun whose host died lets
/// go of it; a free gun attaches to the first human it can grab.
pub open spec fn gun_human_step(gs: Seq<Gun>, hs: Seq<Human>, i: int, size: Vec2) -> (Seq<Gun>, Seq<Human>) {
    let g = gs[i];
    match g.attached_human {
        Some(hid) => {
            if has_key(hs, hid.0) {
                let j = human_index(hs, hid);
                if hs[j].death is None {
                    (gs, hs)
                } else {
                    (
                        gs.update(i, Gun { attached_human: None, ..g }),
                        hs.update(j, Human { holding_gun: None, ..hs[j] }),
                    )
                }
            } else {
                (gs.update(i, Gun { attached_human: None, ..g }), hs)
            }
        },
        None => {
            let j = first_index(grab_pred(g, hs, size), hs.len() as int);
            if j >= 0 {
                (
                    gs.update(i, Gun { attached_human: Some(hs[j].id), ..g }),
                    hs.update(j, Human { holding_gun: Some(g.id), ..hs[j] }),
                )
            } else {
                (gs, hs)
            }
        },
    }
}

/// The first `k` guns, in order, against the humans.
pub open spec fn gun_human_fold(gs: Seq<Gun>, hs: Seq<Human>, size: Vec2, k: nat) -> (Seq<Gun>, Seq<Human>)
    decreases k,
{
    if k == 0 {
        (gs, hs)
    } else {
        let prev = gun_human_fold(gs, hs, size, (k - 1) as nat);
        gun_human_step(prev.0, prev.1, k - 1, size)
    }
}

/// What the gun-human step keeps: identifiers, places and the links.
pub open spec fn gh_ok(gs0: Seq<Gun>, hs0: Seq<Human>, gs: Seq<Gun>, hs: Seq<Human>) -> bool {
    &&& gs.len() == gs0.len()
    &&& hs.len() == hs0.len()
    &&& forall|x: int| 0 <= x < gs.len() ==> (#[trigger] gs[x]).id == gs0[x].id && gs[x].position == gs0[x].position
    &&& forall|x: int| 0 <= x < hs.len() ==> (#[trigger] hs[x]).id == hs0[x].id && hs[x].position == hs0[x].position
    &&& keys_distinct(gs)
    &&& keys_distinct(hs)
    &&& crate::model::links_ok(hs, gs)
    &&& forall|x: int| 0 <= x < hs.len() ==> ((#[trigger] hs[x]).holding_gun matches Some(g)
        ==> hs[x].holding_gun == hs0[x].holding_gun || has_key(gs0, g.0))
}

proof fn lemma_gun_human_step_ok(gs0: Seq<Gun>, hs0: Seq<Human>, gs: Seq<Gun>, hs: Seq<Human>, i: int, size: Vec2)
    requires
        gh_ok(gs0, hs0, gs, hs),
        0 <= i < gs.len(),
    ensures
        gh_ok(gs0, hs0, gun_human_step(gs, hs, i, size).0, gun_human_step(gs, hs, i, size).1),
{
    let g = gs[i];
    let r = gun_human_step(gs, hs, i, size);
    let g1 = r.0;
    let h1 = r.1;
    match g.attached_human {
        Some(hid) => {
            if has_key(hs, hid.0) {
                let j = human_index(hs, hid);
                assert(0 <= j < hs.len() && hs[j].key() == hid.0);
                if hs[j].death is Some {
                    assert(hs[j].holding_gun == Some(g.id));
                    assert forall|x: int, y: int| 0 <= x < g1.len() && 0 <= y < h1.len() implies ((#[trigger] g1[x]).attached_human
                        == Some((#[trigger] h1[y]).id) <==> h1[y].holding_gun == Some(g1[x].id)) by {
                        assert(gs[x].attached_human == Some(hs[y].id) <==> hs[y].holding_gun == Some(gs[x].id));
                        if y == j && x != i && gs[x].attached_human == Some(hs[j].id) {
                            assert(gs[x].key() == gs[i].key());
                        }
                        if x == i && y != j && hs[y].holding_gun == Some(gs[i].id) {
                            assert(hs[y].key() == hs[j].key());
                        }
                    }
                    assert forall|x: int| 0 <= x < g1.len() && (#[trigger] g1[x]).attached_human is Some
                        implies has_key(h1, g1[x].attached_human.unwrap().0) by {
                        let a = choose|a: int| 0 <= a < hs.len() && #[trigger] hs[a].key() == g1[x].attached_human.unwrap().0;
                        assert(h1[a].key() == hs[a].key());
                    }
                }
            } else {
                assert(false);
            }
        },
        None => {
            let j = first_index(grab_pred(g, hs, size), hs.len() as int);
            lemma_first_index_range(grab_pred(g, hs, size), hs.len() as int);
            if j >= 0 {
                assert(can_grab(g, hs[j], size));
                assert forall|x: int, y: int| 0 <= x < g1.len() && 0 <= y < h1.len() implies ((#[trigger] g1[x]).attached_human
                    == Some((#[trigger] h1[y]).id) <==> h1[y].holding_gun == Some(g1[x].id)) by {
                    assert(gs[x].attached_human == Some(hs[y].id) <==> hs[y].holding_gun == Some(gs[x].id));
                    if x == i && y != j {
                        assert(hs[y].key() != hs[j].key());
                    }
                    if x != i && y == j {
                        assert(gs[x].key() != gs[i].key());
                    }
                }
                assert forall|x: int| 0 <= x < g1.len() && (#[trigger] g1[x]).attached_human is Some
                    implies has_key(h1, g1[x].attached_human.unwrap().0) by {
                    if x == i {
                        assert(h1[j].key() == hs[j].key());
                    } else {
                        let a = choose|a: int| 0 <= a < hs.len() && #[trigger] hs[a].key() == g1[x].attached_human.unwrap().0;
                        assert(h1[a].key() == hs[a].key());
                    }
                }
            }
        },
    }
    assert forall|x: int, y: int| 0 <= x < g1.len() && 0 <= y < g1.len() && x != y implies #[trigger] g1[x].key() != #[trigger] g1[y].key() by {
        assert(gs[x].key() != gs[y].key());
    }
    assert forall|x: int, y: int| 0 <= x < h1.len() && 0 <= y < h1.len() && x != y implies #[trigger] h1[x].key() != #[trigger] h1[y].key() by {
        assert(hs[x].key() != hs[y].key());
    }
    assert forall|x: int| 0 <= x < h1.len() implies ((#[trigger] h1[x]).holding_gun matches Some(gg)
        ==> h1[x].holding_gun == hs0[x].holding_gun || has_key(gs0, gg.0)) by {
        if h1[x].holding_gun != hs[x].holding_gun && h1[x].holding_gun is Some {
            assert(gs0[i].key() == gs[i].key());
        }
    }
}

proof fn lemma_gun_human_fold_ok(gs: Seq<Gun>, hs: Seq<Human>, size: Vec2, k: nat)
    requires
        gh_ok(gs, hs, gs, hs),
        k <= gs.len(),
    ensures
        gh_ok(gs, hs, gun_human_fold(gs, hs, size, k).0, gun_human_fold(gs, hs, size, k).1),
    decreases k,
{
    if k > 0 {
        lemma_gun_human_fold_ok(gs, hs, size, (k - 1) as nat);
        let prev = gun_human_fold(gs, hs, size, (k - 1) as nat);
        lemma_gun_human_step_ok(gs, hs, prev.0, prev.1, k - 1, size);
    }
}

fn first_grab(g: &Gun, hs: &Vec<Human>, size: Vec2) -> (r: Option<usize>)
    requires
        crate::geometry::valid_size(size),
    ensures
        r matches Some(j) ==> first_index(grab_pred(*g, hs@, size), hs@.len() as int) == j as int,
        r is None ==> first_index(grab_pred(*g, hs@, size), hs@.len() as int) == -1,
{
    let ghost p = grab_pred(*g, hs@, size);
    let mut j: usize = 0;
    while j < hs.len()
        invariant
            j <= hs@.len(),
            p == grab_pred(*g, hs@, size),
            crate::geometry::valid_size(size),
            forall|k: int| 0 <= k < j ==> !#[trigger] p(k),
        decreases hs@.len() - j,
    {
        let h: Human = hs[j];
        if h.death.is_none() && h.holding_gun.is_none() && h.knock_out_timer.is_none()
            && g.collider.check(&h.collider, g.position.direction(&h.position, size)) {
            proof {
                assert(p(j as int));
                lemma_first_index_is(p, hs@.len() as int, j as int);
            }
            return Some(j);
        }
        j = j + 1;
    }
    proof {
        lemma_first_index_none(p, hs@.len() as int);
    }
    None
}

impl Logic {
    /// Guns against humans (see `gun_human_fold`).
    pub fn gun_human_collisions(&mut self)
        requires
            old(self).model.config().wf(),
            gh_ok(old(self).model.guns@, old(self).model.humans@, old(self).model.guns@, old(self).model.humans@),
        ensures
            ({
                let r = gun_human_fold(old(self).model.guns@, old(self).model.humans@, old(self).model.arena(), old(self).model.guns@.len());
                &&& final(self).model.guns@ == r.0
                &&& final(self).model.humans@ == r.1
            }),
            gh_ok(old(self).model.guns@, old(self).model.humans@, final(self).model.guns@, final(self).model.humans@),
            final(self).delta_time == old(self).delta_time,
            final(self).events@ == old(self).events@,
            final(self).model.id_gen == old(self).model.id_gen,
            final(self).model.state == old(self).model.state,
            final(self).model.assets == old(self).model.assets,
            final(self).model.players@ == old(self).model.players@,
            final(self).model.projectiles@ == old(self).model.projectiles@,
            final(self).model.blocks@ == old(self).model.blocks@,
    {
        let size: Vec2 = self.model.assets.config.arena_size;
        let ghost m0 = self.model;
        let mut i: usize = 0;
        while i < self.model.guns.len()
            invariant
                i <= m0.guns@.len(),
                size == m0.arena(),
                m0.config().wf(),
                gh_ok(m0.guns@, m0.humans@, m0.guns@, m0.humans@),
                self.delta_time == old(self).delta_time,
                self.events@ == old(self).events@,
                self.model.id_gen == m0.id_gen,
                self.model.state == m0.state,
                self.model.assets == m0.assets,
                self.model.players@ == m0.players@,
                self.model.projectiles@ == m0.projectiles@,
                self.model.blocks@ == m0.blocks@,
                ({
                    let r = gun_human_fold(m0.guns@, m0.humans@, size, i as nat);
                    &&& self.model.guns@ == r.0
                    &&& self.model.humans@ == r.1
                }),
                gh_ok(m0.guns@, m0.humans@, self.model.guns@, self.model.humans@),
            decreases m0.guns@.len() - i,
        {
            let ghost gs = self.model.guns@;
            let ghost hs = self.model.humans@;
            let mut g: Gun = self.model.guns[i];
            match g.attached_human {
                Some(hid) => {
                    match find(&self.model.humans, hid.0) {
                        Some(j) => {
                            proof {
                                let jj = human_index(hs, hid);
                                crate::entity::lemma_key_index(hs, jj, j as int);
                            }
                            if self.model.humans[j].death.is_some() {
                                let mut h: Human = self.model.humans[j];
                                h.holding_gun = None;
                                self.model.humans.set(j, h);
                                g.attached_human = None;
                                self.model.guns.set(i, g);
                            }
                        },
                        None => {
                            g.attached_human = None;
                            self.model.guns.set(i, g);
                        },
                    }
                },
                None => {
                    if let Some(j) = first_grab(&g, &self.model.humans, size) {
                        let mut h: Human = self.model.humans[j];
                        h.holding_gun = Some(g.id);
                        self.model.humans.set(j, h);
                        g.attached_human = Some(h.id);
                        self.model.guns.set(i, g);
                    }
                    proof {
                        lemma_first_index_range(grab_pred(gs[i as int], hs, size), hs.len() as int);
                    }
                },
            }
            proof {
                let step = gun_human_step(gs, hs, i as int, size);
                assert(self.model.guns@ == step.0);
                assert(self.model.humans@ == step.1);
                lemma_gun_human_step_ok(m0.guns@, m0.humans@, gs, hs, i as int, size);
            }
            i = i + 1;
        }
    }
}

} // verus!

verus! {

/// Half of a penetration, rounded up so that two halves make up the whole.
pub open spec fn half_up(p: int) -> int {
    (p + 1) / 2
}

/// Half of a collision's push, rounded away from zero.
pub open spec fn half_push(c: crate::collider::Collision) -> Vec2 {
    Vec2 {
        x: (c.normal.x * half_up(c.penetration as int)) as i64,
        y: (c.normal.y * half_up(c.penetration as int)) as i64,
    }
}

/// Half of a penetration along one axis, with its sign.
fn half_axis(n: i64, p: i64) -> (r: i64)
    requires
        n == 0 || n == 1 || n == -1,
        p >= 0,
    ensures
        r == n * half_up(p as int),
        r > i64::MIN,
{
    let h: i64 = p / 2 + p % 2;
    if n == 0 {
        0
    } else if n == 1 {
        h
    } else {
        -h
    }
}

/// The offset that pushes a gun out of another by half their overlap.
fn half_push_of(c: &crate::collider::Collision) -> (v: Vec2)
    requires
        (c.normal.x == 0 && (c.normal.y == 1 || c.normal.y == -1)) || (c.normal.y == 0 && (c.normal.x == 1
            || c.normal.x == -1)),
        c.penetration >= 0,
    ensures
        v == half_push(*c),
        v.x > i64::MIN,
        v.y > i64::MIN,
{
    Vec2 { x: half_axis(c.normal.x, c.penetration), y: half_axis(c.normal.y, c.penetration) }
}

/// Guns `i` and `j` against each other: overlapping guns are pushed apart by half
/// the overlap each, rounded up, and swap their velocities.
pub open spec fn gun_pair_step(gs: Seq<Gun>, i: int, j: int, size: Vec2) -> Seq<Gun> {
    let a = gs[i];
    let b = gs[j];
    match a.collider.collision_spec(b.collider, a.position.direction_spec(b.position, size)) {
        Some(c) => {
            let off = half_push(c);
            let back = Vec2 { x: -off.x as i64, y: -off.y as i64 };
            gs.update(j, Gun { position: b.position.shifted_spec(off, size), velocity: a.velocity, ..b })
              .update(i, Gun { position: a.position.shifted_spec(back, size), velocity: b.velocity, ..a })
        },
        None => gs,
    }
}

/// Gun `i` against the guns after it, up to `j`.
pub open spec fn gun_row(gs: Seq<Gun>, i: int, j: int, size: Vec2) -> Seq<Gun>
    decreases j - i,
{
    if j <= i + 1 {
        gs
    } else {
        gun_pair_step(gun_row(gs, i, j - 1, size), i, j - 1, size)
    }
}

/// Every pair of the first `i` guns with the guns after them.
pub open spec fn gun_rows(gs: Seq<Gun>, i: int, size: Vec2) -> Seq<Gun>
    decreases i,
{
    if i <= 0 {
        gs
    } else {
        let prev = gun_rows(gs, i - 1, size);
        gun_row(prev, i - 1, gs.len() as int, size)
    }
}

/// The velocities of the guns, in order.
pub open spec fn velocities(gs: Seq<Gun>) -> Seq<Vec2> {
    gs.map_values(|g: Gun| g.velocity)
}

proof fn lemma_pair_velocities(gs: Seq<Gun>, i: int, j: int, size: Vec2)
    requires
        0 <= i < j < gs.len(),
    ensures
        gun_pair_step(gs, i, j, size).len() == gs.len(),
        velocities(gun_pair_step(gs, i, j, size)).to_multiset() == velocities(gs).to_multiset(),
{
    broadcast use vstd::seq_lib::group_to_multiset_ensures;
    broadcast use vstd::multiset::group_multiset_axioms;

    let a = gs[i];
    let b = gs[j];
    let v = velocities(gs);
    match a.collider.collision_spec(b.collider, a.position.direction_spec(b.position, size)) {
        Some(c) => {
            let r = gun_pair_step(gs, i, j, size);
            let v1 = v.update(j, a.velocity);
            let v2 = v1.update(i, b.velocity);
            assert(velocities(r) =~= v2);
            assert(v1.to_multiset() == v.to_multiset().insert(a.velocity).remove(b.velocity));
            assert(v2.to_multiset() == v1.to_multiset().insert(b.velocity).remove(a.velocity));
            assert(v.to_multiset().count(b.velocity) > 0) by {
                assert(v[j] == b.velocity);
            }
            assert(v2.to_multiset() =~= v.to_multiset());
        },
        None => {},
    }
}

proof fn lemma_row_velocities(gs: Seq<Gun>, i: int, j: int, size: Vec2)
    requires
        0 <= i < gs.len(),
        j <= gs.len(),
    ensures
        gun_row(gs, i, j, size).len() == gs.len(),
        velocities(gun_row(gs, i, j, size)).to_multiset() == velocities(gs).to_multiset(),
    decreases j - i,
{
    if j > i + 1 {
        lemma_row_velocities(gs, i, j - 1, size);
        lemma_pair_velocities(gun_row(gs, i, j - 1, size), i, j - 1, size);
    }
}

/// Pushing guns apart swaps the velocities of the guns that collide and keeps the
/// guns in place: the velocities, counted with repetition, are the same.
pub proof fn lemma_rows_velocities(gs: Seq<Gun>, i: int, size: Vec2)
    requires
        i <= gs.len(),
    ensures
        gun_rows(gs, i, size).len() == gs.len(),
        velocities(gun_rows(gs, i, size)).to_multiset() == velocities(gs).to_multiset(),
    decreases i,
{
    if i > 0 {
        lemma_rows_velocities(gs, i - 1, size);
        lemma_row_velocities(gun_rows(gs, i - 1, size), i - 1, gs.len() as int, size);
    }
}

/// What pushing guns apart keeps: identifiers, attachments, and places on the arena.
pub open spec fn gg_ok(gs0: Seq<Gun>, gs: Seq<Gun>, size: Vec2) -> bool {
    &&& gs.len() == gs0.len()
    &&& forall|x: int| 0 <= x < gs.len() ==> (#[trigger] gs[x]).id == gs0[x].id
        && gs[x].attached_human == gs0[x].attached_human && gs[x].position.in_arena(size)
}

proof fn lemma_pair_ok(gs0: Seq<Gun>, gs: Seq<Gun>, i: int, j: int, size: Vec2)
    requires
        gg_ok(gs0, gs, size),
        crate::geometry::valid_size(size),
        0 <= i < j < gs.len(),
    ensures
        gg_ok(gs0, gun_pair_step(gs, i, j, size), size),
{
    crate::geometry::lemma_shifted_in_arena_all(size);
    let r = gun_pair_step(gs, i, j, size);
    assert forall|x: int| 0 <= x < r.len() implies (#[trigger] r[x]).id == gs0[x].id
        && r[x].attached_human == gs0[x].attached_human && r[x].position.in_arena(size) by {
        assert(gs[x].id == gs0[x].id);
    }
}

proof fn lemma_row_ok(gs0: Seq<Gun>, gs: Seq<Gun>, i: int, j: int, size: Vec2)
    requires
        gg_ok(gs0, gs, size),
        crate::geometry::valid_size(size),
        0 <= i < gs.len(),
        j <= gs.len(),
    ensures
        gg_ok(gs0, gun_row(gs, i, j, size), size),
    decreases j - i,
{
    if j > i + 1 {
        lemma_row_ok(gs0, gs, i, j - 1, size);
        lemma_pair_ok(gs0, gun_row(gs, i, j - 1, size), i, j - 1, size);
    }
}

pub proof fn lemma_rows_ok(gs: Seq<Gun>, i: int, size: Vec2)
    requires
        gg_ok(gs, gs, size),
        crate::geometry::valid_size(size),
        i <= gs.len(),
    ensures
        gg_ok(gs, gun_rows(gs, i, size), size),
    decreases i,
{
    if i > 0 {
        lemma_rows_ok(gs, i - 1, size);
        lemma_row_ok(gs, gun_rows(gs, i - 1, size), i - 1, gs.len() as int, size);
    }
}

impl Logic {
    /// Guns against each other, pair by pair in order (see `gun_rows`).
    pub fn gun_gun_collisions(&mut self)
        requires
            old(self).model.config().wf(),
            gg_ok(old(self).model.guns@, old(self).model.guns@, old(self).model.arena()),
        ensures
            final(self).model.guns@ == gun_rows(old(self).model.guns@, old(self).model.guns@.len() as int, old(self).model.arena()),
            gg_ok(old(self).model.guns@, final(self).model.guns@, old(self).model.arena()),
            final(self).delta_time == old(self).delta_time,
            final(self).events@ == old(self).events@,
            final(self).model.id_gen == old(self).model.id_gen,
            final(self).model.state == old(self).model.state,
            final(self).model.assets == old(self).model.assets,
            final(self).model.players@ == old(self).model.players@,
            final(self).model.humans@ == old(self).model.humans@,
            final(self).model.projectiles@ == old(self).model.projectiles@,
            final(self).model.blocks@ == old(self).model.blocks@,
    {
        let size: Vec2 = self.model.assets.config.arena_size;
        let ghost m0 = self.model;
        let ghost g0 = m0.guns@;
        let n: usize = self.model.guns.len();
        let mut i: usize = 0;
        while i < n
            invariant
                i <= n,
                n == g0.len(),
                size == m0.arena(),
                m0.config().wf(),
                gg_ok(g0, g0, size),
                self.delta_time == old(self).delta_time,
                self.events@ == old(self).events@,
                self.model.id_gen == m0.id_gen,
                self.model.state == m0.state,
                self.model.assets == m0.assets,
                self.model.players@ == m0.players@,
                self.model.humans@ == m0.humans@,
                self.model.projectiles@ == m0.projectiles@,
                self.model.blocks@ == m0.blocks@,
                self.model.guns@ == gun_rows(g0, i as int, size),
            decreases n - i,
        {
            proof {
                lemma_rows_ok(g0, i as int, size);
            }
            let ghost start = self.model.guns@;
            let mut j: usize = i + 1;
            while j < n
                invariant
                    i < n,
                    i + 1 <= j <= n,
                    n == g0.len(),
                    size == m0.arena(),
                    m0.config().wf(),
                    gg_ok(g0, start, size),
                    self.model.guns@ == gun_row(start, i as int, j as int, size),
                    gg_ok(g0, self.model.guns@, size),
                    self.delta_time == old(self).delta_time,
                    self.events@ == old(self).events@,
                    self.model.id_gen == m0.id_gen,
                    self.model.state == m0.state,
                    self.model.assets == m0.assets,
                    self.model.players@ == m0.players@,
                    self.model.humans@ == m0.humans@,
                    self.model.projectiles@ == m0.projectiles@,
                    self.model.blocks@ == m0.blocks@,
                decreases n - j,
            {
                let ghost cur = self.model.guns@;
                let a: Gun = self.model.guns[i];
                let b: Gun = self.model.guns[j];
                let d: Vec2 = a.position.direction(&b.position, size);
                proof {
                    if a.collider.collision_spec(b.collider, d).is_some() {
                        crate::collider::lemma_collision_normal_is_axis(a.collider, b.collider, d);
                    }
                }
                if let Some(c) = a.collider.collision(&b.collider, d) {
                    let off: Vec2 = half_push_of(&c);
                    let back: Vec2 = Vec2 { x: -off.x, y: -off.y };
                    let mut b2: Gun = b;
                    b2.position = b.position.shifted(off, size);
                    b2.velocity = a.velocity;
                    let mut a2: Gun = a;
                    a2.position = a.position.shifted(back, size);
                    a2.velocity = b.velocity;
                    self.model.guns.set(j, b2);
                    self.model.guns.set(i, a2);
                    proof {
                        assert(off == half_push(c));
                        assert(self.model.guns@ =~= gun_pair_step(cur, i as int, j as int, size));
                    }
                }
                proof {
                    lemma_pair_ok(g0, cur, i as int, j as int, size);
                }
                j = j + 1;
            }
            i = i + 1;
        }
        proof {
            lemma_rows_ok(g0, n as int, size);
        }
    }
}

} // verus!

verus! {

/// The block hits the projectile.
pub open spec fn block_hits_projectile(b: crate::model::Block, q: Projectile, size: Vec2) -> bool {
    b.collider.collision_spec(q.collider, b.position.direction_spec(q.position, size)).is_some()
}

/// A living projectile that overlaps a block ends.
pub open spec fn blocked_projectile(q: Projectile, bs: Seq<crate::model::Block>, size: Vec2) -> Projectile {
    if q.lifetime > 0 && exists|k: int| 0 <= k < bs.len() && block_hits_projectile(#[trigger] bs[k], q, size) {
        Projectile { lifetime: 0, ..q }
    } else {
        q
    }
}

/// The push out of a collision.
pub open spec fn full_push(c: crate::collider::Collision) -> Vec2 {
    Vec2 { x: (c.normal.x * c.penetration) as i64, y: (c.normal.y * c.penetration) as i64 }
}

/// `v` without its part along the normal scaled by `f`: `v - normal * f`.
pub open spec fn less_along(v: Vec2, n: Vec2, f: int) -> Vec2 {
    Vec2 { x: crate::geometry::sat(v.x - n.x * f) as i64, y: crate::geometry::sat(v.y - n.y * f) as i64 }
}

/// A human against one block: pushed out of it, with no velocity into it left.
pub open spec fn human_block_step(h: Human, b: crate::model::Block, size: Vec2) -> Human {
    match b.collider.collision_spec(h.collider, b.position.direction_spec(h.position, size)) {
        Some(c) => Human {
            position: h.position.shifted_spec(full_push(c), size),
            velocity: less_along(h.velocity, c.normal, h.velocity.dot_spec(c.normal)),
            ..h
        },
        None => h,
    }
}

/// A human against the first `k` blocks, in order.
pub open spec fn human_blocks(h: Human, bs: Seq<crate::model::Block>, size: Vec2, k: int) -> Human
    decreases k,
{
    if k <= 0 { h } else { human_block_step(human_blocks(h, bs, size, k - 1), bs[k - 1], size) }
}

/// The bounce of a velocity off a wall with the given normal: the part towards the
/// wall, times one plus the bounciness.
pub open spec fn bounce(v: Vec2, n: Vec2, bounciness: i64) -> int {
    let d = v.dot_spec(n);
    let m = if d < 0 { d } else { 0 };
    crate::geometry::tdiv(m * (crate::geometry::UNIT + bounciness), crate::geometry::UNIT as int)
}

/// A free gun against one block: pushed out of it and bounced off it.
pub open spec fn gun_block_step(g: Gun, b: crate::model::Block, size: Vec2, bounciness: i64) -> Gun {
    match b.collider.collision_spec(g.collider, b.position.direction_spec(g.position, size)) {
        Some(c) => Gun {
            position: g.position.shifted_spec(full_push(c), size),
            velocity: less_along(g.velocity, c.normal, bounce(g.velocity, c.normal, bounciness)),
            ..g
        },
        None => g,
    }
}

/// A gun against the first `k` blocks, in order.
pub open spec fn gun_blocks(g: Gun, bs: Seq<crate::model::Block>, size: Vec2, bounciness: i64, k: int) -> Gun
    decreases k,
{
    if k <= 0 { g } else { gun_block_step(gun_blocks(g, bs, size, bounciness, k - 1), bs[k - 1], size, bounciness) }
}

/// A gun against the blocks: attached guns are left alone.
pub open spec fn blocked_gun(g: Gun, bs: Seq<crate::model::Block>, size: Vec2, bounciness: i64) -> Gun {
    if g.attached_human is Some { g } else { gun_blocks(g, bs, size, bounciness, bs.len() as int) }
}

fn push_out(c: &crate::collider::Collision) -> (r: Vec2)
    requires
        (c.normal.x == 0 && (c.normal.y == 1 || c.normal.y == -1)) || (c.normal.y == 0 && (c.normal.x == 1 || c.normal.x == -1)),
        c.penetration >= 0,
    ensures
        r == full_push(*c),
{
    Vec2 { x: c.normal.x * c.penetration, y: c.normal.y * c.penetration }
}

fn remove_along(v: Vec2, n: Vec2, f: i128) -> (r: Vec2)
    requires
        -1 <= n.x <= 1,
        -1 <= n.y <= 1,
        -0x1000_0000_0000_0000_0000_0000_0000 <= f <= 0x1000_0000_0000_0000_0000_0000_0000,
    ensures
        r == less_along(v, n, f as int),
{
    let px: i128 = if n.x == 0 { 0 } else if n.x == 1 { f } else { -f };
    let py: i128 = if n.y == 0 { 0 } else if n.y == 1 { f } else { -f };
    assert(px == n.x * f) by (nonlinear_arith)
        requires px == (if n.x == 0 { 0 } else if n.x == 1 { f as int } else { -f }), -1 <= n.x <= 1;
    assert(py == n.y * f) by (nonlinear_arith)
        requires py == (if n.y == 0 { 0 } else if n.y == 1 { f as int } else { -f }), -1 <= n.y <= 1;
    let x: i128 = v.x as i128 - px;
    let y: i128 = v.y as i128 - py;
    Vec2 { x: crate::geometry::saturate(x), y: crate::geometry::saturate(y) }
}

fn dot_axis(v: Vec2, n: Vec2) -> (d: i128)
    requires
        (n.x == 0 && (n.y == 1 || n.y == -1)) || (n.y == 0 && (n.x == 1 || n.x == -1)),
    ensures
        d == v.dot_spec(n),
        -0x8000_0000_0000_0000 <= d <= 0x8000_0000_0000_0000,
{
    if n.x == 0 {
        if n.y == 1 { v.y as i128 } else { -(v.y as i128) }
    } else {
        if n.x == 1 { v.x as i128 } else { -(v.x as i128) }
    }
}

impl Logic {
    /// Blocks against projectiles, humans and free guns (see `blocked_projectile`,
    /// `human_blocks` and `blocked_gun`).
    pub fn block_collisions(&mut self)
        requires
            old(self).model.config().wf(),
        ensures
            final(self).model.projectiles@ == old(self).model.projectiles@.map_values(
                |q: Projectile| blocked_projectile(q, old(self).model.blocks@, old(self).model.arena()),
            ),
            final(self).model.humans@ == old(self).model.humans@.map_values(
                |h: Human| human_blocks(h, old(self).model.blocks@, old(self).model.arena(), old(self).model.blocks@.len() as int),
            ),
            final(self).model.guns@ == old(self).model.guns@.map_values(
                |g: Gun| blocked_gun(g, old(self).model.blocks@, old(self).model.arena(), old(self).model.config().gun_bounciness),
            ),
            final(self).delta_time == old(self).delta_time,
            final(self).events@ == old(self).events@,
            final(self).model.id_gen == old(self).model.id_gen,
            final(self).model.state == old(self).model.state,
            final(self).model.assets == old(self).model.assets,
            final(self).model.players@ == old(self).model.players@,
            final(self).model.blocks@ == old(self).model.blocks@,
    {
        let size: Vec2 = self.model.assets.config.arena_size;
        let bounciness: i64 = self.model.assets.config.gun_bounciness;
        let ghost m0 = self.model;
        let ghost bs = m0.blocks@;
        let nb: usize = self.model.blocks.len();
        // Projectiles.
        let mut k: usize = 0;
        while k < self.model.projectiles.len()
            invariant
                k <= m0.projectiles@.len(),
                size == m0.arena(),
                m0.config().wf(),
                nb == bs.len(),
                self.model.blocks@ == bs,
                self.model.projectiles@.len() == m0.projectiles@.len(),
                forall|x: int| 0 <= x < k ==> #[trigger] self.model.projectiles@[x] == blocked_projectile(m0.projectiles@[x], bs, size),
                forall|x: int| k <= x < m0.projectiles@.len() ==> #[trigger] self.model.projectiles@[x] == m0.projectiles@[x],
                self.model.humans@ == m0.humans@,
                self.model.guns@ == m0.guns@,
                self.delta_time == old(self).delta_time,
                self.events@ == old(self).events@,
                self.model.id_gen == m0.id_gen,
                self.model.state == m0.state,
                self.model.assets == m0.assets,
                self.model.players@ == m0.players@,
            decreases m0.projectiles@.len() - k,
        {
            let mut q: Projectile = self.model.projectiles[k];
            let q0: Projectile = q;
            if q.lifetime > 0 {
                let mut b: usize = 0;
                while b < nb
                    invariant
                        b <= nb,
                        nb == bs.len(),
                        self.model.blocks@ == bs,
                        m0.config().wf(),
                        size == m0.arena(),
                        q0.lifetime > 0,
                        q == (if exists|x: int| 0 <= x < b && block_hits_projectile(#[trigger] bs[x], q0, size) {
                            Projectile { lifetime: 0, ..q0 } } else { q0 }),
                    decreases nb - b,
                {
                    let blk: crate::model::Block = self.model.blocks[b];
                    if blk.collider.collision(&q0.collider, blk.position.direction(&q0.position, size)).is_some() {
                        q.lifetime = 0;
                        proof {
                            assert(block_hits_projectile(bs[b as int], q0, size));
                        }
                    }
                    proof {
                        if exists|x: int| 0 <= x < b + 1 && block_hits_projectile(#[trigger] bs[x], q0, size) {
                            let x = choose|x: int| 0 <= x < b + 1 && block_hits_projectile(#[trigger] bs[x], q0, size);
                            if x < b {
                                assert(exists|y: int| 0 <= y < b && block_hits_projectile(#[trigger] bs[y], q0, size));
                            }
                        }
                    }
                    b = b + 1;
                }
            }
            self.model.projectiles.set(k, q);
            k = k + 1;
        }
        // Humans.
        let mut k: usize = 0;
        while k < self.model.humans.len()
            invariant
                k <= m0.humans@.len(),
                size == m0.arena(),
                m0.config().wf(),
                nb == bs.len(),
                self.model.blocks@ == bs,
                self.model.humans@.len() == m0.humans@.len(),
                forall|x: int| 0 <= x < k ==> #[trigger] self.model.humans@[x] == human_blocks(m0.humans@[x], bs, size, bs.len() as int),
                forall|x: int| k <= x < m0.humans@.len() ==> #[trigger] self.model.humans@[x] == m0.humans@[x],
                self.model.projectiles@ == m0.projectiles@.map_values(|q: Projectile| blocked_projectile(q, bs, size)),
                self.model.guns@ == m0.guns@,
                self.delta_time == old(self).delta_time,
                self.events@ == old(self).events@,
                self.model.id_gen == m0.id_gen,
                self.model.state == m0.state,
                self.model.assets == m0.assets,
                self.model.players@ == m0.players@,
            decreases m0.humans@.len() - k,
        {
            proof {
                if k == 0 {
                    assert(self.model.projectiles@ =~= m0.projectiles@.map_values(|q: Projectile| blocked_projectile(q, bs, size)));
                }
            }
            let mut h: Human = self.model.humans[k];
            let ghost h0 = h;
            let mut b: usize = 0;
            while b < nb
                invariant
                    b <= nb,
                    nb == bs.len(),
                    self.model.blocks@ == bs,
                    m0.config().wf(),
                    size == m0.arena(),
                    h == human_blocks(h0, bs, size, b as int),
                decreases nb - b,
            {
                let blk: crate::model::Block = self.model.blocks[b];
                let d: Vec2 = blk.position.direction(&h.position, size);
                proof {
                    if blk.collider.collision_spec(h.collider, d).is_some() {
                        crate::collider::lemma_collision_normal_is_axis(blk.collider, h.collider, d);
                    }
                }
                if let Some(c) = blk.collider.collision(&h.collider, d) {
                    h.position = h.position.shifted(push_out(&c), size);
                    let dv: i128 = dot_axis(h.velocity, c.normal);
                    h.velocity = remove_along(h.velocity, c.normal, dv);
                }
                b = b + 1;
            }
            self.model.humans.set(k, h);
            k = k + 1;
        }
        // Guns.
        let mut k: usize = 0;
        while k < self.model.guns.len()
            invariant
                k <= m0.guns@.len(),
                size == m0.arena(),
                bounciness == m0.config().gun_bounciness,
                m0.config().wf(),
                nb == bs.len(),
                self.model.blocks@ == bs,
                self.model.guns@.len() == m0.guns@.len(),
                forall|x: int| 0 <= x < k ==> #[trigger] self.model.guns@[x] == blocked_gun(m0.guns@[x], bs, size, bounciness),
                forall|x: int| k <= x < m0.guns@.len() ==> #[trigger] self.model.guns@[x] == m0.guns@[x],
                self.model.projectiles@ == m0.projectiles@.map_values(|q: Projectile| blocked_projectile(q, bs, size)),
                self.model.humans@ == m0.humans@.map_values(|h: Human| human_blocks(h, bs, size, bs.len() as int)),
                self.delta_time == old(self).delta_time,
                self.events@ == old(self).events@,
                self.model.id_gen == m0.id_gen,
                self.model.state == m0.state,
                self.model.assets == m0.assets,
                self.model.players@ == m0.players@,
            decreases m0.guns@.len() - k,
        {
            proof {
                if k == 0 {
                    assert(self.model.humans@ =~= m0.humans@.map_values(|h: Human| human_blocks(h, bs, size, bs.len() as int)));
                }
            }
            let mut g: Gun = self.model.guns[k];
            let ghost g0 = g;
            if g.attached_human.is_none() {
                let mut b: usize = 0;
                while b < nb
                    invariant
                        b <= nb,
                        nb == bs.len(),
                        self.model.blocks@ == bs,
                        m0.config().wf(),
                        size == m0.arena(),
                        bounciness == m0.config().gun_bounciness,
                        g == gun_blocks(g0, bs, size, bounciness, b as int),
                    decreases nb - b,
                {
                    let blk: crate::model::Block = self.model.blocks[b];
                    let d: Vec2 = blk.position.direction(&g.position, size);
                    proof {
                        if blk.collider.collision_spec(g.collider, d).is_some() {
                            crate::collider::lemma_collision_normal_is_axis(blk.collider, g.collider, d);
                        }
                    }
                    if let Some(c) = blk.collider.collision(&g.collider, d) {
                        g.position = g.position.shifted(push_out(&c), size);
                        let dv: i128 = dot_axis(g.velocity, c.normal);
                        let m: i128 = if dv < 0 { dv } else { 0 };
                        let factor: i128 = 1000 + bounciness as i128;
                        assert(-0x8000_0000_0000_0000_0000_0000 <= m * factor <= 0) by (nonlinear_arith)
                            requires -0x8000_0000_0000_0000 <= m <= 0, 1000 <= factor <= 0x4000_0000 + 1000;
                        let f: i128 = crate::geometry::trunc_div(m * factor, 1000);
                        proof {
                            let p: int = m * factor;
                            vstd::arithmetic::div_mod::lemma_div_nonincreasing(-p, 1000);
                        }
                        g.velocity = remove_along(g.velocity, c.normal, f);
                    }
                    b = b + 1;
                }
            }
            self.model.guns.set(k, g);
            k = k + 1;
        }
        proof {
            assert(self.model.guns@ =~= m0.guns@.map_values(|g: Gun| blocked_gun(g, bs, size, bounciness)));
        }
    }
}

} // verus!

verus! {

proof fn lemma_projectile_fold_skeleton(qs: Seq<Projectile>, hs: Seq<Human>, gs: Seq<Gun>, size: Vec2, k: nat)
    requires
        k <= qs.len(),
    ensures
        ({
            let r = projectile_fold(qs, hs, gs, size, k);
            &&& r.0.len() == qs.len() && r.1.len() == hs.len() && r.2.len() == gs.len()
            &&& forall|x: int| 0 <= x < qs.len() ==> (#[trigger] r.0[x]).id == qs[x].id && r.0[x].position == qs[x].position
            &&& forall|x: int| 0 <= x < hs.len() ==> (#[trigger] r.1[x]).id == hs[x].id && r.1[x].position == hs[x].position
                && r.1[x].holding_gun == hs[x].holding_gun
            &&& forall|x: int| 0 <= x < gs.len() ==> (#[trigger] r.2[x]).id == gs[x].id && r.2[x].position == gs[x].position
                && r.2[x].attached_human == gs[x].attached_human
        }),
    decreases k,
{
    lemma_projectile_fold_len(qs, hs, gs, size, k);
    if k > 0 {
        lemma_projectile_fold_skeleton(qs, hs, gs, size, (k - 1) as nat);
        let prev = projectile_fold(qs, hs, gs, size, (k - 1) as nat);
        let q = prev.0[k - 1];
        lemma_first_index_range(human_hit_pred(q, prev.1, size), prev.1.len() as int);
        lemma_first_index_range(gun_hit_pred(q, prev.2, size), prev.2.len() as int);
    }
}

proof fn lemma_human_blocks_skeleton(h: Human, bs: Seq<crate::model::Block>, size: Vec2, k: int)
    requires
        crate::geometry::valid_size(size),
        h.position.in_arena(size),
    ensures
        human_blocks(h, bs, size, k).id == h.id,
        human_blocks(h, bs, size, k).holding_gun == h.holding_gun,
        human_blocks(h, bs, size, k).position.in_arena(size),
    decreases k,
{
    crate::geometry::lemma_shifted_in_arena_all(size);
    if k > 0 {
        lemma_human_blocks_skeleton(h, bs, size, k - 1);
    }
}

proof fn lemma_gun_blocks_skeleton(g: Gun, bs: Seq<crate::model::Block>, size: Vec2, b: i64, k: int)
    requires
        crate::geometry::valid_size(size),
        g.position.in_arena(size),
    ensures
        gun_blocks(g, bs, size, b, k).id == g.id,
        gun_blocks(g, bs, size, b, k).attached_human == g.attached_human,
        gun_blocks(g, bs, size, b, k).position.in_arena(size),
    decreases k,
{
    crate::geometry::lemma_shifted_in_arena_all(size);
    if k > 0 {
        lemma_gun_blocks_skeleton(g, bs, size, b, k - 1);
    }
}

/// The humans, guns and projectiles after the collisions of a step.
pub open spec fn collided(m: Model) -> (Seq<Projectile>, Seq<Human>, Seq<Gun>) {
    let size = m.arena();
    let bs = m.blocks@;
    let p = projectile_fold(m.projectiles@, m.humans@, m.guns@, size, m.projectiles@.len());
    let gh = gun_human_fold(p.2, p.1, size, p.2.len());
    let gg = gun_rows(gh.0, gh.0.len() as int, size);
    (
        p.0.map_values(|q: Projectile| blocked_projectile(q, bs, size)),
        gh.1.map_values(|h: Human| human_blocks(h, bs, size, bs.len() as int)),
        gg.map_values(|g: Gun| blocked_gun(g, bs, size, m.config().gun_bounciness)),
    )
}

/// What the collisions do to a step: projectiles, humans and guns become what
/// `collided` gives, nothing else changes.
pub open spec fn collisions_step(l0: Logic, l1: Logic) -> bool {
    &&& l1.model.projectiles@ == collided(l0.model).0
    &&& l1.model.humans@ == collided(l0.model).1
    &&& l1.model.guns@ == collided(l0.model).2
    &&& l1.delta_time == l0.delta_time
    &&& l1.events@ == l0.events@
    &&& l1.model.id_gen == l0.model.id_gen
    &&& l1.model.state == l0.model.state
    &&& l1.model.assets == l0.model.assets
    &&& l1.model.players@ == l0.model.players@
    &&& l1.model.blocks@ == l0.model.blocks@
}

impl Logic {
    /// The collisions of a step, in order: projectiles against humans and guns,
    /// guns against humans, guns against guns, and blocks against everything (see
    /// `collided`).
    pub fn process_collisions(&mut self)
        requires
            old(self).model.wf(),
        ensures
            final(self).model.wf(),
            collisions_step(*old(self), *final(self)),
            final(self).model.humans@.len() == old(self).model.humans@.len(),
            final(self).model.guns@.len() == old(self).model.guns@.len(),
            crate::model::holders_exist(old(self).model.humans@, old(self).model.guns@)
                ==> crate::model::holders_exist(final(self).model.humans@, final(self).model.guns@),
    {
        let ghost m0 = self.model;
        let ghost size = m0.arena();
        self.projectile_collisions();
        let ghost m1 = self.model;
        proof {
            lemma_projectile_fold_skeleton(m0.projectiles@, m0.humans@, m0.guns@, size, m0.projectiles@.len());
            crate::logic::lemma_skeleton_wf(m0, m1);
        }
        self.gun_human_collisions();
        let ghost m2 = self.model;
        proof {
            lemma_links_changed_wf(m1, m2);
            if crate::model::holders_exist(m0.humans@, m0.guns@) {
                crate::logic::lemma_holders_kept(m0, m1);
                lemma_holders_linked(m1.guns@, m1.humans@, m2.guns@, m2.humans@);
            }
            assert forall|x: int| 0 <= x < m2.guns@.len() implies (#[trigger] m2.guns@[x]).id == m2.guns@[x].id
                && m2.guns@[x].attached_human == m2.guns@[x].attached_human && m2.guns@[x].position.in_arena(size) by {
            }
        }
        self.gun_gun_collisions();
        let ghost m3 = self.model;
        proof {
            crate::logic::lemma_skeleton_wf(m2, m3);
            if crate::model::holders_exist(m2.humans@, m2.guns@) {
                crate::logic::lemma_holders_kept(m2, m3);
            }
        }
        self.block_collisions();
        proof {
            let m4 = self.model;
            let bs = m0.blocks@;
            assert forall|k: int| 0 <= k < m3.humans@.len() implies (#[trigger] m4.humans@[k]).id == m3.humans@[k].id
                && m4.humans@[k].holding_gun == m3.humans@[k].holding_gun
                && m4.humans@[k].position.in_arena(size) by {
                lemma_human_blocks_skeleton(m3.humans@[k], bs, size, bs.len() as int);
            }
            assert forall|k: int| 0 <= k < m3.guns@.len() implies (#[trigger] m4.guns@[k]).id == m3.guns@[k].id
                && m4.guns@[k].attached_human == m3.guns@[k].attached_human
                && m4.guns@[k].position.in_arena(size) by {
                lemma_gun_blocks_skeleton(m3.guns@[k], bs, size, m0.config().gun_bounciness, bs.len() as int);
            }
            assert forall|k: int| 0 <= k < m3.projectiles@.len() implies (#[trigger] m4.projectiles@[k]).id == m3.projectiles@[k].id
                && m4.projectiles@[k].position.in_arena(size) by {
            }
            crate::logic::lemma_skeleton_wf(m3, m4);
            if crate::model::holders_exist(m3.humans@, m3.guns@) {
                crate::logic::lemma_holders_kept(m3, m4);
            }
        }
    }
}

/// Linking guns and humans anew keeps every held gun there.
proof fn lemma_holders_linked(gs0: Seq<Gun>, hs0: Seq<Human>, gs: Seq<Gun>, hs: Seq<Human>)
    requires
        gh_ok(gs0, hs0, gs, hs),
        crate::model::holders_exist(hs0, gs0),
    ensures
        crate::model::holders_exist(hs, gs),
{
    assert forall|k: int| 0 <= k < hs.len() implies ((#[trigger] hs[k]).holding_gun matches Some(g) ==> has_key(gs, g.0)) by {
        if hs[k].holding_gun is Some {
            let g = hs[k].holding_gun.unwrap();
            if hs[k].holding_gun == hs0[k].holding_gun {
                assert(hs0[k].holding_gun matches Some(g0) ==> has_key(gs0, g0.0));
            }
            assert(has_key(gs0, g.0));
            let a = choose|a: int| 0 <= a < gs0.len() && #[trigger] gs0[a].key() == g.0;
            assert(gs[a].key() == g.0);
        }
    }
}

/// New links between the same humans and guns keep the invariant.
proof fn lemma_links_changed_wf(m1: Model, m2: Model)
    requires
        m1.wf(),
        m2.id_gen == m1.id_gen,
        m2.assets == m1.assets,
        m2.players@ == m1.players@,
        m2.blocks@ == m1.blocks@,
        m2.projectiles@ == m1.projectiles@,
        gh_ok(m1.guns@, m1.humans@, m2.guns@, m2.humans@),
    ensures
        m2.wf(),
{
    let n = m1.id_gen.next_spec();
    assert forall|x: int| 0 <= x < m2.humans@.len() implies #[trigger] m2.humans@[x].key() < n
        && m2.humans@[x].position.in_arena(m2.arena()) by {
        assert(m1.humans@[x].key() < n);
    }
    assert forall|x: int| 0 <= x < m2.guns@.len() implies #[trigger] m2.guns@[x].key() < n
        && m2.guns@[x].position.in_arena(m2.arena()) by {
        assert(m1.guns@[x].key() < n);
    }
    assert forall|x: int| 0 <= x < m2.humans@.len() implies (#[trigger] m2.humans@[x]).holding_gun matches Some(g)
        ==> g.0 < n by {
        if m2.humans@[x].holding_gun != m1.humans@[x].holding_gun && m2.humans@[x].holding_gun is Some {
            let g = m2.humans@[x].holding_gun.unwrap();
            let a = choose|a: int| 0 <= a < m1.guns@.len() && #[trigger] m1.guns@[a].key() == g.0;
            assert(m1.guns@[a].key() < n);
        }
    }
}

} // verus!
