use vstd::prelude::*;
use crate::config::Config;
use crate::gen::{spawn_gun, spawned_gun};
use crate::geometry::{Position, Time, sat, time_sub};
use crate::id::Id;
use crate::logic::Logic;
use crate::model::{Gun, Model, Player, PlayerState};
use crate::entity::Keyed;

verus! {

/// The player waits to respawn, and its timer runs out in a step of `dt`.
pub open spec fn respawn_due(p: Player, dt: Time) -> bool {
    p.state matches PlayerState::Respawning { time_left } && sat(time_left - dt) <= 0
}

/// How many of the players respawn in a step of `dt`.
pub open spec fn respawn_count(ps: Seq<Player>, dt: Time) -> nat
    decreases ps.len(),
{
    if ps.len() == 0 {
        0
    } else {
        respawn_count(ps.drop_last(), dt) + if respawn_due(ps.last(), dt) { 1nat } else { 0nat }
    }
}

/// The player after the spawns of a step of `dt`: a respawn timer runs down, and a
/// player whose timer runs out controls the gun with identifier `gun_id`.
pub open spec fn spawn_player(p: Player, dt: Time, gun_id: u64) -> Player {
    match p.state {
        PlayerState::Respawning { time_left } => if sat(time_left - dt) <= 0 {
            Player { state: PlayerState::Gun { gun_id: Id(gun_id) }, ..p }
        } else {
            Player { state: PlayerState::Respawning { time_left: sat(time_left - dt) as i64 }, ..p }
        },
        _ => p,
    }
}

/// What the spawns of a step do to the players `p0`, given the guns `fresh` that
/// they add: each respawning player's timer runs down; each one whose timer runs
/// out gets, in the players' order, a fresh gun numbered from `n0` on, at some
/// place on the arena.
pub open spec fn spawns_done(p0: Seq<Player>, p1: Seq<Player>, fresh: Seq<Gun>, n0: u64, dt: Time, c: Config) -> bool {
    &&& p1.len() == p0.len()
    &&& fresh.len() == respawn_count(p0, dt)
    &&& forall|k: int| 0 <= k < p0.len() ==> #[trigger] p1[k] == spawn_player(
        p0[k],
        dt,
        (n0 + respawn_count(p0.take(k), dt)) as u64,
    )
    &&& forall|k: int| 0 <= k < p0.len() && #[trigger] respawn_due(p0[k], dt) ==> {
        let j = respawn_count(p0.take(k), dt) as int;
        fresh[j] == spawned_gun(p0[k].id, (n0 + j) as u64, fresh[j].position, c)
    }
    &&& forall|j: int| 0 <= j < fresh.len() ==> (#[trigger] fresh[j]).id.0 == n0 + j
        && fresh[j].attached_human is None
        && fresh[j].position.in_arena(c.arena_size)
}

proof fn lemma_count_step(ps: Seq<Player>, dt: Time, k: int)
    requires
        0 <= k < ps.len(),
    ensures
        respawn_count(ps.take(k + 1), dt) == respawn_count(ps.take(k), dt) + if respawn_due(ps[k], dt) { 1nat } else { 0nat },
{
    assert(ps.take(k + 1).drop_last() =~= ps.take(k));
}

proof fn lemma_count_mono(ps: Seq<Player>, dt: Time, a: int, b: int)
    requires
        0 <= a <= b <= ps.len(),
    ensures
        respawn_count(ps.take(a), dt) <= respawn_count(ps.take(b), dt),
        respawn_count(ps.take(b), dt) <= respawn_count(ps.take(a), dt) + (b - a),
    decreases b - a,
{
    if a < b {
        lemma_count_mono(ps, dt, a, b - 1);
        lemma_count_step(ps, dt, b - 1);
    }
}

/// The count over the whole sequence, and that it is at most its length.
pub proof fn lemma_count_whole(ps: Seq<Player>, dt: Time)
    ensures
        respawn_count(ps.take(ps.len() as int), dt) == respawn_count(ps, dt),
        respawn_count(ps, dt) <= ps.len(),
{
    assert(ps.take(ps.len() as int) =~= ps);
    lemma_count_mono(ps, dt, 0, ps.len() as int);
    assert(ps.take(0) =~= Seq::<Player>::empty());
}

/// What the spawns do to a step (see `spawns_done`): the guns that respawning
/// players get come after the guns already there.
pub open spec fn spawns_step(l0: Logic, l1: Logic) -> bool {
    let n0 = l0.model.id_gen.next_spec();
    let g0 = l0.model.guns@;
    let g1 = l1.model.guns@;
    &&& g0.len() <= g1.len()
    &&& g1.take(g0.len() as int) == g0
    &&& spawns_done(l0.model.players@, l1.model.players@, g1.skip(g0.len() as int), n0, l0.delta_time, l0.model.config())
    &&& l1.model.id_gen.next_spec() == n0 + respawn_count(l0.model.players@, l0.delta_time)
    &&& l1.delta_time == l0.delta_time
    &&& l1.events@ == l0.events@
    &&& l1.model.state == l0.model.state
    &&& l1.model.assets == l0.model.assets
    &&& l1.model.humans@ == l0.model.humans@
    &&& l1.model.projectiles@ == l0.model.projectiles@
    &&& l1.model.blocks@ == l0.model.blocks@
}

impl Logic {
    /// Runs the respawn timers down; each player whose timer runs out gets a fresh
    /// gun at a random place on the arena, added after the guns already there.
    pub fn process_spawns(&mut self)
        requires
            old(self).model.wf(),
            old(self).model.id_gen.next_spec() + old(self).model.players@.len() <= u64::MAX,
        ensures
            final(self).model.wf(),
            spawns_step(*old(self), *final(self)),
    {
        let ghost m0 = self.model;
        let ghost p0 = self.model.players@;
        let ghost n0 = self.model.id_gen.next_spec();
        let config: Config = self.model.assets.config;
        let dt: Time = self.delta_time;
        let mut fresh: Vec<Gun> = Vec::new();
        let mut k: usize = 0;
        while k < self.model.players.len()
            invariant
                k <= p0.len(),
                m0 == old(self).model,
                m0.wf(),
                p0 == m0.players@,
                n0 == m0.id_gen.next_spec(),
                n0 + p0.len() <= u64::MAX,
                config == m0.config(),
                dt == old(self).delta_time,
                self.delta_time == dt,
                self.events@ == old(self).events@,
                self.model.state == m0.state,
                self.model.assets == m0.assets,
                self.model.guns@ == m0.guns@,
                self.model.humans@ == m0.humans@,
                self.model.projectiles@ == m0.projectiles@,
                self.model.blocks@ == m0.blocks@,
                self.model.players@.len() == p0.len(),
                self.model.id_gen.next_spec() == n0 + respawn_count(p0.take(k as int), dt),
                fresh@.len() == respawn_count(p0.take(k as int), dt),
                forall|j: int| 0 <= j < k ==> #[trigger] self.model.players@[j] == spawn_player(
                    p0[j],
                    dt,
                    (n0 + respawn_count(p0.take(j), dt)) as u64,
                ),
                forall|j: int| k <= j < p0.len() ==> #[trigger] self.model.players@[j] == p0[j],
                forall|j: int| 0 <= j < k && #[trigger] respawn_due(p0[j], dt) ==> {
                    let i = respawn_count(p0.take(j), dt) as int;
                    fresh@[i] == spawned_gun(p0[j].id, (n0 + i) as u64, fresh@[i].position, config)
                },
                forall|j: int| 0 <= j < fresh@.len() ==> (#[trigger] fresh@[j]).id.0 == n0 + j
                    && fresh@[j].attached_human is None
                    && fresh@[j].position.in_arena(config.arena_size),
            decreases p0.len() - k,
        {
            let ghost f0 = fresh@;
            proof {
                lemma_count_step(p0, dt, k as int);
                lemma_count_mono(p0, dt, 0, k as int);
                assert(p0.take(0) =~= Seq::<Player>::empty());
            }
            let mut player: Player = self.model.players[k];
            if let PlayerState::Respawning { time_left } = player.state {
                let t: Time = time_sub(time_left, dt);
                if t <= 0 {
                    let gun_id: Id = self.model.id_gen.next();
                    let position: Position = Position::random(config.arena_size);
                    fresh.push(spawn_gun(player.id, gun_id, position, &config));
                    player.state = PlayerState::Gun { gun_id };
                } else {
                    player.state = PlayerState::Respawning { time_left: t };
                }
                self.model.players.set(k, player);
            }
            proof {
                assert forall|j: int| 0 <= j < k && #[trigger] respawn_due(p0[j], dt) implies
                    fresh@[respawn_count(p0.take(j), dt) as int] == f0[respawn_count(p0.take(j), dt) as int] by {
                    lemma_count_step(p0, dt, j);
                    lemma_count_mono(p0, dt, j + 1, k as int);
                }
            }
            k = k + 1;
        }
        let ghost fresh_guns = fresh@;
        self.model.guns.append(&mut fresh);
        proof {
            lemma_count_whole(p0, dt);
            let g1 = self.model.guns@;
            assert(g1.take(m0.guns@.len() as int) =~= m0.guns@);
            assert(g1.skip(m0.guns@.len() as int) =~= fresh_guns);
            lemma_spawns_wf(m0, self.model, fresh_guns, dt);
        }
    }
}

/// The spawns of a step keep the invariant.
proof fn lemma_spawns_wf(m0: Model, m1: Model, fresh: Seq<Gun>, dt: Time)
    requires
        m0.wf(),
        spawns_done(m0.players@, m1.players@, fresh, m0.id_gen.next_spec(), dt, m0.config()),
        m1.guns@ == m0.guns@ + fresh,
        m1.id_gen.next_spec() == m0.id_gen.next_spec() + respawn_count(m0.players@, dt),
        m1.assets == m0.assets,
        m1.humans@ == m0.humans@,
        m1.projectiles@ == m0.projectiles@,
        m1.blocks@ == m0.blocks@,
    ensures
        m1.wf(),
{
    let n0 = m0.id_gen.next_spec();
    let n1 = m1.id_gen.next_spec();
    let p0 = m0.players@;
    let p1 = m1.players@;
    let g0 = m0.guns@;
    let g1 = m1.guns@;
    let h = m0.humans@;
    lemma_count_whole(p0, dt);
    assert forall|x: int| 0 <= x < p1.len() implies (#[trigger] p1[x]).key() == p0[x].key() && p1[x].key() < n1
        && (p1[x].state matches PlayerState::Gun { gun_id } ==> gun_id.0 < n1
            && (respawn_due(p0[x], dt) ==> gun_id.0 == n0 + respawn_count(p0.take(x), dt))
            && (!respawn_due(p0[x], dt) ==> gun_id.0 < n0)) by {
        assert(p0[x].key() < n0);
        lemma_count_mono(p0, dt, x, p0.len() as int);
        lemma_count_step(p0, dt, x);
        lemma_count_mono(p0, dt, x + 1, p0.len() as int);
    }
    assert forall|x: int, y: int| 0 <= x < p1.len() && 0 <= y < p1.len() && x != y implies #[trigger] p1[x].key() != #[trigger] p1[y].key() by {
        assert(p0[x].key() != p0[y].key());
    }
    assert forall|x: int, y: int|
        0 <= x < p1.len() && 0 <= y < p1.len() && x != y && (#[trigger] p1[x]).state is Gun
        implies (#[trigger] p1[y]).state != p1[x].state by {
        if p1[y].state == p1[x].state {
            if respawn_due(p0[x], dt) && respawn_due(p0[y], dt) {
                if x < y {
                    lemma_count_step(p0, dt, x);
                    lemma_count_mono(p0, dt, x + 1, y);
                } else {
                    lemma_count_step(p0, dt, y);
                    lemma_count_mono(p0, dt, y + 1, x);
                }
            } else if !respawn_due(p0[x], dt) && !respawn_due(p0[y], dt) {
                assert(p0[x].state != p0[y].state);
            }
        }
    }
    assert forall|x: int| 0 <= x < g1.len() implies (#[trigger] g1[x]).key() < n1 && g1[x].position.in_arena(m1.arena())
        && (x < g0.len() ==> g1[x] == g0[x] && g1[x].key() < n0)
        && (x >= g0.len() ==> g1[x].key() == n0 + (x - g0.len()) && g1[x].attached_human is None) by {
        if x < g0.len() {
            assert(g0[x].key() < n0);
        } else {
            assert(g1[x] == fresh[x - g0.len()]);
        }
    }
    assert forall|x: int, y: int| 0 <= x < g1.len() && 0 <= y < g1.len() && x != y implies #[trigger] g1[x].key() != #[trigger] g1[y].key() by {
        if x < g0.len() && y < g0.len() {
            assert(g0[x].key() != g0[y].key());
        }
    }
    assert forall|x: int| 0 <= x < g1.len() && (#[trigger] g1[x]).attached_human is Some
        implies crate::entity::has_key(h, g1[x].attached_human.unwrap().0) by {
        assert(g1[x] == g0[x]);
    }
    assert forall|x: int, y: int| 0 <= x < g1.len() && 0 <= y < h.len() implies ((#[trigger] g1[x]).attached_human
        == Some((#[trigger] h[y]).id) <==> h[y].holding_gun == Some(g1[x].id)) by {
        if x < g0.len() {
            assert(g1[x] == g0[x]);
        } else if h[y].holding_gun == Some(g1[x].id) {
            assert(h[y].holding_gun matches Some(g) ==> g.0 < n0);
        }
    }
    assert forall|x: int| 0 <= x < h.len() implies #[trigger] h[x].key() < n1 by { assert(h[x].key() < n0); }
    assert forall|x: int| 0 <= x < h.len() implies ((#[trigger] h[x]).holding_gun matches Some(g) ==> g.0 < n1) by {
        assert(h[x].holding_gun matches Some(g) ==> g.0 < n0);
    }
    assert forall|x: int| 0 <= x < m1.projectiles@.len() implies #[trigger] m1.projectiles@[x].key() < n1 by {
        assert(m0.projectiles@[x].key() < n0);
    }
    assert forall|x: int| 0 <= x < m1.blocks@.len() implies #[trigger] m1.blocks@[x].key() < n1 by {
        assert(m0.blocks@[x].key() < n0);
    }
}

} // verus!
