use vstd::prelude::*;
use crate::gen::{arena_room, humans_target};
use crate::geometry::Time;
use crate::model::{Event, GameState, Model, Player};
use crate::entity::Keyed;
use crate::logic::collisions::collisions_step;
use crate::logic::deaths::{deaths_step, score_room};
use crate::logic::guns::guns_step;
use crate::logic::humans::humans_step;
use crate::logic::movement::movement_step;
use crate::logic::spawns::{respawn_count, spawns_step};
use crate::logic::state::state_step;

pub mod collisions;
pub mod deaths;
pub mod guns;
pub mod humans;
pub mod movement;
pub mod spawns;
pub mod state;

verus! {

/// One step of the game's logic: the model, the time that passes and the events
/// that the step reports.
pub struct Logic {
    pub delta_time: Time,
    pub model: Model,
    pub events: Vec<Event>,
}

/// The server's ticks per second.
pub const TICKS_PER_SECOND: i64 = 20;

/// The time that one tick of the server covers: a second over `TICKS_PER_SECOND`.
pub const TICK_TIME: Time = 50;

/// The phases of a step, in order, through the intermediate states `l1` to `l6`:
/// spawns, reloads, the humans' walk, movement, collisions, deaths and the check
/// of the round's state.
pub open spec fn phases(l0: Logic, l1: Logic, l2: Logic, l3: Logic, l4: Logic, l5: Logic, l6: Logic, l7: Logic) -> bool {
    &&& spawns_step(l0, l1)
    &&& guns_step(l1, l2)
    &&& humans_step(l2, l3)
    &&& movement_step(l3, l4)
    &&& collisions_step(l4, l5)
    &&& deaths_step(l5, l6)
    &&& state_step(l6, l7)
}

/// `l1` is what a whole step makes of `l0`.
pub open spec fn step(l0: Logic, l7: Logic) -> bool {
    exists|l1: Logic, l2: Logic, l3: Logic, l4: Logic, l5: Logic, l6: Logic|
        #[trigger] phases(l0, l1, l2, l3, l4, l5, l6, l7)
}

/// The players stay, in their order, and no score goes down.
pub open spec fn scores_kept(p0: Seq<Player>, p1: Seq<Player>) -> bool {
    &&& p1.len() == p0.len()
    &&& forall|k: int| 0 <= k < p0.len() ==> (#[trigger] p1[k]).id == p0[k].id && p1[k].score >= p0[k].score
}

/// A step of the model by `dt`, with the events `e0` before it and `e1` after it.
pub open spec fn model_step(m0: Model, e0: Vec<Event>, dt: Time, m1: Model, e1: Vec<Event>) -> bool {
    step(Logic { delta_time: dt, model: m0, events: e0 }, Logic { delta_time: dt, model: m1, events: e1 })
}

/// The identifiers and the scores that a step can take fit in their types: the
/// guns that respawn and a restart take identifiers, and the kills of a step add
/// to the scores.
pub open spec fn step_room(m: Model) -> bool {
    let c = m.config();
    let p = m.players@.len();
    &&& humans_target(m) <= usize::MAX
    &&& m.id_gen.next_spec() + 2 * p + c.blocks_number + humans_target(m) <= u64::MAX
    &&& forall|k: int| 0 <= k < p ==> (#[trigger] m.players@[k]).score
        + c.human_kill_score * m.humans@.len() + c.gun_kill_score * (m.guns@.len() + p) <= u64::MAX
}

impl Logic {
    /// Runs one step through its phases (see `phases`).
    pub fn process(&mut self)
        requires
            old(self).model.wf(),
            step_room(old(self).model),
        ensures
            final(self).model.wf(),
            step(*old(self), *final(self)),
            scores_kept(old(self).model.players@, final(self).model.players@),
    {
        let ghost l0 = *self;
        self.process_spawns();
        let ghost l1 = *self;
        self.process_guns();
        let ghost l2 = *self;
        self.process_humans();
        let ghost l3 = *self;
        self.process_movement();
        let ghost l4 = *self;
        self.process_collisions();
        let ghost l5 = *self;
        proof {
            let c = l0.model.config();
            let p = l0.model.players@.len();
            crate::logic::spawns::lemma_count_whole(l0.model.players@, l0.delta_time);
            assert forall|k: int| 0 <= k < l5.model.players@.len() implies (#[trigger] l5.model.players@[k]).score
                + c.human_kill_score * l5.model.humans@.len() + c.gun_kill_score * l5.model.guns@.len() <= u64::MAX by {
                assert(l1.model.players@[k].score == l0.model.players@[k].score);
                let g = l5.model.guns@.len();
                let g0 = l0.model.guns@.len();
                assert(l1.model.guns@.len() == g0 + respawn_count(l0.model.players@, l0.delta_time));
                assert(c.gun_kill_score * g <= c.gun_kill_score * (g0 + p)) by (nonlinear_arith)
                    requires g <= g0 + p;
                assert(l0.model.players@[k].score + c.human_kill_score * l0.model.humans@.len()
                    + c.gun_kill_score * (g0 + p) <= u64::MAX);
            }
            assert(score_room(l5.model));
        }
        self.process_deaths();
        let ghost l6 = *self;
        proof {
            assert(humans_target(l6.model) == humans_target(l0.model));
            assert(arena_room(l6.model));
        }
        self.check_state();
        proof {
            assert(phases(l0, l1, l2, l3, l4, l5, l6, *self));
            let p0 = l0.model.players@;
            assert forall|k: int| 0 <= k < p0.len() implies (#[trigger] self.model.players@[k]).id == p0[k].id
                && self.model.players@[k].score >= p0[k].score by {
                assert(l1.model.players@[k].id == p0[k].id && l1.model.players@[k].score == p0[k].score);
                assert(l6.model.players@[k].id == l5.model.players@[k].id
                    && l6.model.players@[k].score >= l5.model.players@[k].score);
            }
        }
    }
}

impl Model {
    /// Advances the game by `delta_time`; what the step reports is added to
    /// `events` (see `step`).
    pub fn update(&mut self, delta_time: Time, events: &mut Vec<Event>)
        requires
            old(self).wf(),
            step_room(*old(self)),
        ensures
            final(self).wf(),
            model_step(*old(self), *old(events), delta_time, *final(self), *final(events)),
            scores_kept(old(self).players@, final(self).players@),
    {
        let mut model: Model = Model {
            id_gen: self.id_gen,
            state: GameState::InProgress { time_left: 0 },
            assets: self.assets,
            players: Vec::new(),
            humans: Vec::new(),
            guns: Vec::new(),
            projectiles: Vec::new(),
            blocks: Vec::new(),
        };
        std::mem::swap(&mut model, self);
        let mut taken: Vec<Event> = Vec::new();
        std::mem::swap(&mut taken, events);
        let mut logic: Logic = Logic { delta_time, model, events: taken };
        logic.process();
        *self = logic.model;
        *events = logic.events;
    }

    /// Advances the game by one tick of the server.
    pub fn tick(&mut self, events: &mut Vec<Event>)
        requires
            old(self).wf(),
            step_room(*old(self)),
        ensures
            final(self).wf(),
            model_step(*old(self), *old(events), TICK_TIME, *final(self), *final(events)),
            scores_kept(old(self).players@, final(self).players@),
    {
        self.update(TICK_TIME, events);
    }
}


/// Changes to the guns that keep their identifiers, attachments and places on the
/// arena keep the invariant.
pub proof fn lemma_guns_moved(m0: Model, m1: Model)
    requires
        m0.wf(),
        m1.id_gen == m0.id_gen,
        m1.assets == m0.assets,
        m1.players@ == m0.players@,
        m1.humans@ == m0.humans@,
        m1.projectiles@ == m0.projectiles@,
        m1.blocks@ == m0.blocks@,
        m1.guns@.len() == m0.guns@.len(),
        forall|k: int| 0 <= k < m0.guns@.len() ==> (#[trigger] m1.guns@[k]).id == m0.guns@[k].id
            && m1.guns@[k].attached_human == m0.guns@[k].attached_human
            && m1.guns@[k].position.in_arena(m0.arena()),
    ensures
        m1.wf(),
{
    let g0 = m0.guns@;
    let g1 = m1.guns@;
    assert forall|x: int, y: int| 0 <= x < g1.len() && 0 <= y < g1.len() && x != y implies #[trigger] g1[x].key() != #[trigger] g1[y].key() by {
        assert(g0[x].key() != g0[y].key());
    }
    assert forall|x: int| 0 <= x < g1.len() implies #[trigger] g1[x].key() < m0.id_gen.next_spec() by {
        assert(g0[x].key() < m0.id_gen.next_spec());
    }
    assert forall|x: int| 0 <= x < g1.len() && (#[trigger] g1[x]).attached_human is Some
        implies crate::entity::has_key(m1.humans@, g1[x].attached_human.unwrap().0) by {
        assert(g0[x].attached_human is Some);
    }
    assert forall|x: int, y: int| 0 <= x < g1.len() && 0 <= y < m1.humans@.len() implies ((#[trigger] g1[x]).attached_human
        == Some((#[trigger] m1.humans@[y]).id) <==> m1.humans@[y].holding_gun == Some(g1[x].id)) by {
        assert(g0[x].attached_human == Some(m0.humans@[y].id) <==> m0.humans@[y].holding_gun == Some(g0[x].id));
    }
}


/// The parts of the entities that the invariant reads: identifiers, links and
/// places on the arena.
pub open spec fn same_skeleton(m0: Model, m1: Model) -> bool {
    &&& m1.id_gen == m0.id_gen
    &&& m1.assets == m0.assets
    &&& m1.players@ == m0.players@
    &&& m1.blocks@ == m0.blocks@
    &&& m1.humans@.len() == m0.humans@.len()
    &&& forall|k: int| 0 <= k < m0.humans@.len() ==> (#[trigger] m1.humans@[k]).id == m0.humans@[k].id
        && m1.humans@[k].holding_gun == m0.humans@[k].holding_gun
        && m1.humans@[k].position.in_arena(m0.arena())
    &&& m1.guns@.len() == m0.guns@.len()
    &&& forall|k: int| 0 <= k < m0.guns@.len() ==> (#[trigger] m1.guns@[k]).id == m0.guns@[k].id
        && m1.guns@[k].attached_human == m0.guns@[k].attached_human
        && m1.guns@[k].position.in_arena(m0.arena())
    &&& m1.projectiles@.len() == m0.projectiles@.len()
    &&& forall|k: int| 0 <= k < m0.projectiles@.len() ==> (#[trigger] m1.projectiles@[k]).id == m0.projectiles@[k].id
        && m1.projectiles@[k].position.in_arena(m0.arena())
}

/// Changes that keep the skeleton keep every held gun there.
pub proof fn lemma_holders_kept(m0: Model, m1: Model)
    requires
        same_skeleton(m0, m1),
        crate::model::holders_exist(m0.humans@, m0.guns@),
    ensures
        crate::model::holders_exist(m1.humans@, m1.guns@),
{
    assert forall|k: int| 0 <= k < m1.humans@.len() implies ((#[trigger] m1.humans@[k]).holding_gun matches Some(g)
        ==> crate::entity::has_key(m1.guns@, g.0)) by {
        if m1.humans@[k].holding_gun is Some {
            let g = m1.humans@[k].holding_gun.unwrap();
            assert(m0.humans@[k].holding_gun == Some(g));
            let a = choose|a: int| 0 <= a < m0.guns@.len() && #[trigger] m0.guns@[a].key() == g.0;
            assert(m1.guns@[a].key() == g.0);
        }
    }
}

/// Changes that keep the skeleton keep the invariant.
pub proof fn lemma_skeleton_wf(m0: Model, m1: Model)
    requires
        m0.wf(),
        same_skeleton(m0, m1),
    ensures
        m1.wf(),
{
    let n = m0.id_gen.next_spec();
    let h0 = m0.humans@;
    let h1 = m1.humans@;
    let g0 = m0.guns@;
    let g1 = m1.guns@;
    let q0 = m0.projectiles@;
    let q1 = m1.projectiles@;
    assert forall|x: int, y: int| 0 <= x < h1.len() && 0 <= y < h1.len() && x != y implies #[trigger] h1[x].key() != #[trigger] h1[y].key() by {
        assert(h0[x].key() != h0[y].key());
    }
    assert forall|x: int| 0 <= x < h1.len() implies #[trigger] h1[x].key() < n by {
        assert(h0[x].key() < n);
    }
    assert forall|x: int, y: int| 0 <= x < g1.len() && 0 <= y < g1.len() && x != y implies #[trigger] g1[x].key() != #[trigger] g1[y].key() by {
        assert(g0[x].key() != g0[y].key());
    }
    assert forall|x: int| 0 <= x < g1.len() implies #[trigger] g1[x].key() < n by {
        assert(g0[x].key() < n);
    }
    assert forall|x: int, y: int| 0 <= x < q1.len() && 0 <= y < q1.len() && x != y implies #[trigger] q1[x].key() != #[trigger] q1[y].key() by {
        assert(q0[x].key() != q0[y].key());
    }
    assert forall|x: int| 0 <= x < q1.len() implies #[trigger] q1[x].key() < n by {
        assert(q0[x].key() < n);
    }
    assert forall|x: int| 0 <= x < g1.len() && (#[trigger] g1[x]).attached_human is Some
        implies crate::entity::has_key(h1, g1[x].attached_human.unwrap().0) by {
        assert(g0[x].attached_human is Some);
        let a = choose|a: int| 0 <= a < h0.len() && #[trigger] h0[a].key() == g0[x].attached_human.unwrap().0;
        assert(h1[a].key() == h0[a].key());
    }
    assert forall|x: int, y: int| 0 <= x < g1.len() && 0 <= y < h1.len() implies ((#[trigger] g1[x]).attached_human
        == Some((#[trigger] h1[y]).id) <==> h1[y].holding_gun == Some(g1[x].id)) by {
        assert(g0[x].attached_human == Some(h0[y].id) <==> h0[y].holding_gun == Some(g0[x].id));
    }
}

} // verus!
