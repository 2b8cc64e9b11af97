use vstd::prelude::*;
use std::collections::HashMap;
use crate::gen::{arena_room, restarted};
use crate::geometry::{Time, sat, time_sub};
use crate::logic::Logic;
use crate::model::{GameState, GameStats, Model, Player, PlayerState};

verus! {

broadcast use vstd::std_specs::hash::group_hash_axioms;

/// The scores that a finished round records: those of the players that are not
/// spectators, by the number of each one's identifier.
pub open spec fn round_scores(ps: Seq<Player>) -> Map<u64, u64>
    decreases ps.len(),
{
    if ps.len() == 0 {
        Map::empty()
    } else {
        let m = round_scores(ps.drop_last());
        if ps.last().state is Spectator {
            m
        } else {
            m.insert(ps.last().id.0, ps.last().score)
        }
    }
}

/// The statistics of a round that ends with these players.
pub fn final_stats(players: &Vec<Player>) -> (s: GameStats)
    ensures
        s.scores@ == round_scores(players@),
{
    let mut scores: HashMap<u64, u64> = HashMap::new();
    let mut k: usize = 0;
    while k < players.len()
        invariant
            k <= players@.len(),
            scores@ == round_scores(players@.take(k as int)),
        decreases players@.len() - k,
    {
        let p: Player = players[k];
        proof {
            assert(players@.take(k as int + 1).drop_last() =~= players@.take(k as int));
        }
        match p.state {
            PlayerState::Spectator => {},
            _ => {
                scores.insert(p.id.0, p.score);
            },
        }
        k = k + 1;
    }
    proof {
        assert(players@.take(players@.len() as int) =~= players@);
    }
    GameStats { scores }
}

/// The two models hold the same entities and the same generator.
pub open spec fn same_entities(m0: Model, m1: Model) -> bool {
    &&& m1.id_gen == m0.id_gen
    &&& m1.assets == m0.assets
    &&& m1.players@ == m0.players@
    &&& m1.humans@ == m0.humans@
    &&& m1.guns@ == m0.guns@
    &&& m1.projectiles@ == m0.projectiles@
    &&& m1.blocks@ == m0.blocks@
}

/// What the check of the round's state does to a step. A round in progress runs
/// its time down; when the time runs out or no human is left, it finishes with
/// the players' scores and waits `game_restart_delay`. A finished round runs its
/// delay down and, when it runs out, the game restarts.
pub open spec fn state_step(l0: Logic, l1: Logic) -> bool {
    let m0 = l0.model;
    let m1 = l1.model;
    &&& l1.delta_time == l0.delta_time
    &&& l1.events@ == l0.events@
    &&& match m0.state {
        GameState::InProgress { time_left } => {
            let t = sat(time_left - l0.delta_time);
            &&& same_entities(m0, m1)
            &&& if t <= 0 || m0.humans@.len() == 0 {
                m1.state matches GameState::Finished { time_left: r, stats }
                    && r == m0.config().game_restart_delay
                    && stats.scores@ == round_scores(m0.players@)
            } else {
                m1.state == (GameState::InProgress { time_left: t as i64 })
            }
        },
        GameState::Finished { time_left, stats } => {
            let t = sat(time_left - l0.delta_time);
            if t <= 0 {
                restarted(m0, m1)
            } else {
                &&& same_entities(m0, m1)
                &&& m1.state == (GameState::Finished { time_left: t as i64, stats })
            }
        },
    }
}

impl Logic {
    /// Ends the round when its time runs out or no human is left, and restarts
    /// the game when a finished round's delay runs out (see `state_step`).
    pub fn check_state(&mut self)
        requires
            old(self).model.wf(),
            arena_room(old(self).model),
        ensures
            final(self).model.wf(),
            state_step(*old(self), *final(self)),
    {
        let dt: Time = self.delta_time;
        let (in_progress, time_left): (bool, Time) = match &self.model.state {
            GameState::InProgress { time_left } => (true, *time_left),
            GameState::Finished { time_left, .. } => (false, *time_left),
        };
        let t: Time = time_sub(time_left, dt);
        if in_progress {
            if t <= 0 || self.model.humans.len() == 0 {
                let stats: GameStats = final_stats(&self.model.players);
                self.model.state = GameState::Finished {
                    time_left: self.model.assets.config.game_restart_delay,
                    stats,
                };
            } else {
                self.model.state = GameState::InProgress { time_left: t };
            }
        } else if t <= 0 {
            self.model.restart();
        } else if let GameState::Finished { time_left, .. } = &mut self.model.state {
            *time_left = t;
        }
    }
}

} // verus!
