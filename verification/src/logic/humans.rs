use vstd::prelude::*;
use crate::config::Config;
use crate::geometry::{MILLIS, Time, UNIT, sat, saturate, tdiv, time_sub, trunc_div};
use crate::logic::Logic;
use crate::model::Human;
use crate::random::random_range;
use crate::rotation::{Rotation, arg_spec, direction_at, normalize};

verus! {

/// The speed of a human: running while it holds a gun, walking otherwise.
pub open spec fn human_speed(h: Human, c: Config) -> i64 {
    if h.holding_gun is Some { c.human_run_speed } else { c.human_walk_speed }
}

/// The knock-out timer after `dt`: it runs down and ends when it runs out.
pub open spec fn knock_out_after(t: Option<Time>, dt: Time) -> Option<Time> {
    match t {
        Some(t) => if sat(t - dt) <= 0 { None } else { Some(sat(t - dt) as i64) },
        None => None,
    }
}

/// The angle that a turn rate of `rate` (angle units per second) covers in `dt`.
pub open spec fn turn_angle(rate: i64, dt: Time) -> int {
    sat(tdiv(rate * dt, MILLIS as int))
}

/// A human after `dt`, turned by `rate`: its knock-out timer runs down, and it
/// keeps moving at its speed in its direction turned by the rate.
pub open spec fn steered(h: Human, rate: i64, c: Config, dt: Time) -> Human {
    let angle = normalize(arg_spec(h.velocity) + normalize(turn_angle(rate, dt)));
    Human {
        knock_out_timer: knock_out_after(h.knock_out_timer, dt),
        velocity: direction_at(angle).scale_spec(human_speed(h, c) as int, UNIT as int),
        ..h
    }
}

/// The human became `h1` by steering with some rate that the configuration allows.
pub open spec fn steers_to(h0: Human, h1: Human, c: Config, dt: Time) -> bool {
    exists|rate: i64| -c.human_turn_speed <= rate <= c.human_turn_speed && #[trigger] steered(h0, rate, c, dt) == h1
}

/// The behaviour of a human over `dt` when its random turn rate came out as
/// `rate` (see `steered`).
pub fn steer(h: &Human, rate: i64, c: &Config, dt: Time) -> (r: Human)
    requires
        c.wf(),
        -c.human_turn_speed <= rate <= c.human_turn_speed,
    ensures
        r == steered(*h, rate, *c, dt),
{
    let mut h2: Human = *h;
    if let Some(t) = h.knock_out_timer {
        let t2: Time = time_sub(t, dt);
        h2.knock_out_timer = if t2 <= 0 { None } else { Some(t2) };
    }
    let speed: i64 = if h.holding_gun.is_some() { c.human_run_speed } else { c.human_walk_speed };
    let ri: i128 = rate as i128;
    let di: i128 = dt as i128;
    assert(-0x100_0000_0000_0000_0000_0000_0000 <= ri * di <= 0x100_0000_0000_0000_0000_0000_0000) by (nonlinear_arith)
        requires -0x100_0000_0000 <= ri <= 0x100_0000_0000, -0x8000_0000_0000_0000 <= di <= 0x8000_0000_0000_0000;
    let turn: i64 = saturate(trunc_div(ri * di, MILLIS as i128));
    let rotation: Rotation = Rotation::new(h.velocity.arg()).add(Rotation::new(turn));
    proof {
        let a = arg_spec(h.velocity);
        assert(0 <= a < crate::rotation::TURN);
    }
    h2.velocity = rotation.direction().scale(speed, UNIT);
    h2
}

/// What the humans' walk does to a step: every human `steers_to` its next state,
/// nothing else changes.
pub open spec fn humans_step(l0: Logic, l1: Logic) -> bool {
    &&& l1.model.humans@.len() == l0.model.humans@.len()
    &&& forall|i: int| 0 <= i < l0.model.humans@.len() ==> steers_to(
        l0.model.humans@[i],
        #[trigger] l1.model.humans@[i],
        l0.model.config(),
        l0.delta_time,
    )
    &&& l1.delta_time == l0.delta_time
    &&& l1.events@ == l0.events@
    &&& l1.model.id_gen == l0.model.id_gen
    &&& l1.model.state == l0.model.state
    &&& l1.model.assets == l0.model.assets
    &&& l1.model.players@ == l0.model.players@
    &&& l1.model.guns@ == l0.model.guns@
    &&& l1.model.projectiles@ == l0.model.projectiles@
    &&& l1.model.blocks@ == l0.model.blocks@
}

impl Logic {
    /// Runs the knock-out timers down and lets every human walk or run on, turned
    /// by a random rate in `[-human_turn_speed, human_turn_speed]` drawn for it
    /// (see `steered`).
    pub fn process_humans(&mut self)
        requires
            old(self).model.wf(),
        ensures
            final(self).model.wf(),
            humans_step(*old(self), *final(self)),
    {
        let config: Config = self.model.assets.config;
        let dt: Time = self.delta_time;
        let ghost m0 = self.model;
        let mut i: usize = 0;
        while i < self.model.humans.len()
            invariant
                i <= m0.humans@.len(),
                config == m0.config(),
                config.wf(),
                dt == old(self).delta_time,
                self.delta_time == dt,
                self.events@ == old(self).events@,
                self.model.id_gen == m0.id_gen,
                self.model.state == m0.state,
                self.model.assets == m0.assets,
                self.model.players@ == m0.players@,
                self.model.guns@ == m0.guns@,
                self.model.projectiles@ == m0.projectiles@,
                self.model.blocks@ == m0.blocks@,
                self.model.humans@.len() == m0.humans@.len(),
                forall|k: int| 0 <= k < i ==> steers_to(m0.humans@[k], #[trigger] self.model.humans@[k], config, dt),
                forall|k: int| i <= k < m0.humans@.len() ==> #[trigger] self.model.humans@[k] == m0.humans@[k],
            decreases m0.humans@.len() - i,
        {
            let h: Human = self.model.humans[i];
            let rate: i64 = random_range(-config.human_turn_speed, config.human_turn_speed);
            let h2: Human = steer(&h, rate, &config, dt);
            self.model.humans.set(i, h2);
            proof {
                assert(steered(m0.humans@[i as int], rate, config, dt) == self.model.humans@[i as int]);
                assert(steers_to(m0.humans@[i as int], self.model.humans@[i as int], config, dt));
            }
            i = i + 1;
        }
        proof {
            assert forall|k: int| 0 <= k < m0.humans@.len() implies (#[trigger] self.model.humans@[k]).id == m0.humans@[k].id
                && self.model.humans@[k].holding_gun == m0.humans@[k].holding_gun
                && self.model.humans@[k].position.in_arena(m0.arena()) by {
                assert(steers_to(m0.humans@[k], self.model.humans@[k], config, dt));
                let rate = choose|rate: i64| -config.human_turn_speed <= rate <= config.human_turn_speed
                    && #[trigger] steered(m0.humans@[k], rate, config, dt) == self.model.humans@[k];
            }
            assert forall|k: int| 0 <= k < m0.guns@.len() implies (#[trigger] self.model.guns@[k]).id == m0.guns@[k].id
                && self.model.guns@[k].attached_human == m0.guns@[k].attached_human
                && self.model.guns@[k].position.in_arena(m0.arena()) by {
            }
            assert forall|k: int| 0 <= k < m0.projectiles@.len() implies (#[trigger] self.model.projectiles@[k]).id == m0.projectiles@[k].id
                && self.model.projectiles@[k].position.in_arena(m0.arena()) by {
            }
            crate::logic::lemma_skeleton_wf(m0, self.model);
        }
    }
}

} // verus!
