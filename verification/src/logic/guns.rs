use vstd::prelude::*;
use crate::config::Config;
use crate::geometry::{Time, sat, time_sub};
use crate::logic::Logic;
use crate::model::Gun;

verus! {

/// A gun after reloading for `dt`: a full magazine waits for the whole reload
/// time; otherwise the time runs down, and when it runs out one bullet is added and
/// the reload starts over.
pub open spec fn reloaded(g: Gun, c: Config, dt: Time) -> Gun {
    if g.ammo >= c.gun_magazine_size {
        Gun { next_reload: c.gun_reload_time, ..g }
    } else {
        let t = sat(g.next_reload - dt);
        if t <= 0 {
            Gun { ammo: (g.ammo + 1) as usize, next_reload: c.gun_reload_time, ..g }
        } else {
            Gun { next_reload: t as i64, ..g }
        }
    }
}

/// What reloading does to a step: every gun is `reloaded`, nothing else changes.
pub open spec fn guns_step(l0: Logic, l1: Logic) -> bool {
    &&& l1.delta_time == l0.delta_time
    &&& l1.events@ == l0.events@
    &&& l1.model.id_gen == l0.model.id_gen
    &&& l1.model.state == l0.model.state
    &&& l1.model.assets == l0.model.assets
    &&& l1.model.players@ == l0.model.players@
    &&& l1.model.humans@ == l0.model.humans@
    &&& l1.model.projectiles@ == l0.model.projectiles@
    &&& l1.model.blocks@ == l0.model.blocks@
    &&& l1.model.guns@ == l0.model.guns@.map_values(
        |g: Gun| reloaded(g, l0.model.config(), l0.delta_time),
    )
}

impl Logic {
    /// Reloads every gun (see `reloaded`).
    pub fn process_guns(&mut self)
        requires
            old(self).model.wf(),
        ensures
            final(self).model.wf(),
            guns_step(*old(self), *final(self)),
    {
        let config: Config = self.model.assets.config;
        let dt: Time = self.delta_time;
        let ghost m0 = self.model;
        let mut i: usize = 0;
        while i < self.model.guns.len()
            invariant
                i <= m0.guns@.len(),
                config == m0.config(),
                dt == old(self).delta_time,
                self.delta_time == dt,
                self.events@ == old(self).events@,
                self.model.id_gen == m0.id_gen,
                self.model.state == m0.state,
                self.model.assets == m0.assets,
                self.model.players@ == m0.players@,
                self.model.humans@ == m0.humans@,
                self.model.projectiles@ == m0.projectiles@,
                self.model.blocks@ == m0.blocks@,
                self.model.guns@.len() == m0.guns@.len(),
                forall|k: int| 0 <= k < i ==> #[trigger] self.model.guns@[k] == reloaded(m0.guns@[k], config, dt),
                forall|k: int| i <= k < m0.guns@.len() ==> #[trigger] self.model.guns@[k] == m0.guns@[k],
            decreases m0.guns@.len() - i,
        {
            let mut gun: Gun = self.model.guns[i];
            if gun.ammo >= config.gun_magazine_size {
                gun.next_reload = config.gun_reload_time;
            } else {
                gun.next_reload = time_sub(gun.next_reload, dt);
                if gun.next_reload <= 0 && gun.ammo < config.gun_magazine_size {
                    gun.ammo = gun.ammo + 1;
                    gun.next_reload = config.gun_reload_time;
                }
            }
            self.model.guns.set(i, gun);
            i = i + 1;
        }
        proof {
            assert(self.model.guns@ =~= m0.guns@.map_values(|g: Gun| reloaded(g, config, dt)));
            crate::logic::lemma_guns_moved(m0, self.model);
        }
    }
}

} // verus!
