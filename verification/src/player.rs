use vstd::prelude::*;
use std::collections::HashMap;
use crate::entity::{Keyed, find, has_key};
use crate::geometry::Position;
use crate::guns::{aim_done, lone_heavy_bullet, shoot_done};
use crate::id::{Id, PlayerId};
use crate::model::{Event, GameState, GameStats, Message, Model, Player, PlayerState};

verus! {

broadcast use vstd::std_specs::hash::group_hash_axioms;

/// A player that just joined: a spectator with no score.
pub open spec fn joined(id: PlayerId) -> Player {
    Player { id, state: PlayerState::Spectator, score: 0 }
}

/// The gun that the player with identifier `pid` controls, if it is there and
/// controls one.
pub open spec fn controlled_gun(ps: Seq<Player>, pid: PlayerId) -> Option<Id> {
    if exists|k: int| 0 <= k < ps.len() && (#[trigger] ps[k]).id == pid {
        let k = choose|k: int| 0 <= k < ps.len() && (#[trigger] ps[k]).id == pid;
        match ps[k].state {
            PlayerState::Gun { gun_id } => Some(gun_id),
            _ => None,
        }
    } else {
        None
    }
}

/// In a collection of players with distinct identifiers, the gun that a player
/// controls is read off its own entry.
pub proof fn lemma_controlled_gun(ps: Seq<Player>, pid: PlayerId, k: int)
    requires
        crate::entity::keys_distinct(ps),
        0 <= k < ps.len(),
        ps[k].id == pid,
    ensures
        controlled_gun(ps, pid) == (match ps[k].state {
            PlayerState::Gun { gun_id } => Some(gun_id),
            _ => None,
        }),
{
    let j = choose|j: int| 0 <= j < ps.len() && (#[trigger] ps[j]).id == pid;
    crate::entity::lemma_key_index(ps, j, k);
}

/// What a player's joining does: the player with identifier `id`, the generator's
/// next one, is added as a spectator; if it is the first player, the round is
/// finished, with no scores, for `game_initial_delay`.
pub open spec fn player_joined(m0: Model, m1: Model, id: PlayerId) -> bool {
    &&& id.0 == m0.id_gen.next_spec()
    &&& m1.id_gen.next_spec() == m0.id_gen.next_spec() + 1
    &&& m1.players@ == m0.players@.push(joined(id))
    &&& m0.players@.len() == 0 ==> (m1.state matches GameState::Finished { time_left, stats }
        && time_left == m0.config().game_initial_delay
        && stats.scores@ == Map::<u64, u64>::empty())
    &&& m0.players@.len() != 0 ==> m1.state == m0.state
    &&& m1.assets == m0.assets
    &&& m1.humans@ == m0.humans@
    &&& m1.guns@ == m0.guns@
    &&& m1.projectiles@ == m0.projectiles@
    &&& m1.blocks@ == m0.blocks@
}

/// What a player's leaving does: the player with identifier `pid` is removed, if
/// it is there, and so is the gun that it controls, if that gun is there.
pub open spec fn player_left(m0: Model, m1: Model, pid: PlayerId) -> bool {
    &&& !has_key(m0.players@, pid.0) ==> m1.players@ == m0.players@
    &&& forall|k: int| 0 <= k < m0.players@.len() && #[trigger] m0.players@[k].id == pid
        ==> m1.players@ == m0.players@.remove(k)
    &&& forall|i: int| 0 <= i < m0.guns@.len() && Some(#[trigger] m0.guns@[i].id) == controlled_gun(m0.players@, pid)
        ==> m1.guns@ == m0.guns@.remove(i)
    &&& (controlled_gun(m0.players@, pid) matches Some(g) && !has_key(m0.guns@, g.0) ==> m1.guns@ == m0.guns@)
    &&& controlled_gun(m0.players@, pid) is None ==> m1.guns@ == m0.guns@
    &&& m1.id_gen == m0.id_gen
    &&& m1.state == m0.state
    &&& m1.assets == m0.assets
    &&& m1.humans@ == m0.humans@
    &&& m1.projectiles@ == m0.projectiles@
    &&& m1.blocks@ == m0.blocks@
}

/// The message asks for a heavy shot of a gun that would spread it over a single
/// bullet.
pub open spec fn lone_heavy_shot(m: Model, pid: PlayerId, msg: Message) -> bool {
    &&& msg matches Message::Shoot { heavy } && heavy
    &&& controlled_gun(m.players@, pid) matches Some(g) && lone_heavy_bullet(m, g)
}

/// What a player's message does: a player that controls no gun changes nothing;
/// otherwise its gun aims at the point of the arena that the target wraps onto, or
/// shoots.
pub open spec fn message_handled(m0: Model, e0: Seq<Event>, m1: Model, e1: Seq<Event>, pid: PlayerId, msg: Message) -> bool {
    match controlled_gun(m0.players@, pid) {
        None => m1 == m0 && e1 == e0,
        Some(gun_id) => match msg {
            Message::Aim { target } => {
                &&& aim_done(m0, m1, gun_id, Position::from_world_spec(target, m0.arena()))
                &&& e1 == e0
            },
            Message::Shoot { heavy } => shoot_done(m0, e0, m1, e1, gun_id, heavy),
        },
    }
}

impl Model {
    /// Carries out a message of the player with identifier `player_id` (see
    /// `message_handled`).
    pub fn handle_message(&mut self, events: &mut Vec<Event>, player_id: &PlayerId, message: Message)
        requires
            old(self).wf(),
            old(self).id_gen.next_spec() + old(self).config().gun_heavy_bullets + 1 <= u64::MAX,
            !lone_heavy_shot(*old(self), *player_id, message),
        ensures
            final(self).wf(),
            message_handled(*old(self), old(events)@, *final(self), final(events)@, *player_id, message),
    {
        let ghost m0 = *self;
        let gun_id: Id = match find(&self.players, player_id.0) {
            Some(k) => {
                proof {
                    lemma_controlled_gun(m0.players@, *player_id, k as int);
                }
                match self.players[k].state {
                    PlayerState::Gun { gun_id } => gun_id,
                    _ => {
                        return;
                    },
                }
            },
            None => {
                proof {
                    if exists|k: int| 0 <= k < m0.players@.len() && (#[trigger] m0.players@[k]).id == *player_id {
                        let k = choose|k: int| 0 <= k < m0.players@.len() && (#[trigger] m0.players@[k]).id == *player_id;
                        assert(m0.players@[k].key() == player_id.0);
                    }
                }
                return;
            },
        };
        match message {
            Message::Aim { target } => {
                let target: Position = Position::from_world(target, self.assets.config.arena_size);
                self.gun_aim(gun_id, target);
            },
            Message::Shoot { heavy } => {
                self.gun_shoot(gun_id, heavy, events);
            },
        }
    }

    /// Adds a spectator and returns its identifier. The first player to join an
    /// empty game finds the round finished, with no scores, and the game starts
    /// after `game_initial_delay`.
    pub fn new_player(&mut self) -> (id: PlayerId)
        requires
            old(self).wf(),
            old(self).id_gen.next_spec() < u64::MAX,
        ensures
            final(self).wf(),
            player_joined(*old(self), *final(self), id),
    {
        let ghost m0 = *self;
        if self.players.len() == 0 {
            self.state = GameState::Finished {
                time_left: self.assets.config.game_initial_delay,
                stats: GameStats { scores: HashMap::new() },
            };
        }
        let id: PlayerId = self.id_gen.next_player();
        self.players.push(Player { id, state: PlayerState::Spectator, score: 0 });
        proof {
            let n0 = m0.id_gen.next_spec();
            let n1 = self.id_gen.next_spec();
            let ps = self.players@;
            assert forall|x: int| 0 <= x < ps.len() implies #[trigger] ps[x].key() < n1
                && (x < m0.players@.len() ==> ps[x] == m0.players@[x] && ps[x].key() < n0) by {
                if x < m0.players@.len() {
                    assert(m0.players@[x].key() < n0);
                }
            }
            assert forall|x: int, y: int| 0 <= x < ps.len() && 0 <= y < ps.len() && x != y
                implies #[trigger] ps[x].key() != #[trigger] ps[y].key() by {
                if x < m0.players@.len() && y < m0.players@.len() {
                    assert(m0.players@[x].key() != m0.players@[y].key());
                }
            }
            assert forall|x: int, y: int|
                0 <= x < ps.len() && 0 <= y < ps.len() && x != y && (#[trigger] ps[x]).state is Gun
                implies (#[trigger] ps[y]).state != ps[x].state by {
                if x < m0.players@.len() && y < m0.players@.len() {
                    assert(m0.players@[x].state is Gun ==> m0.players@[y].state != m0.players@[x].state);
                }
            }
            assert forall|x: int| 0 <= x < ps.len() implies ((#[trigger] ps[x]).state matches PlayerState::Gun { gun_id }
                ==> gun_id.0 < n1) by {
                if x < m0.players@.len() {
                    assert(m0.players@[x].state matches PlayerState::Gun { gun_id } ==> gun_id.0 < n0);
                }
            }
            assert forall|x: int| 0 <= x < self.humans@.len() implies #[trigger] self.humans@[x].key() < n1
                && (self.humans@[x].holding_gun matches Some(g) ==> g.0 < n1) by {
                assert(m0.humans@[x].key() < n0);
                assert(m0.humans@[x].holding_gun matches Some(g) ==> g.0 < n0);
            }
            assert forall|x: int| 0 <= x < self.guns@.len() implies #[trigger] self.guns@[x].key() < n1 by {
                assert(m0.guns@[x].key() < n0);
            }
            assert forall|x: int| 0 <= x < self.projectiles@.len() implies #[trigger] self.projectiles@[x].key() < n1 by {
                assert(m0.projectiles@[x].key() < n0);
            }
            assert forall|x: int| 0 <= x < self.blocks@.len() implies #[trigger] self.blocks@[x].key() < n1 by {
                assert(m0.blocks@[x].key() < n0);
            }
        }
        id
    }

    /// Removes the player with identifier `player_id`, if it is there, and the gun
    /// that it controls, if that gun is there.
    pub fn drop_player(&mut self, player_id: PlayerId)
        requires
            old(self).wf(),
        ensures
            final(self).wf(),
            player_left(*old(self), *final(self), player_id),
    {
        let ghost m0 = *self;
        let k: usize = match find(&self.players, player_id.0) {
            Some(k) => k,
            None => {
                proof {
                    assert forall|k: int| 0 <= k < m0.players@.len() implies #[trigger] m0.players@[k].id != player_id by {
                        assert(m0.players@[k].key() != player_id.0);
                    }
                    if exists|k: int| 0 <= k < m0.players@.len() && (#[trigger] m0.players@[k]).id == player_id {
                        let k = choose|k: int| 0 <= k < m0.players@.len() && (#[trigger] m0.players@[k]).id == player_id;
                        assert(false);
                    }
                }
                return;
            },
        };
        proof {
            assert forall|j: int| 0 <= j < m0.players@.len() && #[trigger] m0.players@[j].id == player_id implies j == k as int by {
                crate::entity::lemma_key_index(m0.players@, j, k as int);
            }
            lemma_controlled_gun(m0.players@, player_id, k as int);
        }
        let player: Player = self.players.remove(k);
        let ghost m1 = *self;
        proof {
            lemma_players_removed_wf(m0, m1, k as int);
        }
        if let PlayerState::Gun { gun_id } = player.state {
            match find(&self.guns, gun_id.0) {
                Some(gi) => {
                    proof {
                        assert forall|i: int| 0 <= i < m0.guns@.len() && #[trigger] m0.guns@[i].id == gun_id implies i == gi as int by {
                            crate::entity::lemma_key_index(m0.guns@, i, gi as int);
                        }
                    }
                    self.guns.remove(gi);
                    proof {
                        lemma_gun_removed_wf(m1, *self, gi as int);
                    }
                },
                None => {
                    proof {
                        assert forall|i: int| 0 <= i < m0.guns@.len() implies #[trigger] m0.guns@[i].id != gun_id by {
                            assert(m0.guns@[i].key() != gun_id.0);
                        }
                    }
                },
            }
        }
    }
}

proof fn lemma_players_removed_wf(m0: Model, m1: Model, k: int)
    requires
        m0.wf(),
        0 <= k < m0.players@.len(),
        m1.players@ == m0.players@.remove(k),
        m1.id_gen == m0.id_gen,
        m1.assets == m0.assets,
        m1.humans@ == m0.humans@,
        m1.guns@ == m0.guns@,
        m1.projectiles@ == m0.projectiles@,
        m1.blocks@ == m0.blocks@,
    ensures
        m1.wf(),
{
    let p0 = m0.players@;
    let p1 = m1.players@;
    assert forall|x: int| 0 <= x < p1.len() implies #[trigger] p1[x] == p0[if x < k { x } else { x + 1 }] by {}
    assert forall|x: int, y: int| 0 <= x < p1.len() && 0 <= y < p1.len() && x != y
        implies #[trigger] p1[x].key() != #[trigger] p1[y].key() by {
        let a = if x < k { x } else { x + 1 };
        let b = if y < k { y } else { y + 1 };
        assert(p1[x] == p0[a] && p1[y] == p0[b]);
    }
    assert forall|x: int| 0 <= x < p1.len() implies #[trigger] p1[x].key() < m1.id_gen.next_spec() by {
        let a = if x < k { x } else { x + 1 };
        assert(p1[x] == p0[a]);
    }
    assert forall|x: int, y: int|
        0 <= x < p1.len() && 0 <= y < p1.len() && x != y && (#[trigger] p1[x]).state is Gun
        implies (#[trigger] p1[y]).state != p1[x].state by {
        let a = if x < k { x } else { x + 1 };
        let b = if y < k { y } else { y + 1 };
        assert(p1[x] == p0[a] && p1[y] == p0[b]);
    }
    assert forall|x: int| 0 <= x < p1.len() implies ((#[trigger] p1[x]).state matches PlayerState::Gun { gun_id }
        ==> gun_id.0 < m1.id_gen.next_spec()) by {
        let a = if x < k { x } else { x + 1 };
        assert(p1[x] == p0[a]);
    }
}

proof fn lemma_gun_removed_wf(m0: Model, m1: Model, i: int)
    requires
        m0.wf(),
        0 <= i < m0.guns@.len(),
        m1.guns@ == m0.guns@.remove(i),
        m1.id_gen == m0.id_gen,
        m1.assets == m0.assets,
        m1.players@ == m0.players@,
        m1.humans@ == m0.humans@,
        m1.projectiles@ == m0.projectiles@,
        m1.blocks@ == m0.blocks@,
    ensures
        m1.wf(),
{
    let g0 = m0.guns@;
    let g1 = m1.guns@;
    let h = m0.humans@;
    assert forall|x: int| 0 <= x < g1.len() implies #[trigger] g1[x] == g0[if x < i { x } else { x + 1 }] by {}
    assert forall|x: int, y: int| 0 <= x < g1.len() && 0 <= y < g1.len() && x != y
        implies #[trigger] g1[x].key() != #[trigger] g1[y].key() by {
        let a = if x < i { x } else { x + 1 };
        let b = if y < i { y } else { y + 1 };
        assert(g1[x] == g0[a] && g1[y] == g0[b]);
    }
    assert forall|x: int| 0 <= x < g1.len() implies #[trigger] g1[x].key() < m1.id_gen.next_spec()
        && g1[x].position.in_arena(m1.arena()) by {
        let a = if x < i { x } else { x + 1 };
        assert(g1[x] == g0[a]);
    }
    assert forall|x: int| 0 <= x < g1.len() && (#[trigger] g1[x]).attached_human is Some
        implies has_key(h, g1[x].attached_human.unwrap().0) by {
        let a = if x < i { x } else { x + 1 };
        assert(g1[x] == g0[a]);
    }
    assert forall|x: int, y: int| 0 <= x < g1.len() && 0 <= y < h.len() implies ((#[trigger] g1[x]).attached_human
        == Some((#[trigger] h[y]).id) <==> h[y].holding_gun == Some(g1[x].id)) by {
        let a = if x < i { x } else { x + 1 };
        assert(g1[x] == g0[a]);
        assert(g0[a].attached_human == Some(h[y].id) <==> h[y].holding_gun == Some(g0[a].id));
    }
}

} // verus!
