use vstd::prelude::*;
use crate::config::Config;
use crate::entity::{Keyed, find, has_key, keys_distinct};
use crate::id::PlayerId;
use crate::model::{Event, Gun, Human, Player, PlayerState, Projectile, player_guns_distinct};
use crate::geometry::{Time, sat, time_sub};
use crate::logic::Logic;
use crate::model::Model;
use crate::entity::{lemma_filter_from, lemma_filter_distinct, lemma_filter_below};
use crate::id::Id;

verus! {

/// The human was killed by the player.
pub open spec fn killed_by(h: Human, pid: PlayerId) -> bool {
    h.death matches Some(d) && d.killer == Some(pid)
}

/// The number of humans that the player killed.
pub open spec fn human_kills(humans: Seq<Human>, pid: PlayerId) -> nat {
    humans.filter(|h: Human| killed_by(h, pid)).len()
}

/// Some dead human holds the gun.
pub open spec fn held_by_dead(humans: Seq<Human>, gun_id: crate::id::Id) -> bool {
    exists|j: int|
        0 <= j < humans.len() && (#[trigger] humans[j]).death is Some && humans[j].holding_gun
            == Some(gun_id)
}

/// A player after the human deaths: the kill score for each human it killed.
pub open spec fn after_human_deaths_player(p: Player, humans: Seq<Human>, config: Config) -> Player {
    Player { score: (p.score + config.human_kill_score * human_kills(humans, p.id)) as u64, ..p }
}

/// A gun after the human deaths: a dead human lets go of its gun.
pub open spec fn after_human_deaths_gun(g: Gun, humans: Seq<Human>) -> Gun {
    if held_by_dead(humans, g.id) {
        Gun { attached_human: None, ..g }
    } else {
        g
    }
}

pub open spec fn alive_human() -> spec_fn(Human) -> bool {
    |h: Human| h.death is None
}

/// Scores the human deaths, releases the guns of dead humans and removes the dead
/// humans.
pub fn human_deaths(
    players: &mut Vec<Player>,
    humans: &mut Vec<Human>,
    guns: &mut Vec<Gun>,
    config: &Config,
)
    requires
        keys_distinct(old(players)@),
        keys_distinct(old(guns)@),
        forall|k: int|
            0 <= k < old(players)@.len() ==> (#[trigger] old(players)@[k]).score
                + config.human_kill_score * old(humans)@.len() <= u64::MAX,
    ensures
        final(players)@.len() == old(players)@.len(),
        forall|k: int|
            0 <= k < old(players)@.len() ==> #[trigger] final(players)@[k]
                == after_human_deaths_player(old(players)@[k], old(humans)@, *config),
        final(guns)@.len() == old(guns)@.len(),
        forall|i: int|
            0 <= i < old(guns)@.len() ==> #[trigger] final(guns)@[i] == after_human_deaths_gun(
                old(guns)@[i],
                old(humans)@,
            ),
        final(humans)@ == old(humans)@.filter(alive_human()),
{
    let ghost h0 = humans@;
    let ghost p0 = players@;
    let ghost g0 = guns@;
    let mut i: usize = 0;
    while i < humans.len()
        invariant
            humans@ == h0,
            i <= h0.len(),
            keys_distinct(p0),
            keys_distinct(g0),
            forall|k: int|
                0 <= k < p0.len() ==> (#[trigger] p0[k]).score + config.human_kill_score * h0.len()
                    <= u64::MAX,
            players@.len() == p0.len(),
            forall|k: int|
                0 <= k < p0.len() ==> #[trigger] players@[k] == after_human_deaths_player(
                    p0[k],
                    h0.take(i as int),
                    *config,
                ),
            guns@.len() == g0.len(),
            forall|g: int|
                0 <= g < g0.len() ==> #[trigger] guns@[g] == after_human_deaths_gun(
                    g0[g],
                    h0.take(i as int),
                ),
        decreases h0.len() - i,
    {
        let h: Human = humans[i];
        let ghost before = h0.take(i as int);
        let ghost after = h0.take(i as int + 1);
        proof {
            assert(after =~= before.push(h));
            lemma_kills_push(before, h);
            lemma_held_push(before, h);
        }
        let ghost players_before = players@;
        let ghost guns_before = guns@;
        let mut scored: Option<usize> = None;
        if let Some(info) = h.death {
            if let Some(pid) = info.killer {
                if let Some(k) = find(players, pid.0) {
                    proof {
                        lemma_kills_bound(after, p0[k as int].id, h0);
                        assert(p0[k as int].score + config.human_kill_score * human_kills(after, p0[k as int].id) <= u64::MAX) by (nonlinear_arith)
                            requires
                                p0[k as int].score + config.human_kill_score * h0.len() <= u64::MAX,
                                human_kills(after, p0[k as int].id) <= h0.len();
                        assert(config.human_kill_score * human_kills(after, p0[k as int].id) ==
                            config.human_kill_score * human_kills(before, p0[k as int].id) + config.human_kill_score) by (nonlinear_arith)
                            requires human_kills(after, p0[k as int].id) == human_kills(before, p0[k as int].id) + 1;
                    }
                    let mut p: Player = players[k];
                    p.score = p.score + config.human_kill_score;
                    players.set(k, p);
                    scored = Some(k);
                    proof {
                        assert(players_before[k as int].id == pid);
                        assert(killed_by(h, players_before[k as int].id));
                    }
                }
            }
        }
        proof {
            assert(keys_distinct(players_before)) by {
                assert forall|x: int, y: int|
                    0 <= x < players_before.len() && 0 <= y < players_before.len() && x != y
                    implies #[trigger] players_before[x].key() != #[trigger] players_before[y].key() by {
                    assert(players_before[x].id == p0[x].id);
                    assert(players_before[y].id == p0[y].id);
                    assert(p0[x].key() != p0[y].key());
                }
            }
            assert forall|k: int| 0 <= k < p0.len() implies #[trigger] players@[k]
                == after_human_deaths_player(p0[k], after, *config) by {
                assert(players_before[k] == after_human_deaths_player(p0[k], before, *config));
                assert(players_before[k].id == p0[k].id);
                if scored is Some && scored.unwrap() as int == k {
                    assert(killed_by(h, p0[k].id));
                } else {
                    if killed_by(h, p0[k].id) {
                        let pid = h.death.unwrap().killer.unwrap();
                        assert(players_before[k].key() == pid.0);
                        if scored is Some {
                            let kk = scored.unwrap() as int;
                            assert(players_before[kk].key() == pid.0);
                            crate::entity::lemma_key_index(players_before, k, kk);
                        } else {
                            assert(has_key(players_before, pid.0));
                        }
                    }
                    assert(players@[k] == players_before[k]);
                }
            }
        }
        let mut released: Option<usize> = None;
        if h.death.is_some() {
            if let Some(gun_id) = h.holding_gun {
                if let Some(g) = find(guns, gun_id.0) {
                    let mut gun: Gun = guns[g];
                    gun.attached_human = None;
                    guns.set(g, gun);
                    released = Some(g);
                }
            }
        }
        proof {
            assert forall|g: int| 0 <= g < g0.len() implies #[trigger] guns@[g]
                == after_human_deaths_gun(g0[g], after) by {
                assert(guns_before[g] == after_human_deaths_gun(g0[g], before));
                assert(guns_before[g].id == g0[g].id);
                if released is Some && released.unwrap() as int == g {
                    assert(h.death is Some && h.holding_gun == Some(g0[g].id));
                } else {
                    if h.death is Some && h.holding_gun == Some(g0[g].id) {
                        assert(guns_before[g].key() == g0[g].id.0);
                        if released is Some {
                            let gg = released.unwrap() as int;
                            assert(guns_before[gg].key() == g0[g].id.0);
                            assert(keys_distinct(guns_before)) by {
                                assert forall|x: int, y: int|
                                    0 <= x < guns_before.len() && 0 <= y < guns_before.len() && x != y
                                    implies #[trigger] guns_before[x].key() != #[trigger] guns_before[y].key() by {
                                    assert(guns_before[x].id == g0[x].id);
                                    assert(guns_before[y].id == g0[y].id);
                                    assert(g0[x].key() != g0[y].key());
                                }
                            }
                            crate::entity::lemma_key_index(guns_before, g, gg);
                        } else {
                            assert(has_key(guns_before, g0[g].id.0));
                        }
                    }
                    assert(guns@[g] == guns_before[g]);
                }
            }
        }
        i = i + 1;
    }
    proof {
        assert(h0.take(h0.len() as int) =~= h0);
    }
    crate::entity::retain_alive(humans);
    proof {
        assert(crate::entity::alive_pred::<Human>() =~= alive_human());
    }
}

proof fn lemma_kills_push(s: Seq<Human>, h: Human)
    ensures
        forall|pid: PlayerId|
            #[trigger] human_kills(s.push(h), pid) == human_kills(s, pid) + if killed_by(h, pid) {
                1nat
            } else {
                0nat
            },
{
    assert forall|pid: PlayerId|
        #[trigger] human_kills(s.push(h), pid) == human_kills(s, pid) + if killed_by(h, pid) {
            1nat
        } else {
            0nat
        } by {
        s.lemma_filter_push(h, |x: Human| killed_by(x, pid));
    }
}

proof fn lemma_kills_bound(s: Seq<Human>, pid: PlayerId, whole: Seq<Human>)
    requires
        s.len() <= whole.len(),
    ensures
        human_kills(s, pid) <= whole.len(),
{
    s.lemma_filter_len(|x: Human| killed_by(x, pid));
}

proof fn lemma_held_push(s: Seq<Human>, h: Human)
    ensures
        forall|gid: crate::id::Id|
            #[trigger] held_by_dead(s.push(h), gid) == (held_by_dead(s, gid) || (h.death is Some
                && h.holding_gun == Some(gid))),
{
    assert forall|gid: crate::id::Id|
        #[trigger] held_by_dead(s.push(h), gid) == (held_by_dead(s, gid) || (h.death is Some
            && h.holding_gun == Some(gid))) by {
        let t = s.push(h);
        if held_by_dead(s, gid) {
            let j = choose|j: int|
                0 <= j < s.len() && (#[trigger] s[j]).death is Some && s[j].holding_gun == Some(gid);
            assert(t[j] == s[j]);
        }
        if h.death is Some && h.holding_gun == Some(gid) {
            assert(t[s.len() as int] == h);
        }
        if held_by_dead(t, gid) {
            let j = choose|j: int|
                0 <= j < t.len() && (#[trigger] t[j]).death is Some && t[j].holding_gun == Some(gid);
            if j < s.len() {
                assert(t[j] == s[j]);
            }
        }
    }
}


/// The gun's death scores for the player: the player killed it and does not own it.
pub open spec fn gun_killed_by(g: Gun, pid: PlayerId) -> bool {
    g.death matches Some(d) && d.killer == Some(pid) && g.owner != d.killer
}

/// The number of guns that count as kills of the player.
pub open spec fn gun_kills(guns: Seq<Gun>, pid: PlayerId) -> nat {
    guns.filter(|g: Gun| gun_killed_by(g, pid)).len()
}

/// Some dead gun carries the identifier.
pub open spec fn gun_dead(guns: Seq<Gun>, gun_id: Id) -> bool {
    exists|i: int| 0 <= i < guns.len() && (#[trigger] guns[i]).death is Some && guns[i].id == gun_id
}

/// Some dead gun is attached to the human.
pub open spec fn attached_to_dead_gun(guns: Seq<Gun>, human_id: Id) -> bool {
    exists|i: int|
        0 <= i < guns.len() && (#[trigger] guns[i]).death is Some && guns[i].attached_human == Some(
            human_id,
        )
}

/// A player after the gun deaths: a player whose gun died respawns, and a player
/// scores for each gun it killed that it does not own.
pub open spec fn after_gun_deaths_player(p: Player, guns: Seq<Gun>, config: Config) -> Player {
    Player {
        state: match p.state {
            PlayerState::Gun { gun_id } => if gun_dead(guns, gun_id) {
                PlayerState::Respawning { time_left: config.gun_respawn_time }
            } else {
                p.state
            },
            _ => p.state,
        },
        score: (p.score + config.gun_kill_score * gun_kills(guns, p.id)) as u64,
        ..p
    }
}

/// A human after the gun deaths: it lets go of a dead gun.
pub open spec fn after_gun_deaths_human(h: Human, guns: Seq<Gun>) -> Human {
    if attached_to_dead_gun(guns, h.id) {
        Human { holding_gun: None, ..h }
    } else {
        h
    }
}

pub open spec fn alive_gun() -> spec_fn(Gun) -> bool {
    |g: Gun| g.death is None
}

/// The first player that controls the gun.
fn find_gun_player(players: &Vec<Player>, gun_id: Id) -> (r: Option<usize>)
    ensures
        r matches Some(k) ==> k < players@.len() && players@[k as int].state == (PlayerState::Gun { gun_id }),
        r is None ==> forall|k: int| 0 <= k < players@.len() ==> (#[trigger] players@[k]).state != (PlayerState::Gun { gun_id }),
{
    let mut k: usize = 0;
    while k < players.len()
        invariant
            k <= players@.len(),
            forall|j: int| 0 <= j < k ==> (#[trigger] players@[j]).state != (PlayerState::Gun { gun_id }),
        decreases players@.len() - k,
    {
        if let PlayerState::Gun { gun_id: g } = players[k].state {
            if g == gun_id {
                return Some(k);
            }
        }
        k = k + 1;
    }
    None
}

/// Respawns the players whose guns died, scores the gun kills, frees the humans
/// that held dead guns and removes the dead guns.
pub fn gun_deaths(
    players: &mut Vec<Player>,
    humans: &mut Vec<Human>,
    guns: &mut Vec<Gun>,
    config: &Config,
)
    requires
        keys_distinct(old(players)@),
        keys_distinct(old(humans)@),
        keys_distinct(old(guns)@),
        player_guns_distinct(old(players)@),
        forall|k: int|
            0 <= k < old(players)@.len() ==> (#[trigger] old(players)@[k]).score
                + config.gun_kill_score * old(guns)@.len() <= u64::MAX,
    ensures
        final(players)@.len() == old(players)@.len(),
        forall|k: int|
            0 <= k < old(players)@.len() ==> #[trigger] final(players)@[k]
                == after_gun_deaths_player(old(players)@[k], old(guns)@, *config),
        final(humans)@.len() == old(humans)@.len(),
        forall|j: int|
            0 <= j < old(humans)@.len() ==> #[trigger] final(humans)@[j] == after_gun_deaths_human(
                old(humans)@[j],
                old(guns)@,
            ),
        final(guns)@ == old(guns)@.filter(alive_gun()),
{
    let ghost h0 = humans@;
    let ghost p0 = players@;
    let ghost g0 = guns@;
    let mut i: usize = 0;
    while i < guns.len()
        invariant
            guns@ == g0,
            i <= g0.len(),
            keys_distinct(p0),
            keys_distinct(h0),
            keys_distinct(g0),
            player_guns_distinct(p0),
            forall|k: int|
                0 <= k < p0.len() ==> (#[trigger] p0[k]).score + config.gun_kill_score * g0.len()
                    <= u64::MAX,
            players@.len() == p0.len(),
            forall|k: int|
                0 <= k < p0.len() ==> #[trigger] players@[k] == after_gun_deaths_player(
                    p0[k],
                    g0.take(i as int),
                    *config,
                ),
            humans@.len() == h0.len(),
            forall|j: int|
                0 <= j < h0.len() ==> #[trigger] humans@[j] == after_gun_deaths_human(
                    h0[j],
                    g0.take(i as int),
                ),
        decreases g0.len() - i,
    {
        let g: Gun = guns[i];
        let ghost before = g0.take(i as int);
        let ghost after = g0.take(i as int + 1);
        let ghost players_before = players@;
        let ghost humans_before = humans@;
        proof {
            assert(after =~= before.push(g));
            lemma_gun_kills_push(before, g);
            lemma_gun_dead_push(before, g);
            lemma_attached_push(before, g);
            assert(g0[i as int] == g);
            assert(keys_distinct(players_before)) by {
                assert forall|x: int, y: int|
                    0 <= x < players_before.len() && 0 <= y < players_before.len() && x != y
                    implies #[trigger] players_before[x].key() != #[trigger] players_before[y].key() by {
                    assert(p0[x].key() != p0[y].key());
                }
            }
            assert(keys_distinct(humans_before)) by {
                assert forall|x: int, y: int|
                    0 <= x < humans_before.len() && 0 <= y < humans_before.len() && x != y
                    implies #[trigger] humans_before[x].key() != #[trigger] humans_before[y].key() by {
                    assert(h0[x].key() != h0[y].key());
                }
            }
            // The gun's identifier is not among those before it.
            assert(!gun_dead(before, g.id)) by {
                if gun_dead(before, g.id) {
                    let x = choose|x: int| 0 <= x < before.len() && (#[trigger] before[x]).death is Some && before[x].id == g.id;
                    assert(before[x] == g0[x]);
                    assert(g0[x].key() != g0[i as int].key());
                }
            }
        }
        let mut respawned: Option<usize> = None;
        let mut scored: Option<usize> = None;
        let mut freed: Option<usize> = None;
        let ghost mut players_mid = players@;
        if let Some(info) = g.death {
            if let Some(k) = find_gun_player(players, g.id) {
                let mut p: Player = players[k];
                p.state = PlayerState::Respawning { time_left: config.gun_respawn_time };
                players.set(k, p);
                respawned = Some(k);
            }
            proof {
                players_mid = players@;
                assert forall|x: int| 0 <= x < p0.len() implies #[trigger] players_mid[x].id == players_before[x].id
                    && players_mid[x].score == players_before[x].score
                    && players_mid[x].state == (if respawned is Some && respawned.unwrap() as int == x {
                        PlayerState::Respawning { time_left: config.gun_respawn_time } } else { players_before[x].state }) by {
                }
            }
            if g.owner != info.killer {
                if let Some(pid) = info.killer {
                    if let Some(k) = find(players, pid.0) {
                        proof {
                            assert(players@[k as int].id == p0[k as int].id);
                            assert(gun_killed_by(g, p0[k as int].id));
                            lemma_gun_kills_bound(after, p0[k as int].id, g0);
                            assert(p0[k as int].score + config.gun_kill_score * gun_kills(after, p0[k as int].id) <= u64::MAX) by (nonlinear_arith)
                                requires
                                    p0[k as int].score + config.gun_kill_score * g0.len() <= u64::MAX,
                                    gun_kills(after, p0[k as int].id) <= g0.len();
                            assert(config.gun_kill_score * gun_kills(after, p0[k as int].id) ==
                                config.gun_kill_score * gun_kills(before, p0[k as int].id) + config.gun_kill_score) by (nonlinear_arith)
                                requires gun_kills(after, p0[k as int].id) == gun_kills(before, p0[k as int].id) + 1;
                        }
                        let mut p: Player = players[k];
                        p.score = p.score + config.gun_kill_score;
                        players.set(k, p);
                        scored = Some(k);
                        proof {
                            assert(players_before[k as int].id == pid);
                            assert(players@[k as int].score == players_before[k as int].score + config.gun_kill_score);
                        }
                    }
                }
            }
            if let Some(hid) = g.attached_human {
                if let Some(j) = find(humans, hid.0) {
                    let mut h: Human = humans[j];
                    h.holding_gun = None;
                    humans.set(j, h);
                    freed = Some(j);
                }
            }
        }
        proof {
            assert forall|k: int| 0 <= k < p0.len() implies #[trigger] players@[k]
                == after_gun_deaths_player(p0[k], after, *config) by {
                let pb = players_before[k];
                assert(pb == after_gun_deaths_player(p0[k], before, *config));
                assert(pb.id == p0[k].id);
                assert(players@[k].id == pb.id);
                assert(players@[k].state == (if respawned is Some && respawned.unwrap() as int == k {
                        PlayerState::Respawning { time_left: config.gun_respawn_time } } else { pb.state }));
                assert(players@[k].score == pb.score + (if scored is Some && scored.unwrap() as int == k {
                        config.gun_kill_score as int } else { 0 }));
                // The state.
                if g.death is Some && p0[k].state == (PlayerState::Gun { gun_id: g.id }) {
                    assert(pb.state == p0[k].state);
                    if respawned is Some && respawned.unwrap() as int != k {
                        let kk = respawned.unwrap() as int;
                        assert(players_before[kk].state == (PlayerState::Gun { gun_id: g.id }));
                        assert(players_before[kk] == after_gun_deaths_player(p0[kk], before, *config));
                        assert(p0[kk].state == (PlayerState::Gun { gun_id: g.id }));
                        assert(false);
                    }
                    assert(respawned is Some);
                } else {
                    if respawned is Some && respawned.unwrap() as int == k {
                        assert(pb.state == (PlayerState::Gun { gun_id: g.id }));
                        assert(false);
                    }
                }
                // The score.
                if scored is Some && scored.unwrap() as int == k {
                    assert(gun_killed_by(g, p0[k].id));
                } else if gun_killed_by(g, p0[k].id) {
                    let pid = g.death.unwrap().killer.unwrap();
                    assert(players_before[k].key() == pid.0);
                    assert(players_mid[k].key() == pid.0);
                    if scored is Some {
                        let kk = scored.unwrap() as int;
                        assert(players_before[kk].key() == pid.0);
                        crate::entity::lemma_key_index(players_before, k, kk);
                    } else {
                        assert(has_key(players_mid, pid.0));
                    }
                }
                let e = after_gun_deaths_player(p0[k], after, *config);
                let eb = after_gun_deaths_player(p0[k], before, *config);
                assert(e.id == players@[k].id);
                assert(gun_kills(after, p0[k].id) == gun_kills(before, p0[k].id) + if gun_killed_by(g, p0[k].id) { 1nat } else { 0nat });
                assert(config.gun_kill_score * gun_kills(after, p0[k].id) == config.gun_kill_score * gun_kills(before, p0[k].id)
                    + if gun_killed_by(g, p0[k].id) { config.gun_kill_score as int } else { 0 }) by (nonlinear_arith)
                    requires gun_kills(after, p0[k].id) == gun_kills(before, p0[k].id) + if gun_killed_by(g, p0[k].id) { 1nat } else { 0nat };
                lemma_gun_kills_bound(after, p0[k].id, g0);
                assert(p0[k].score + config.gun_kill_score * gun_kills(after, p0[k].id) <= u64::MAX) by (nonlinear_arith)
                    requires
                        p0[k].score + config.gun_kill_score * g0.len() <= u64::MAX,
                        gun_kills(after, p0[k].id) <= g0.len();
                assert((scored is Some && scored.unwrap() as int == k) == gun_killed_by(g, p0[k].id));
                assert(e.score == players@[k].score);
                assert(e.state == players@[k].state);
            }
            assert forall|j: int| 0 <= j < h0.len() implies #[trigger] humans@[j]
                == after_gun_deaths_human(h0[j], after) by {
                assert(humans_before[j] == after_gun_deaths_human(h0[j], before));
                assert(humans_before[j].id == h0[j].id);
                if freed is Some && freed.unwrap() as int == j {
                    assert(g.death is Some && g.attached_human == Some(h0[j].id));
                } else {
                    if g.death is Some && g.attached_human == Some(h0[j].id) {
                        assert(humans_before[j].key() == h0[j].id.0);
                        if freed is Some {
                            let jj = freed.unwrap() as int;
                            assert(humans_before[jj].key() == h0[j].id.0);
                            crate::entity::lemma_key_index(humans_before, j, jj);
                        } else {
                            assert(has_key(humans_before, h0[j].id.0));
                        }
                    }
                    assert(humans@[j] == humans_before[j]);
                }
            }
        }
        i = i + 1;
    }
    proof {
        assert(g0.take(g0.len() as int) =~= g0);
    }
    crate::entity::retain_alive(guns);
    proof {
        assert(crate::entity::alive_pred::<Gun>() =~= alive_gun());
    }
}

proof fn lemma_gun_kills_push(s: Seq<Gun>, g: Gun)
    ensures
        forall|pid: PlayerId|
            #[trigger] gun_kills(s.push(g), pid) == gun_kills(s, pid) + if gun_killed_by(g, pid) {
                1nat
            } else {
                0nat
            },
{
    assert forall|pid: PlayerId|
        #[trigger] gun_kills(s.push(g), pid) == gun_kills(s, pid) + if gun_killed_by(g, pid) {
            1nat
        } else {
            0nat
        } by {
        s.lemma_filter_push(g, |x: Gun| gun_killed_by(x, pid));
    }
}

proof fn lemma_gun_kills_bound(s: Seq<Gun>, pid: PlayerId, whole: Seq<Gun>)
    requires
        s.len() <= whole.len(),
    ensures
        gun_kills(s, pid) <= whole.len(),
{
    s.lemma_filter_len(|x: Gun| gun_killed_by(x, pid));
}

proof fn lemma_gun_dead_push(s: Seq<Gun>, g: Gun)
    ensures
        forall|gid: Id|
            #[trigger] gun_dead(s.push(g), gid) == (gun_dead(s, gid) || (g.death is Some && g.id
                == gid)),
{
    assert forall|gid: Id|
        #[trigger] gun_dead(s.push(g), gid) == (gun_dead(s, gid) || (g.death is Some && g.id
            == gid)) by {
        let t = s.push(g);
        if gun_dead(s, gid) {
            let j = choose|j: int| 0 <= j < s.len() && (#[trigger] s[j]).death is Some && s[j].id == gid;
            assert(t[j] == s[j]);
        }
        if g.death is Some && g.id == gid {
            assert(t[s.len() as int] == g);
        }
        if gun_dead(t, gid) {
            let j = choose|j: int| 0 <= j < t.len() && (#[trigger] t[j]).death is Some && t[j].id == gid;
            if j < s.len() {
                assert(t[j] == s[j]);
            }
        }
    }
}

proof fn lemma_attached_push(s: Seq<Gun>, g: Gun)
    ensures
        forall|hid: Id|
            #[trigger] attached_to_dead_gun(s.push(g), hid) == (attached_to_dead_gun(s, hid) || (
            g.death is Some && g.attached_human == Some(hid))),
{
    assert forall|hid: Id|
        #[trigger] attached_to_dead_gun(s.push(g), hid) == (attached_to_dead_gun(s, hid) || (
        g.death is Some && g.attached_human == Some(hid))) by {
        let t = s.push(g);
        if attached_to_dead_gun(s, hid) {
            let j = choose|j: int|
                0 <= j < s.len() && (#[trigger] s[j]).death is Some && s[j].attached_human == Some(hid);
            assert(t[j] == s[j]);
        }
        if g.death is Some && g.attached_human == Some(hid) {
            assert(t[s.len() as int] == g);
        }
        if attached_to_dead_gun(t, hid) {
            let j = choose|j: int|
                0 <= j < t.len() && (#[trigger] t[j]).death is Some && t[j].attached_human == Some(hid);
            if j < s.len() {
                assert(t[j] == s[j]);
            }
        }
    }
}


/// A projectile after its lifetime runs down by `dt`.
pub open spec fn aged(q: Projectile, dt: Time) -> Projectile {
    Projectile { lifetime: sat(q.lifetime - dt) as i64, ..q }
}

pub open spec fn aged_all(qs: Seq<Projectile>, dt: Time) -> Seq<Projectile> {
    qs.map_values(|q: Projectile| aged(q, dt))
}

pub open spec fn expired() -> spec_fn(Projectile) -> bool {
    |q: Projectile| q.lifetime <= 0
}

pub open spec fn alive_projectile() -> spec_fn(Projectile) -> bool {
    |q: Projectile| q.lifetime > 0
}

/// The event that reports a projectile's end.
pub open spec fn collide_event(q: Projectile) -> Event {
    Event::ProjectileCollide { position: q.position, velocity: q.velocity }
}

pub open spec fn collide_events(qs: Seq<Projectile>) -> Seq<Event> {
    qs.filter(expired()).map_values(|q: Projectile| collide_event(q))
}

/// Runs the lifetimes of the projectiles down, reports those that ran out and
/// removes them.
pub fn projectile_deaths(projectiles: &mut Vec<Projectile>, events: &mut Vec<Event>, dt: Time)
    ensures
        final(projectiles)@ == aged_all(old(projectiles)@, dt).filter(alive_projectile()),
        final(events)@ == old(events)@ + collide_events(aged_all(old(projectiles)@, dt)),
{
    let ghost q0 = projectiles@;
    let ghost e0 = events@;
    let ghost aged_q = aged_all(q0, dt);
    let mut i: usize = 0;
    while i < projectiles.len()
        invariant
            i <= q0.len(),
            projectiles@.len() == q0.len(),
            aged_q == aged_all(q0, dt),
            forall|k: int| 0 <= k < i ==> #[trigger] projectiles@[k] == aged_q[k],
            forall|k: int| i <= k < q0.len() ==> #[trigger] projectiles@[k] == q0[k],
            events@ == e0 + collide_events(aged_q.take(i as int)),
        decreases q0.len() - i,
    {
        let mut q: Projectile = projectiles[i];
        q.lifetime = time_sub(q.lifetime, dt);
        projectiles.set(i, q);
        proof {
            assert(q == aged_q[i as int]);
            assert(aged_q.take(i as int + 1) =~= aged_q.take(i as int).push(q));
            aged_q.take(i as int).lemma_filter_push(q, expired());
            let f = aged_q.take(i as int).filter(expired());
            assert(f.push(q).map_values(|x: Projectile| collide_event(x)) =~= f.map_values(
                |x: Projectile| collide_event(x),
            ).push(collide_event(q)));
        }
        if q.lifetime <= 0 {
            events.push(Event::ProjectileCollide { position: q.position, velocity: q.velocity });
            proof {
                assert(events@ =~= e0 + collide_events(aged_q.take(i as int + 1)));
            }
        }
        i = i + 1;
    }
    proof {
        assert(aged_q.take(q0.len() as int) =~= aged_q);
        assert(projectiles@ =~= aged_q);
    }
    crate::entity::retain_alive(projectiles);
    proof {
        assert(crate::entity::alive_pred::<Projectile>() =~= alive_projectile());
    }
}


/// The guns once the dead humans let go of theirs.
pub open spec fn released_guns(m: Model) -> Seq<Gun> {
    m.guns@.map_values(|g: Gun| after_human_deaths_gun(g, m.humans@))
}

/// The players after the deaths of a step.
pub open spec fn deaths_players(m: Model) -> Seq<Player> {
    let c = m.config();
    let g1 = released_guns(m);
    m.players@.map_values(
        |p: Player| after_gun_deaths_player(after_human_deaths_player(p, m.humans@, c), g1, c),
    )
}

/// The humans after the deaths of a step.
pub open spec fn deaths_humans(m: Model) -> Seq<Human> {
    let g1 = released_guns(m);
    m.humans@.filter(alive_human()).map_values(|h: Human| after_gun_deaths_human(h, g1))
}

/// The guns after the deaths of a step.
pub open spec fn deaths_guns(m: Model) -> Seq<Gun> {
    released_guns(m).filter(alive_gun())
}

/// The dead human scores for a player that is there: the one that killed it.
pub open spec fn scores_human(ps: Seq<Player>) -> spec_fn(Human) -> bool {
    |h: Human| h.death matches Some(d) && d.killer matches Some(k) && has_key(ps, k.0)
}

/// The dead gun scores for a player that is there: the one that killed it, when
/// that player does not own it.
pub open spec fn scores_gun(ps: Seq<Player>) -> spec_fn(Gun) -> bool {
    |g: Gun| g.death matches Some(d) && d.killer matches Some(k) && g.owner != d.killer && has_key(ps, k.0)
}

/// The report of a human's death that scores for its killer.
pub open spec fn human_score_event(h: Human, c: Config) -> Event {
    Event::ScoreCollect { player: h.death.unwrap().killer.unwrap(), position: h.position, score: c.human_kill_score }
}

/// The report of a gun's death that scores for its killer.
pub open spec fn gun_score_event(g: Gun, c: Config) -> Event {
    Event::ScoreCollect { player: g.death.unwrap().killer.unwrap(), position: g.position, score: c.gun_kill_score }
}

/// The reports of the human deaths that score, in the humans' order.
pub open spec fn human_score_events(hs: Seq<Human>, ps: Seq<Player>, c: Config) -> Seq<Event> {
    hs.filter(scores_human(ps)).map_values(|h: Human| human_score_event(h, c))
}

/// The reports of the gun deaths that score, in the guns' order.
pub open spec fn gun_score_events(gs: Seq<Gun>, ps: Seq<Player>, c: Config) -> Seq<Event> {
    gs.filter(scores_gun(ps)).map_values(|g: Gun| gun_score_event(g, c))
}

/// Reports each human death that scores.
fn report_human_scores(humans: &Vec<Human>, players: &Vec<Player>, config: &Config, events: &mut Vec<Event>)
    ensures
        final(events)@ == old(events)@ + human_score_events(humans@, players@, *config),
{
    let ghost e0 = events@;
    let mut i: usize = 0;
    while i < humans.len()
        invariant
            i <= humans@.len(),
            events@ == e0 + human_score_events(humans@.take(i as int), players@, *config),
        decreases humans@.len() - i,
    {
        let h: Human = humans[i];
        let ghost before = humans@.take(i as int);
        proof {
            assert(humans@.take(i as int + 1) =~= before.push(h));
            before.lemma_filter_push(h, scores_human(players@));
            let f = before.filter(scores_human(players@));
            assert(f.push(h).map_values(|x: Human| human_score_event(x, *config)) =~= f.map_values(
                |x: Human| human_score_event(x, *config),
            ).push(human_score_event(h, *config)));
        }
        if let Some(info) = h.death {
            if let Some(pid) = info.killer {
                if find(players, pid.0).is_some() {
                    events.push(Event::ScoreCollect { player: pid, position: h.position, score: config.human_kill_score });
                }
            }
        }
        proof {
            assert(events@ =~= e0 + human_score_events(humans@.take(i as int + 1), players@, *config));
        }
        i = i + 1;
    }
    proof {
        assert(humans@.take(humans@.len() as int) =~= humans@);
    }
}

/// Reports each gun death that scores.
fn report_gun_scores(guns: &Vec<Gun>, players: &Vec<Player>, config: &Config, events: &mut Vec<Event>)
    ensures
        final(events)@ == old(events)@ + gun_score_events(guns@, players@, *config),
{
    let ghost e0 = events@;
    let mut i: usize = 0;
    while i < guns.len()
        invariant
            i <= guns@.len(),
            events@ == e0 + gun_score_events(guns@.take(i as int), players@, *config),
        decreases guns@.len() - i,
    {
        let g: Gun = guns[i];
        let ghost before = guns@.take(i as int);
        proof {
            assert(guns@.take(i as int + 1) =~= before.push(g));
            before.lemma_filter_push(g, scores_gun(players@));
            let f = before.filter(scores_gun(players@));
            assert(f.push(g).map_values(|x: Gun| gun_score_event(x, *config)) =~= f.map_values(
                |x: Gun| gun_score_event(x, *config),
            ).push(gun_score_event(g, *config)));
        }
        if let Some(info) = g.death {
            if g.owner != info.killer {
                if let Some(pid) = info.killer {
                    if find(players, pid.0).is_some() {
                        events.push(Event::ScoreCollect { player: pid, position: g.position, score: config.gun_kill_score });
                    }
                }
            }
        }
        proof {
            assert(events@ =~= e0 + gun_score_events(guns@.take(i as int + 1), players@, *config));
        }
        i = i + 1;
    }
    proof {
        assert(guns@.take(guns@.len() as int) =~= guns@);
    }
}

/// The scores that the deaths of a step can add fit in a `u64`.
pub open spec fn score_room(m: Model) -> bool {
    forall|k: int|
        0 <= k < m.players@.len() ==> (#[trigger] m.players@[k]).score
            + m.config().human_kill_score * m.humans@.len() + m.config().gun_kill_score
            * m.guns@.len() <= u64::MAX
}

/// What the deaths do to a step: players, humans, guns and projectiles become what
/// `deaths_players`, `deaths_humans`, `deaths_guns` and the aged projectiles give;
/// the events report each human death that scores, then each gun death that
/// scores, then each projectile whose lifetime ran out.
pub open spec fn deaths_step(l0: Logic, l1: Logic) -> bool {
    &&& l1.delta_time == l0.delta_time
    &&& l1.model.id_gen == l0.model.id_gen
    &&& l1.model.state == l0.model.state
    &&& l1.model.assets == l0.model.assets
    &&& l1.model.blocks@ == l0.model.blocks@
    &&& l1.model.players@ == deaths_players(l0.model)
    &&& l1.model.humans@ == deaths_humans(l0.model)
    &&& l1.model.guns@ == deaths_guns(l0.model)
    &&& l1.model.projectiles@ == aged_all(l0.model.projectiles@, l0.delta_time).filter(alive_projectile())
    &&& l1.events@ == l0.events@ + human_score_events(l0.model.humans@, l0.model.players@, l0.model.config())
        + gun_score_events(released_guns(l0.model), l0.model.players@, l0.model.config())
        + collide_events(aged_all(l0.model.projectiles@, l0.delta_time))
}

impl Logic {
    /// Scores and removes the dead humans and guns, respawns the players whose guns
    /// died, and removes the projectiles whose lifetime ran out, reporting each.
    pub fn process_deaths(&mut self)
        requires
            old(self).model.wf(),
            score_room(old(self).model),
        ensures
            final(self).model.wf(),
            deaths_step(*old(self), *final(self)),
            final(self).model.players@.len() == old(self).model.players@.len(),
            forall|k: int| 0 <= k < old(self).model.players@.len() ==> (#[trigger] final(self).model.players@[k]).id
                == old(self).model.players@[k].id && final(self).model.players@[k].score >= old(self).model.players@[k].score,
    {
        let ghost m0 = self.model;
        let config: Config = self.model.assets.config;
        proof {
            assert forall|k: int| 0 <= k < self.model.players@.len() implies (#[trigger] self.model.players@[k]).score
                + config.human_kill_score * self.model.humans@.len() <= u64::MAX by {
                assert(self.model.players@[k].score + config.human_kill_score * m0.humans@.len() + config.gun_kill_score * m0.guns@.len() <= u64::MAX);
                assert(config.gun_kill_score * m0.guns@.len() >= 0) by (nonlinear_arith);
            }
        }
        report_human_scores(&self.model.humans, &self.model.players, &config, &mut self.events);
        human_deaths(&mut self.model.players, &mut self.model.humans, &mut self.model.guns, &config);
        let ghost m1 = self.model;
        proof {
            lemma_human_phase_ok(m0, m1);
            assert forall|k: int| 0 <= k < m1.players@.len() implies (#[trigger] m1.players@[k]).score
                + config.gun_kill_score * m1.guns@.len() <= u64::MAX
                && m1.players@[k].score >= m0.players@[k].score && m1.players@[k].id == m0.players@[k].id by {
                let p = m0.players@[k];
                lemma_kills_bound(m0.humans@, p.id, m0.humans@);
                assert(config.human_kill_score * human_kills(m0.humans@, p.id) <= config.human_kill_score * m0.humans@.len()) by (nonlinear_arith)
                    requires human_kills(m0.humans@, p.id) <= m0.humans@.len();
                assert(m1.players@[k] == after_human_deaths_player(p, m0.humans@, config));
            }
        }
        report_gun_scores(&self.model.guns, &self.model.players, &config, &mut self.events);
        proof {
            assert forall|k: u64| has_key(m1.players@, k) == has_key(m0.players@, k) by {
                if has_key(m1.players@, k) {
                    let a = choose|a: int| 0 <= a < m1.players@.len() && #[trigger] m1.players@[a].key() == k;
                    assert(m0.players@[a].key() == k);
                }
                if has_key(m0.players@, k) {
                    let a = choose|a: int| 0 <= a < m0.players@.len() && #[trigger] m0.players@[a].key() == k;
                    assert(m1.players@[a].key() == k);
                }
            }
            assert(scores_gun(m1.players@) =~= scores_gun(m0.players@));
            assert(m1.guns@ =~= released_guns(m0));
        }
        gun_deaths(&mut self.model.players, &mut self.model.humans, &mut self.model.guns, &config);
        let ghost m2 = self.model;
        proof {
            assert forall|k: int| 0 <= k < m2.players@.len() implies (#[trigger] m2.players@[k]).score >= m0.players@[k].score
                && m2.players@[k].id == m0.players@[k].id by {
                let p = m1.players@[k];
                lemma_gun_kills_bound(m1.guns@, p.id, m1.guns@);
                assert(config.gun_kill_score * gun_kills(m1.guns@, p.id) <= config.gun_kill_score * m1.guns@.len()) by (nonlinear_arith)
                    requires gun_kills(m1.guns@, p.id) <= m1.guns@.len();
                assert(m2.players@[k] == after_gun_deaths_player(p, m1.guns@, config));
            }
        }
        projectile_deaths(&mut self.model.projectiles, &mut self.events, self.delta_time);
        proof {
            let g1 = m0.guns@.map_values(|g: Gun| after_human_deaths_gun(g, m0.humans@));
            assert(m1.guns@ =~= g1);
            assert(self.model.players@ =~= deaths_players(m0));
            assert(self.model.humans@ =~= deaths_humans(m0));
            assert(self.model.guns@ =~= deaths_guns(m0));
            assert(self.events@ =~= old(self).events@ + human_score_events(m0.humans@, m0.players@, config)
                + gun_score_events(released_guns(m0), m0.players@, config)
                + collide_events(aged_all(m0.projectiles@, self.delta_time)));
            lemma_gun_phase_ok(m1, m2);
            lemma_projectiles_ok(m2, self.model, self.delta_time);
        }
    }
}

proof fn lemma_human_phase_ok(m0: Model, m1: Model)
    requires
        m0.wf(),
        m1.id_gen == m0.id_gen,
        m1.assets == m0.assets,
        m1.projectiles@ == m0.projectiles@,
        m1.blocks@ == m0.blocks@,
        m1.players@.len() == m0.players@.len(),
        forall|k: int|
            0 <= k < m0.players@.len() ==> #[trigger] m1.players@[k] == after_human_deaths_player(
                m0.players@[k],
                m0.humans@,
                m0.config(),
            ),
        m1.guns@.len() == m0.guns@.len(),
        forall|i: int|
            0 <= i < m0.guns@.len() ==> #[trigger] m1.guns@[i] == after_human_deaths_gun(
                m0.guns@[i],
                m0.humans@,
            ),
        m1.humans@ == m0.humans@.filter(alive_human()),
    ensures
        m1.wf(),
{
    let h0 = m0.humans@;
    let g0 = m0.guns@;
    let h1 = m1.humans@;
    let g1 = m1.guns@;
    let n = m0.id_gen.next_spec();
    lemma_filter_from(h0, alive_human());
    lemma_filter_distinct(h0, alive_human());
    lemma_filter_below(h0, alive_human(), n);
    // Players keep their identifiers and states.
    assert forall|x: int, y: int|
        0 <= x < m1.players@.len() && 0 <= y < m1.players@.len() && x != y implies #[trigger] m1.players@[x].key()
        != #[trigger] m1.players@[y].key() by {
        assert(m0.players@[x].key() != m0.players@[y].key());
    }
    assert forall|x: int| 0 <= x < m1.players@.len() implies #[trigger] m1.players@[x].key() < n by {
        assert(m0.players@[x].key() < n);
    }
    assert forall|x: int, y: int|
        0 <= x < m1.players@.len() && 0 <= y < m1.players@.len() && x != y && (#[trigger] m1.players@[x]).state is Gun
        implies (#[trigger] m1.players@[y]).state != m1.players@[x].state by {
        assert(m0.players@[x].state == m1.players@[x].state);
        assert(m0.players@[y].state == m1.players@[y].state);
    }
    // Guns keep their identifiers and positions.
    assert forall|x: int, y: int|
        0 <= x < g1.len() && 0 <= y < g1.len() && x != y implies #[trigger] g1[x].key() != #[trigger] g1[y].key() by {
        assert(g0[x].key() != g0[y].key());
    }
    assert forall|x: int| 0 <= x < g1.len() implies #[trigger] g1[x].key() < n by {
        assert(g0[x].key() < n);
    }
    assert forall|x: int| 0 <= x < g1.len() implies (#[trigger] g1[x]).position.in_arena(m1.arena()) by {
        assert(g0[x].position == g1[x].position);
    }
    assert forall|x: int| 0 <= x < h1.len() implies (#[trigger] h1[x]).position.in_arena(m1.arena()) by {
        let a = choose|a: int| 0 <= a < h0.len() && #[trigger] h1[x] == #[trigger] h0[a] && alive_human()(h0[a]);
        assert(h0[a].position.in_arena(m0.arena()));
    }
    // The links: a gun of a dead human was let go of.
    assert forall|i: int|
        0 <= i < g1.len() && (#[trigger] g1[i]).attached_human is Some implies has_key(h1, g1[i].attached_human.unwrap().0) by {
        let hid = g1[i].attached_human.unwrap();
        assert(g1[i] == g0[i]);
        assert(has_key(h0, hid.0));
        let a = choose|a: int| 0 <= a < h0.len() && #[trigger] h0[a].key() == hid.0;
        assert(h0[a].id == hid);
        assert(h0[a].holding_gun == Some(g0[i].id));
        if h0[a].death is Some {
            assert(held_by_dead(h0, g0[i].id));
        }
        crate::entity::lemma_filter_keeps(h0, alive_human(), a);
        let b = choose|b: int| 0 <= b < h1.len() && h1[b] == h0[a];
        assert(h1[b].key() == hid.0);
    }
    assert forall|i: int, j: int| 0 <= i < g1.len() && 0 <= j < h1.len() implies ((#[trigger] g1[i]).attached_human
        == Some((#[trigger] h1[j]).id) <==> h1[j].holding_gun == Some(g1[i].id)) by {
        let a = choose|a: int| 0 <= a < h0.len() && #[trigger] h1[j] == #[trigger] h0[a] && alive_human()(h0[a]);
        assert(h0[a].death is None);
        assert(g1[i].id == g0[i].id);
        if held_by_dead(h0, g0[i].id) {
            let d = choose|d: int| 0 <= d < h0.len() && (#[trigger] h0[d]).death is Some && h0[d].holding_gun == Some(g0[i].id);
            assert(g0[i].attached_human == Some(h0[d].id));
            if h0[a].holding_gun == Some(g0[i].id) {
                assert(g0[i].attached_human == Some(h0[a].id));
                assert(h0[a].key() == h0[d].key());
                crate::entity::lemma_key_index(h0, a, d);
            }
        } else {
            assert(g1[i] == g0[i]);
        }
    }
}

proof fn lemma_gun_phase_ok(m1: Model, m2: Model)
    requires
        m1.wf(),
        m2.id_gen == m1.id_gen,
        m2.assets == m1.assets,
        m2.projectiles@ == m1.projectiles@,
        m2.blocks@ == m1.blocks@,
        m2.players@.len() == m1.players@.len(),
        forall|k: int|
            0 <= k < m1.players@.len() ==> #[trigger] m2.players@[k] == after_gun_deaths_player(
                m1.players@[k],
                m1.guns@,
                m1.config(),
            ),
        m2.humans@.len() == m1.humans@.len(),
        forall|j: int|
            0 <= j < m1.humans@.len() ==> #[trigger] m2.humans@[j] == after_gun_deaths_human(
                m1.humans@[j],
                m1.guns@,
            ),
        m2.guns@ == m1.guns@.filter(alive_gun()),
    ensures
        m2.wf(),
{
    let h1 = m1.humans@;
    let g1 = m1.guns@;
    let h2 = m2.humans@;
    let g2 = m2.guns@;
    let n = m1.id_gen.next_spec();
    lemma_filter_from(g1, alive_gun());
    lemma_filter_distinct(g1, alive_gun());
    lemma_filter_below(g1, alive_gun(), n);
    assert forall|x: int, y: int|
        0 <= x < m2.players@.len() && 0 <= y < m2.players@.len() && x != y implies #[trigger] m2.players@[x].key()
        != #[trigger] m2.players@[y].key() by {
        assert(m1.players@[x].key() != m1.players@[y].key());
    }
    assert forall|x: int| 0 <= x < m2.players@.len() implies #[trigger] m2.players@[x].key() < n by {
        assert(m1.players@[x].key() < n);
    }
    assert forall|x: int, y: int|
        0 <= x < m2.players@.len() && 0 <= y < m2.players@.len() && x != y && (#[trigger] m2.players@[x]).state is Gun
        implies (#[trigger] m2.players@[y]).state != m2.players@[x].state by {
        assert(m1.players@[x].state is Gun);
        assert(m1.players@[x].state == m2.players@[x].state);
        if m2.players@[y].state is Gun {
            assert(m1.players@[y].state == m2.players@[y].state);
        }
    }
    assert forall|x: int, y: int|
        0 <= x < h2.len() && 0 <= y < h2.len() && x != y implies #[trigger] h2[x].key() != #[trigger] h2[y].key() by {
        assert(h1[x].key() != h1[y].key());
    }
    assert forall|x: int| 0 <= x < h2.len() implies #[trigger] h2[x].key() < n by {
        assert(h1[x].key() < n);
    }
    assert forall|x: int| 0 <= x < h2.len() implies (#[trigger] h2[x]).position.in_arena(m2.arena()) by {
        assert(h1[x].position == h2[x].position);
    }
    assert forall|x: int| 0 <= x < g2.len() implies (#[trigger] g2[x]).position.in_arena(m2.arena()) by {
        let a = choose|a: int| 0 <= a < g1.len() && #[trigger] g2[x] == #[trigger] g1[a] && alive_gun()(g1[a]);
    }
    assert forall|i: int|
        0 <= i < g2.len() && (#[trigger] g2[i]).attached_human is Some implies has_key(h2, g2[i].attached_human.unwrap().0) by {
        let a = choose|a: int| 0 <= a < g1.len() && #[trigger] g2[i] == #[trigger] g1[a] && alive_gun()(g1[a]);
        let hid = g1[a].attached_human.unwrap();
        assert(has_key(h1, hid.0));
        let b = choose|b: int| 0 <= b < h1.len() && #[trigger] h1[b].key() == hid.0;
        assert(h2[b].key() == hid.0);
    }
    assert forall|i: int, j: int| 0 <= i < g2.len() && 0 <= j < h2.len() implies ((#[trigger] g2[i]).attached_human
        == Some((#[trigger] h2[j]).id) <==> h2[j].holding_gun == Some(g2[i].id)) by {
        let a = choose|a: int| 0 <= a < g1.len() && #[trigger] g2[i] == #[trigger] g1[a] && alive_gun()(g1[a]);
        assert(h2[j].id == h1[j].id);
        if attached_to_dead_gun(g1, h1[j].id) {
            let d = choose|d: int| 0 <= d < g1.len() && (#[trigger] g1[d]).death is Some && g1[d].attached_human == Some(h1[j].id);
            assert(h1[j].holding_gun == Some(g1[d].id));
            if g1[a].attached_human == Some(h1[j].id) {
                assert(h1[j].holding_gun == Some(g1[a].id));
                assert(g1[a].key() == g1[d].key());
                crate::entity::lemma_key_index(g1, a, d);
            }
        } else {
            assert(h2[j] == h1[j]);
        }
    }
}

proof fn lemma_projectiles_ok(m2: Model, m3: Model, dt: Time)
    requires
        m2.wf(),
        m3.id_gen == m2.id_gen,
        m3.assets == m2.assets,
        m3.players@ == m2.players@,
        m3.humans@ == m2.humans@,
        m3.guns@ == m2.guns@,
        m3.blocks@ == m2.blocks@,
        m3.projectiles@ == aged_all(m2.projectiles@, dt).filter(alive_projectile()),
    ensures
        m3.wf(),
{
    let q = aged_all(m2.projectiles@, dt);
    let n = m2.id_gen.next_spec();
    assert forall|x: int, y: int|
        0 <= x < q.len() && 0 <= y < q.len() && x != y implies #[trigger] q[x].key() != #[trigger] q[y].key() by {
        assert(m2.projectiles@[x].key() != m2.projectiles@[y].key());
    }
    assert forall|x: int| 0 <= x < q.len() implies #[trigger] q[x].key() < n by {
        assert(m2.projectiles@[x].key() < n);
    }
    assert forall|x: int| 0 <= x < q.len() implies (#[trigger] q[x]).position.in_arena(m2.arena()) by {
        assert(m2.projectiles@[x].position == q[x].position);
    }
    lemma_filter_from(q, alive_projectile());
    lemma_filter_distinct(q, alive_projectile());
    lemma_filter_below(q, alive_projectile(), n);
    let r = m3.projectiles@;
    assert forall|x: int| 0 <= x < r.len() implies (#[trigger] r[x]).position.in_arena(m3.arena()) by {
        let a = choose|a: int| 0 <= a < q.len() && #[trigger] r[x] == #[trigger] q[a] && alive_projectile()(q[a]);
    }
}

} // verus!
