use vstd::prelude::*;
use std::collections::HashMap;
use crate::collider::Collider;
use crate::config::{Config, ServerAssets};
use crate::entity::{Keyed, Mortal, keys_below, keys_distinct, has_key};
use crate::geometry::{Position, Time, Vec2};
use crate::id::{Id, IdGen, PlayerId};
use crate::rotation::Rotation;

verus! {

pub type Score = u64;

/// The scores of the players that took part in a round, keyed by the number of
/// each player's identifier.
#[derive(Clone, Debug)]
pub struct GameStats {
    pub scores: HashMap<u64, Score>,
}

#[derive(Clone, Debug)]
pub enum GameState {
    InProgress { time_left: Time },
    Finished { time_left: Time, stats: GameStats },
}

#[derive(Clone, Copy, Debug, PartialEq, Eq, Structural)]
pub enum PlayerState {
    Spectator,
    Respawning { time_left: Time },
    Gun { gun_id: Id },
}

#[derive(Clone, Copy, Debug, PartialEq, Eq, Structural)]
pub struct Player {
    pub id: PlayerId,
    pub state: PlayerState,
    pub score: Score,
}

#[derive(Clone, Copy, Debug, PartialEq, Eq, Structural)]
pub struct DeathInfo {
    pub killer: Option<PlayerId>,
}

#[derive(Clone, Copy, Debug, PartialEq, Eq, Structural)]
pub struct Human {
    pub id: Id,
    pub death: Option<DeathInfo>,
    pub position: Position,
    pub velocity: Vec2,
    pub collider: Collider,
    pub holding_gun: Option<Id>,
    pub knock_out_timer: Option<Time>,
}

#[derive(Clone, Copy, Debug, PartialEq, Eq, Structural)]
pub struct Gun {
    pub id: Id,
    pub owner: Option<PlayerId>,
    pub death: Option<DeathInfo>,
    pub position: Position,
    pub rotation: Rotation,
    pub velocity: Vec2,
    pub collider: Collider,
    pub attached_human: Option<Id>,
    pub aiming_at_host: bool,
    pub next_reload: Time,
    pub ammo: usize,
}

#[derive(Clone, Copy, Debug, PartialEq, Eq, Structural)]
pub struct Projectile {
    pub id: Id,
    pub caster: Option<PlayerId>,
    pub lifetime: Time,
    pub position: Position,
    pub velocity: Vec2,
    pub collider: Collider,
}

#[derive(Clone, Copy, Debug, PartialEq, Eq, Structural)]
pub struct Block {
    pub id: Id,
    pub position: Position,
    pub collider: Collider,
}

/// What a player asks of the model.
#[derive(Clone, Copy, Debug, PartialEq, Eq, Structural)]
pub enum Message {
    Aim { target: Vec2 },
    Shoot { heavy: bool },
}

/// What the model reports to the players.
#[derive(Clone, Copy, Debug, PartialEq, Eq, Structural)]
pub enum Event {
    Shoot { position: Position, direction: Vec2 },
    ProjectileCollide { position: Position, velocity: Vec2 },
    ScoreCollect { player: PlayerId, position: Position, score: Score },
}

impl Keyed for Player {
    open spec fn key(&self) -> u64 {
        self.id.0
    }

    fn key_of(&self) -> (r: u64) {
        self.id.0
    }
}

impl Keyed for Human {
    open spec fn key(&self) -> u64 {
        self.id.0
    }

    fn key_of(&self) -> (r: u64) {
        self.id.0
    }
}

impl Keyed for Gun {
    open spec fn key(&self) -> u64 {
        self.id.0
    }

    fn key_of(&self) -> (r: u64) {
        self.id.0
    }
}

impl Keyed for Projectile {
    open spec fn key(&self) -> u64 {
        self.id.0
    }

    fn key_of(&self) -> (r: u64) {
        self.id.0
    }
}

impl Keyed for Block {
    open spec fn key(&self) -> u64 {
        self.id.0
    }

    fn key_of(&self) -> (r: u64) {
        self.id.0
    }
}

impl Mortal for Human {
    open spec fn alive(&self) -> bool {
        self.death is None
    }

    fn is_alive(&self) -> (r: bool) {
        self.death.is_none()
    }
}

impl Mortal for Gun {
    open spec fn alive(&self) -> bool {
        self.death is None
    }

    fn is_alive(&self) -> (r: bool) {
        self.death.is_none()
    }
}

impl Mortal for Projectile {
    open spec fn alive(&self) -> bool {
        self.lifetime > 0
    }

    fn is_alive(&self) -> (r: bool) {
        self.lifetime > 0
    }
}

/// The state of a game, as the server keeps it.
#[derive(Clone, Debug)]
pub struct Model {
    pub id_gen: IdGen,
    pub state: GameState,
    pub assets: ServerAssets,
    pub players: Vec<Player>,
    pub humans: Vec<Human>,
    pub guns: Vec<Gun>,
    pub projectiles: Vec<Projectile>,
    pub blocks: Vec<Block>,
}

impl Model {
    pub open spec fn config(&self) -> Config {
        self.assets.config
    }

    pub open spec fn arena(&self) -> Vec2 {
        self.assets.config.arena_size
    }

    /// Identifiers are distinct in each collection and below the next one that the
    /// generator hands out, and so are those of the guns that humans hold.
    pub open spec fn ids_ok(&self) -> bool {
        let n = self.id_gen.next_spec();
        &&& keys_distinct(self.players@) && keys_below(self.players@, n)
        &&& keys_distinct(self.humans@) && keys_below(self.humans@, n)
        &&& keys_distinct(self.guns@) && keys_below(self.guns@, n)
        &&& keys_distinct(self.projectiles@) && keys_below(self.projectiles@, n)
        &&& keys_distinct(self.blocks@) && keys_below(self.blocks@, n)
        &&& holds_below(self.humans@, n)
    }

    /// A gun is attached to a human exactly when that human holds that gun, and the
    /// human that a gun is attached to exists.
    pub open spec fn links_ok(&self) -> bool {
        links_ok(self.humans@, self.guns@)
    }

    /// Every entity lies on the arena.
    pub open spec fn positions_ok(&self) -> bool {
        positions_ok(self.humans@, self.guns@, self.projectiles@, self.blocks@, self.arena())
    }

    /// No two players control the same gun, and the guns that players control
    /// carry identifiers that were handed out.
    pub open spec fn player_guns_ok(&self) -> bool {
        &&& player_guns_distinct(self.players@)
        &&& player_guns_below(self.players@, self.id_gen.next_spec())
    }

    /// The invariant that every operation of the model keeps.
    pub open spec fn wf(&self) -> bool {
        &&& self.config().wf()
        &&& self.ids_ok()
        &&& self.links_ok()
        &&& self.positions_ok()
        &&& self.player_guns_ok()
    }
}

pub open spec fn links_ok(humans: Seq<Human>, guns: Seq<Gun>) -> bool {
    &&& forall|i: int|
        0 <= i < guns.len() && (#[trigger] guns[i]).attached_human is Some ==> has_key(
            humans,
            guns[i].attached_human.unwrap().0,
        )
    &&& forall|i: int, j: int|
        0 <= i < guns.len() && 0 <= j < humans.len() ==> ((#[trigger] guns[i]).attached_human
            == Some((#[trigger] humans[j]).id) <==> humans[j].holding_gun == Some(guns[i].id))
}

/// Every gun that a human holds is there. Removing a player's gun does not let go
/// of its holder, so this holds of a model only until a player with a held gun
/// leaves; the phases of a step keep it.
pub open spec fn holders_exist(humans: Seq<Human>, guns: Seq<Gun>) -> bool {
    forall|k: int|
        0 <= k < humans.len() ==> ((#[trigger] humans[k]).holding_gun matches Some(g) ==> has_key(guns, g.0))
}

/// The guns that humans hold carry identifiers that were handed out.
pub open spec fn holds_below(humans: Seq<Human>, n: u64) -> bool {
    forall|k: int|
        0 <= k < humans.len() ==> ((#[trigger] humans[k]).holding_gun matches Some(g) ==> g.0 < n)
}

pub open spec fn player_guns_distinct(players: Seq<Player>) -> bool {
    forall|k: int, l: int|
        0 <= k < players.len() && 0 <= l < players.len() && k != l && (#[trigger] players[k]).state
            is Gun ==> (#[trigger] players[l]).state != players[k].state
}

pub open spec fn player_guns_below(players: Seq<Player>, n: u64) -> bool {
    forall|k: int|
        0 <= k < players.len() ==> ((#[trigger] players[k]).state matches PlayerState::Gun { gun_id }
            ==> gun_id.0 < n)
}

pub open spec fn positions_ok(
    humans: Seq<Human>,
    guns: Seq<Gun>,
    projectiles: Seq<Projectile>,
    blocks: Seq<Block>,
    size: Vec2,
) -> bool {
    &&& forall|i: int| 0 <= i < humans.len() ==> (#[trigger] humans[i]).position.in_arena(size)
    &&& forall|i: int| 0 <= i < guns.len() ==> (#[trigger] guns[i]).position.in_arena(size)
    &&& forall|i: int|
        0 <= i < projectiles.len() ==> (#[trigger] projectiles[i]).position.in_arena(size)
    &&& forall|i: int| 0 <= i < blocks.len() ==> (#[trigger] blocks[i]).position.in_arena(size)
}

} // verus!
