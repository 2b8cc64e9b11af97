use vstd::prelude::*;
use crate::collider::Collider;
use crate::config::Config;
use crate::entity::{Keyed, has_key};
use crate::model::{GameState};
use crate::geometry::{Position, Vec2};
use crate::id::Id;
use crate::model::{Block, Gun, Human, Model, Player, PlayerState};
use crate::id::PlayerId;
use crate::rotation::{Rotation, TURN, direction_at};
use crate::random::random_range;

verus! {

/// The point lies at least `spacing` away from every block.
pub open spec fn clear_of_blocks(p: Position, blocks: Seq<Block>, spacing: i64, size: Vec2) -> bool {
    forall|k: int| 0 <= k < blocks.len() ==> !(#[trigger] blocks[k].position.direction_spec(p, size).len_sq() < spacing * spacing)
}

/// A block of the given size at the given place.
pub open spec fn new_block(id: u64, position: Position, size: Vec2) -> Block {
    Block { id: Id(id), position, collider: Collider::Aabb { size } }
}

/// Tells whether the point lies at least `spacing` away from every block.
pub fn is_clear_of_blocks(p: &Position, blocks: &Vec<Block>, spacing: i64, size: Vec2) -> (r: bool)
    requires
        crate::geometry::valid_size(size),
        crate::config::length_ok(spacing),
    ensures
        r == clear_of_blocks(*p, blocks@, spacing, size),
{
    let s: i128 = spacing as i128;
    assert(s * s <= 0x100_0000_0000i128 * 0x100_0000_0000i128) by (nonlinear_arith)
        requires 0 <= s <= 0x100_0000_0000i128;
    let s2: i128 = s * s;
    let mut k: usize = 0;
    while k < blocks.len()
        invariant
            k <= blocks@.len(),
            s2 == spacing * spacing,
            crate::geometry::valid_size(size),
            forall|j: int| 0 <= j < k ==> !(#[trigger] blocks@[j].position.direction_spec(*p, size).len_sq() < spacing * spacing),
        decreases blocks@.len() - k,
    {
        if blocks[k].position.distance_sq(p, size) < s2 {
            return false;
        }
        k = k + 1;
    }
    true
}

/// A vector's squared length is not negative.
pub proof fn lemma_len_sq_nonneg(v: Vec2)
    ensures
        v.len_sq() >= 0,
{
    assert(v.x * v.x >= 0 && v.y * v.y >= 0) by (nonlinear_arith);
}

/// With no spacing to keep, or no block in the way, every place is clear.
pub proof fn lemma_always_clear(p: Position, blocks: Seq<Block>, spacing: i64, size: Vec2)
    requires
        blocks.len() == 0 || spacing == 0,
    ensures
        clear_of_blocks(p, blocks, spacing, size),
{
    assert forall|k: int| 0 <= k < blocks.len() implies !(#[trigger] blocks[k].position.direction_spec(p, size).len_sq() < spacing * spacing) by {
        lemma_len_sq_nonneg(blocks[k].position.direction_spec(p, size));
    }
}

/// The number of humans once spawning reached `target`: never fewer than before.
pub open spec fn filled(n: int, target: int) -> int {
    if n >= target { n } else { target }
}

/// What `generate_blocks` does: it appends at most `blocks_number` blocks, with
/// fresh identifiers in order, each on the arena, clear of the blocks before it,
/// and sized between `block_min_size` and `block_max_size`.
pub open spec fn blocks_generated(b0: Seq<Block>, b1: Seq<Block>, n0: u64, n1: u64, c: Config) -> bool {
    &&& b0.len() <= b1.len() <= b0.len() + c.blocks_number
    &&& b1.subrange(0, b0.len() as int) == b0
    &&& n1 == n0 + (b1.len() - b0.len())
    &&& forall|k: int| b0.len() <= k < b1.len() ==> {
        let b = #[trigger] b1[k];
        &&& b.id.0 == n0 + (k - b0.len())
        &&& b.position.in_arena(c.arena_size)
        &&& clear_of_blocks(b.position, b1.subrange(0, k), c.blocks_spacing, c.arena_size)
        &&& c.block_min_size.x <= b.collider.size().x <= c.block_max_size.x
        &&& c.block_min_size.y <= b.collider.size().y <= c.block_max_size.y
    }
}

impl Model {
    /// Places a block at `position` unless it lies within `blocks_spacing` of a
    /// block already there; tells whether it did.
    pub fn place_block(&mut self, position: Position, size: Vec2) -> (placed: bool)
        requires
            old(self).config().wf(),
            old(self).id_gen.next_spec() < u64::MAX,
        ensures
            placed == clear_of_blocks(position, old(self).blocks@, old(self).config().blocks_spacing, old(self).arena()),
            placed ==> final(self).blocks@ == old(self).blocks@.push(new_block(old(self).id_gen.next_spec(), position, size))
                && final(self).id_gen.next_spec() == old(self).id_gen.next_spec() + 1,
            !placed ==> final(self).blocks@ == old(self).blocks@ && final(self).id_gen == old(self).id_gen,
            final(self).assets == old(self).assets,
            final(self).state == old(self).state,
            final(self).players@ == old(self).players@,
            final(self).humans@ == old(self).humans@,
            final(self).guns@ == old(self).guns@,
            final(self).projectiles@ == old(self).projectiles@,
    {
        let config: Config = self.assets.config;
        if !is_clear_of_blocks(&position, &self.blocks, config.blocks_spacing, config.arena_size) {
            return false;
        }
        let id: Id = self.id_gen.next();
        self.blocks.push(Block { id, position, collider: Collider::Aabb { size } });
        true
    }

    /// Tries `blocks_number` random places for blocks; a place within
    /// `blocks_spacing` of a block is skipped, and a block that is placed gets a
    /// random size between `block_min_size` and `block_max_size`.
    pub fn generate_blocks(&mut self)
        requires
            old(self).config().wf(),
            old(self).id_gen.next_spec() + old(self).config().blocks_number <= u64::MAX,
        ensures
            blocks_generated(old(self).blocks@, final(self).blocks@, old(self).id_gen.next_spec(), final(self).id_gen.next_spec(), old(self).config()),
            old(self).config().blocks_spacing <= 0 ==> final(self).blocks@.len() == old(self).blocks@.len() + old(self).config().blocks_number,
            old(self).blocks@.len() == 0 && old(self).config().blocks_number > 0 ==> final(self).blocks@.len() >= 1,
            final(self).assets == old(self).assets,
            final(self).state == old(self).state,
            final(self).players@ == old(self).players@,
            final(self).humans@ == old(self).humans@,
            final(self).guns@ == old(self).guns@,
            final(self).projectiles@ == old(self).projectiles@,
    {
        let config: Config = self.assets.config;
        let ghost n0 = self.id_gen.next_spec();
        let ghost b0 = self.blocks@;
        let mut t: usize = 0;
        while t < config.blocks_number
            invariant
                t <= config.blocks_number,
                config == old(self).config(),
                config.wf(),
                n0 == old(self).id_gen.next_spec(),
                b0 == old(self).blocks@,
                n0 + config.blocks_number <= u64::MAX,
                b0.len() <= self.blocks@.len() <= b0.len() + t,
                config.blocks_spacing <= 0 ==> self.blocks@.len() == b0.len() + t,
                b0.len() == 0 && t > 0 ==> self.blocks@.len() >= 1,
                self.blocks@.subrange(0, b0.len() as int) == b0,
                self.id_gen.next_spec() == n0 + (self.blocks@.len() - b0.len()),
                forall|k: int| b0.len() <= k < self.blocks@.len() ==> {
                    let b = #[trigger] self.blocks@[k];
                    &&& b.id.0 == n0 + (k - b0.len())
                    &&& b.position.in_arena(config.arena_size)
                    &&& clear_of_blocks(b.position, self.blocks@.subrange(0, k), config.blocks_spacing, config.arena_size)
                    &&& config.block_min_size.x <= b.collider.size().x <= config.block_max_size.x
                    &&& config.block_min_size.y <= b.collider.size().y <= config.block_max_size.y
                },
                self.assets == old(self).assets,
                self.state == old(self).state,
                self.players@ == old(self).players@,
                self.humans@ == old(self).humans@,
                self.guns@ == old(self).guns@,
                self.projectiles@ == old(self).projectiles@,
            decreases config.blocks_number - t,
        {
            let position: Position = Position::random(config.arena_size);
            let sx: i64 = random_range(config.block_min_size.x, config.block_max_size.x);
            let sy: i64 = random_range(config.block_min_size.y, config.block_max_size.y);
            let ghost before = self.blocks@;
            proof {
                if config.blocks_spacing <= 0 || before.len() == 0 {
                    lemma_always_clear(position, before, config.blocks_spacing, config.arena_size);
                }
            }
            let placed: bool = self.place_block(position, Vec2 { x: sx, y: sy });
            proof {
                if placed {
                    let b1 = self.blocks@;
                    assert(b1.subrange(0, b0.len() as int) =~= before.subrange(0, b0.len() as int));
                    assert forall|k: int| b0.len() <= k < b1.len() implies {
                        let b = #[trigger] b1[k];
                        &&& b.id.0 == n0 + (k - b0.len())
                        &&& b.position.in_arena(config.arena_size)
                        &&& clear_of_blocks(b.position, b1.subrange(0, k), config.blocks_spacing, config.arena_size)
                        &&& config.block_min_size.x <= b.collider.size().x <= config.block_max_size.x
                        &&& config.block_min_size.y <= b.collider.size().y <= config.block_max_size.y
                    } by {
                        if k < before.len() {
                            assert(b1.subrange(0, k) =~= before.subrange(0, k));
                        } else {
                            assert(b1.subrange(0, k) =~= before);
                        }
                    }
                }
            }
            t = t + 1;
        }
    }
}


/// A fresh human.
pub open spec fn new_human(id: u64, position: Position, velocity: Vec2) -> Human {
    Human {
        id: Id(id),
        death: None,
        position,
        velocity,
        collider: Collider::Aabb { size: Vec2 { x: 2000, y: 2000 } },
        holding_gun: None,
        knock_out_timer: None,
    }
}

/// A fresh gun of a player.
pub open spec fn spawned_gun(owner: PlayerId, id: u64, position: Position, c: Config) -> Gun {
    Gun {
        id: Id(id),
        owner: Some(owner),
        death: None,
        position,
        rotation: Rotation::from_angle(0),
        velocity: Vec2 { x: 0, y: 0 },
        collider: Collider::Aabb { size: c.gun_size },
        attached_human: None,
        aiming_at_host: false,
        next_reload: 0,
        ammo: 0,
    }
}

/// The number of humans that an arena holds: the single-player number, and more
/// for each player beyond the first.
pub open spec fn humans_target(m: Model) -> int {
    let c = m.config();
    let p = m.players@.len();
    c.singleplayer_humans + c.multiplayer_humans_delta * (if p > 0 { p - 1 } else { 0 })
}

/// The number of attempts at a random place that spawning a human may take before
/// it gives up.
pub const SPAWN_TRIES_PER_HUMAN: u64 = 1000;

/// A fresh gun of the player `owner` at `position` (see `spawned_gun`).
pub fn spawn_gun(owner: PlayerId, id: Id, position: Position, c: &Config) -> (g: Gun)
    ensures
        g == spawned_gun(owner, id.0, position, *c),
{
    let r: Rotation = Rotation::zero();
    proof {
        Rotation::lemma_from_angle(0);
        Rotation::lemma_eq(r, Rotation::from_angle(0));
    }
    Gun {
        id,
        owner: Some(owner),
        death: None,
        position,
        rotation: r,
        velocity: Vec2 { x: 0, y: 0 },
        collider: Collider::Aabb { size: c.gun_size },
        attached_human: None,
        aiming_at_host: false,
        next_reload: 0,
        ammo: 0,
    }
}

/// The human is one that spawning could have made: fresh, on the arena, clear of
/// the blocks and walking along some direction.
pub open spec fn spawned_human(h: Human, id: u64, blocks: Seq<Block>, c: Config) -> bool {
    &&& h.position.in_arena(c.arena_size)
    &&& clear_of_blocks(h.position, blocks, c.blocks_spacing, c.arena_size)
    &&& exists|a: int| #[trigger] direction_at(a) == h.velocity && h == new_human(id, h.position, direction_at(a))
}

/// What `spawn_humans` does: it appends humans with fresh identifiers in order,
/// each one that spawning could have made, and no more than bring the count to
/// `target`.
pub open spec fn humans_spawned(h0: Seq<Human>, h1: Seq<Human>, n0: u64, n1: u64, blocks: Seq<Block>, target: int, c: Config) -> bool {
    &&& h0.len() <= h1.len()
    &&& h1.len() <= h0.len() || h1.len() <= target
    &&& h1.subrange(0, h0.len() as int) == h0
    &&& n1 == n0 + (h1.len() - h0.len())
    &&& forall|k: int| h0.len() <= k < h1.len() ==> spawned_human(#[trigger] h1[k], (n0 + (k - h0.len())) as u64, blocks, c)
}

impl Model {
    /// Places a human at `position`, walking along `angle`, unless the place lies
    /// within `blocks_spacing` of a block; tells whether it did.
    pub fn place_human(&mut self, position: Position, angle: i64) -> (placed: bool)
        requires
            old(self).config().wf(),
            old(self).id_gen.next_spec() < u64::MAX,
        ensures
            placed == clear_of_blocks(position, old(self).blocks@, old(self).config().blocks_spacing, old(self).arena()),
            placed ==> final(self).humans@ == old(self).humans@.push(new_human(old(self).id_gen.next_spec(), position, direction_at(angle as int)))
                && final(self).id_gen.next_spec() == old(self).id_gen.next_spec() + 1,
            !placed ==> final(self).humans@ == old(self).humans@ && final(self).id_gen == old(self).id_gen,
            final(self).assets == old(self).assets,
            final(self).state == old(self).state,
            final(self).players@ == old(self).players@,
            final(self).blocks@ == old(self).blocks@,
            final(self).guns@ == old(self).guns@,
            final(self).projectiles@ == old(self).projectiles@,
    {
        let config: Config = self.assets.config;
        if !is_clear_of_blocks(&position, &self.blocks, config.blocks_spacing, config.arena_size) {
            return false;
        }
        let id: Id = self.id_gen.next();
        let velocity: Vec2 = Rotation::new(angle).direction();
        self.humans.push(Human {
            id,
            death: None,
            position,
            velocity,
            collider: Collider::Aabb { size: Vec2 { x: 2000, y: 2000 } },
            holding_gun: None,
            knock_out_timer: None,
        });
        true
    }

    /// Adds humans at random places clear of the blocks, each walking in a random
    /// direction, until the arena holds `humans_target` of them. Every loop here
    /// must have a bound that it provably reaches, and a run of random draws that
    /// keep landing near blocks has none, so spawning gives up after
    /// `SPAWN_TRIES_PER_HUMAN` attempts per missing human. The count can therefore
    /// fall short of the target when blocks are in the way; where none can be (no
    /// blocks, or no spacing), every attempt succeeds and the target is reached.
    pub fn spawn_humans(&mut self)
        requires
            old(self).config().wf(),
            humans_target(*old(self)) <= usize::MAX,
            old(self).id_gen.next_spec() + humans_target(*old(self)) <= u64::MAX,
        ensures
            humans_spawned(old(self).humans@, final(self).humans@, old(self).id_gen.next_spec(), final(self).id_gen.next_spec(),
                old(self).blocks@, humans_target(*old(self)), old(self).config()),
            old(self).blocks@.len() == 0 || old(self).config().blocks_spacing <= 0 ==> final(self).humans@.len()
                == filled(old(self).humans@.len() as int, humans_target(*old(self))),
            final(self).assets == old(self).assets,
            final(self).state == old(self).state,
            final(self).players@ == old(self).players@,
            final(self).blocks@ == old(self).blocks@,
            final(self).guns@ == old(self).guns@,
            final(self).projectiles@ == old(self).projectiles@,
    {
        let config: Config = self.assets.config;
        let players: usize = self.players.len();
        let extra: usize = if players > 0 { players - 1 } else { 0 };
        assert(config.multiplayer_humans_delta * extra <= usize::MAX) by (nonlinear_arith)
            requires config.singleplayer_humans + config.multiplayer_humans_delta * extra <= usize::MAX,
                config.singleplayer_humans >= 0;
        let target: usize = config.singleplayer_humans + config.multiplayer_humans_delta * extra;
        let budget: u128 = target as u128 * SPAWN_TRIES_PER_HUMAN as u128;
        assert(budget >= target) by (nonlinear_arith)
            requires budget == target * 1000, target >= 0;
        let ghost n0 = self.id_gen.next_spec();
        let ghost h0 = self.humans@;
        let ghost always_clear: bool = old(self).blocks@.len() == 0 || config.blocks_spacing <= 0;
        let mut tries: u128 = 0;
        while self.humans.len() < target && tries < budget
            invariant
                tries <= budget,
                budget >= target,
                always_clear == (old(self).blocks@.len() == 0 || config.blocks_spacing <= 0),
                always_clear ==> self.humans@.len() == h0.len() + tries,
                config == old(self).config(),
                config.wf(),
                target == humans_target(*old(self)),
                n0 == old(self).id_gen.next_spec(),
                h0 == old(self).humans@,
                n0 + target <= u64::MAX,
                h0.len() <= self.humans@.len(),
                self.humans@.len() <= h0.len() || self.humans@.len() <= target,
                self.humans@.subrange(0, h0.len() as int) == h0,
                self.id_gen.next_spec() == n0 + (self.humans@.len() - h0.len()),
                forall|k: int| h0.len() <= k < self.humans@.len() ==> spawned_human(#[trigger] self.humans@[k], (n0 + (k - h0.len())) as u64, old(self).blocks@, config),
                self.assets == old(self).assets,
                self.state == old(self).state,
                self.players@ == old(self).players@,
                self.blocks@ == old(self).blocks@,
                self.guns@ == old(self).guns@,
                self.projectiles@ == old(self).projectiles@,
            decreases budget - tries,
        {
            let position: Position = Position::random(config.arena_size);
            let angle: i64 = random_range(-TURN / 2, TURN / 2);
            let ghost before = self.humans@;
            proof {
                if always_clear {
                    lemma_always_clear(position, self.blocks@, config.blocks_spacing, config.arena_size);
                }
            }
            let placed: bool = self.place_human(position, angle);
            proof {
                if placed {
                    let h1 = self.humans@;
                    assert(h1.subrange(0, h0.len() as int) =~= before.subrange(0, h0.len() as int));
                    let k = before.len() as int;
                    assert(h1[k] == new_human((n0 + (k - h0.len())) as u64, position, direction_at(angle as int)));
                    assert(direction_at(angle as int) == h1[k].velocity);
                    assert(spawned_human(h1[k], (n0 + (k - h0.len())) as u64, old(self).blocks@, config));
                    assert forall|j: int| h0.len() <= j < h1.len() implies spawned_human(#[trigger] h1[j], (n0 + (j - h0.len())) as u64, old(self).blocks@, config) by {
                        if j < k {
                            assert(h1[j] == before[j]);
                        }
                    }
                }
            }
            tries = tries + 1;
        }
    }

    /// Gives every player a fresh gun at a random place, replacing all guns.
    pub fn respawn_players(&mut self)
        requires
            old(self).config().wf(),
            old(self).id_gen.next_spec() + old(self).players@.len() <= u64::MAX,
        ensures
            respawned(old(self).players@, final(self).players@, final(self).guns@, old(self).id_gen.next_spec(),
                final(self).id_gen.next_spec(), old(self).config()),
            final(self).assets == old(self).assets,
            final(self).state == old(self).state,
            final(self).humans@ == old(self).humans@,
            final(self).blocks@ == old(self).blocks@,
            final(self).projectiles@ == old(self).projectiles@,
    {
        let config: Config = self.assets.config;
        let ghost n0 = self.id_gen.next_spec();
        let ghost p0 = self.players@;
        let mut new_guns: Vec<Gun> = Vec::new();
        let mut k: usize = 0;
        while k < self.players.len()
            invariant
                k <= p0.len(),
                config == old(self).config(),
                config.wf(),
                n0 == old(self).id_gen.next_spec(),
                p0 == old(self).players@,
                n0 + p0.len() <= u64::MAX,
                self.id_gen.next_spec() == n0 + k,
                self.players@.len() == p0.len(),
                new_guns@.len() == k,
                forall|j: int| 0 <= j < k ==> #[trigger] self.players@[j] == (Player {
                    state: PlayerState::Gun { gun_id: Id((n0 + j) as u64) },
                    ..p0[j]
                }),
                forall|j: int| k <= j < p0.len() ==> #[trigger] self.players@[j] == p0[j],
                forall|j: int| 0 <= j < k ==> #[trigger] new_guns@[j] == spawned_gun(
                    p0[j].id, (n0 + j) as u64, new_guns@[j].position, config)
                    && new_guns@[j].position.in_arena(config.arena_size),
                self.assets == old(self).assets,
                self.state == old(self).state,
                self.humans@ == old(self).humans@,
                self.blocks@ == old(self).blocks@,
                self.projectiles@ == old(self).projectiles@,
            decreases p0.len() - k,
        {
            let id: Id = self.id_gen.next();
            let position: Position = Position::random(config.arena_size);
            let mut player: Player = self.players[k];
            new_guns.push(spawn_gun(player.id, id, position, &config));
            player.state = PlayerState::Gun { gun_id: id };
            self.players.set(k, player);
            k = k + 1;
        }
        self.guns = new_guns;
    }
}


proof fn lemma_blocks_added_wf(m0: Model, m1: Model)
    requires
        m0.wf(),
        blocks_generated(m0.blocks@, m1.blocks@, m0.id_gen.next_spec(), m1.id_gen.next_spec(), m0.config()),
        m1.assets == m0.assets,
        m1.players@ == m0.players@,
        m1.humans@ == m0.humans@,
        m1.guns@ == m0.guns@,
        m1.projectiles@ == m0.projectiles@,
    ensures
        m1.wf(),
{
    let n0 = m0.id_gen.next_spec();
    let n1 = m1.id_gen.next_spec();
    let b0 = m0.blocks@;
    let b1 = m1.blocks@;
    assert forall|k: int| 0 <= k < b1.len() implies (#[trigger] b1[k]).key() < n1 && b1[k].position.in_arena(m1.arena())
        && (k >= b0.len() ==> b1[k].key() == n0 + (k - b0.len())) && (k < b0.len() ==> b1[k].key() < n0) by {
        if k < b0.len() {
            assert(b1[k] == b1.subrange(0, b0.len() as int)[k]);
        }
    }
    assert forall|x: int, y: int| 0 <= x < b1.len() && 0 <= y < b1.len() && x != y implies #[trigger] b1[x].key() != #[trigger] b1[y].key() by {
        if x < b0.len() && y < b0.len() {
            assert(b1[x] == b1.subrange(0, b0.len() as int)[x]);
            assert(b1[y] == b1.subrange(0, b0.len() as int)[y]);
        }
    }
    assert forall|x: int| 0 <= x < m1.humans@.len() implies #[trigger] m1.humans@[x].key() < n1 by { assert(m0.humans@[x].key() < n0); }
    assert forall|x: int| 0 <= x < m1.guns@.len() implies #[trigger] m1.guns@[x].key() < n1 by { assert(m0.guns@[x].key() < n0); }
    assert forall|x: int| 0 <= x < m1.projectiles@.len() implies #[trigger] m1.projectiles@[x].key() < n1 by { assert(m0.projectiles@[x].key() < n0); }
    assert forall|x: int| 0 <= x < m1.players@.len() implies #[trigger] m1.players@[x].key() < n1 by { assert(m0.players@[x].key() < n0); }
}

proof fn lemma_humans_added_wf(m0: Model, m1: Model, target: int)
    requires
        m0.wf(),
        humans_spawned(m0.humans@, m1.humans@, m0.id_gen.next_spec(), m1.id_gen.next_spec(), m0.blocks@, target, m0.config()),
        m1.assets == m0.assets,
        m1.players@ == m0.players@,
        m1.blocks@ == m0.blocks@,
        m1.guns@ == m0.guns@,
        m1.projectiles@ == m0.projectiles@,
    ensures
        m1.wf(),
{
    let n0 = m0.id_gen.next_spec();
    let n1 = m1.id_gen.next_spec();
    let h0 = m0.humans@;
    let h1 = m1.humans@;
    assert forall|k: int| 0 <= k < h1.len() implies (#[trigger] h1[k]).key() < n1 && h1[k].position.in_arena(m1.arena())
        && (k >= h0.len() ==> h1[k].key() == n0 + (k - h0.len()) && h1[k].holding_gun is None)
        && (k < h0.len() ==> h1[k] == h0[k]) by {
        if k < h0.len() {
            assert(h1[k] == h1.subrange(0, h0.len() as int)[k]);
        } else {
            assert(spawned_human(h1[k], (n0 + (k - h0.len())) as u64, m0.blocks@, m0.config()));
        }
    }
    assert forall|x: int, y: int| 0 <= x < h1.len() && 0 <= y < h1.len() && x != y implies #[trigger] h1[x].key() != #[trigger] h1[y].key() by {
        if x < h0.len() && y < h0.len() {
            assert(h0[x].key() != h0[y].key());
        } else if x < h0.len() {
            assert(h0[x].key() < n0);
        } else if y < h0.len() {
            assert(h0[y].key() < n0);
        }
    }
    let g = m1.guns@;
    assert forall|x: int| 0 <= x < g.len() && (#[trigger] g[x]).attached_human is Some implies has_key(h1, g[x].attached_human.unwrap().0) by {
        let a = choose|a: int| 0 <= a < h0.len() && #[trigger] h0[a].key() == g[x].attached_human.unwrap().0;
        assert(h1[a] == h0[a]);
    }
    assert forall|x: int, y: int| 0 <= x < g.len() && 0 <= y < h1.len() implies ((#[trigger] g[x]).attached_human
        == Some((#[trigger] h1[y]).id) <==> h1[y].holding_gun == Some(g[x].id)) by {
        if y < h0.len() {
            assert(h1[y] == h0[y]);
        } else if g[x].attached_human == Some(h1[y].id) {
            let a = choose|a: int| 0 <= a < h0.len() && #[trigger] h0[a].key() == g[x].attached_human.unwrap().0;
            assert(h0[a].key() < n0);
        }
    }
    assert forall|x: int| 0 <= x < m1.guns@.len() implies #[trigger] m1.guns@[x].key() < n1 by { assert(m0.guns@[x].key() < n0); }
    assert forall|x: int| 0 <= x < m1.projectiles@.len() implies #[trigger] m1.projectiles@[x].key() < n1 by { assert(m0.projectiles@[x].key() < n0); }
    assert forall|x: int| 0 <= x < m1.players@.len() implies #[trigger] m1.players@[x].key() < n1 by { assert(m0.players@[x].key() < n0); }
    assert forall|x: int| 0 <= x < m1.blocks@.len() implies #[trigger] m1.blocks@[x].key() < n1 by { assert(m0.blocks@[x].key() < n0); }
}

/// What generating an arena owes whatever places chance gives: with no spacing to
/// keep, every block and every human is placed; with no block before, at least one
/// block is placed when any is asked for, and with none asked for either, every
/// human is placed.
pub open spec fn arena_filled(m0: Model, m1: Model) -> bool {
    let c = m0.config();
    let humans = filled(m0.humans@.len() as int, humans_target(m0));
    &&& c.blocks_spacing <= 0 ==> m1.blocks@.len() == m0.blocks@.len() + c.blocks_number && m1.humans@.len() == humans
    &&& m0.blocks@.len() == 0 && c.blocks_number > 0 ==> m1.blocks@.len() >= 1
    &&& m0.blocks@.len() == 0 && c.blocks_number == 0 ==> m1.humans@.len() == humans
}

/// The identifiers that generating an arena and respawning the players can take
/// are available.
pub open spec fn arena_room(m: Model) -> bool {
    &&& humans_target(m) <= usize::MAX
    &&& m.id_gen.next_spec() + m.config().blocks_number + humans_target(m) + m.players@.len() <= u64::MAX
}

/// What a restart does: the round is in progress for `round_time`, no projectile is
/// left, the arena is generated anew from empty (with what `arena_filled` owes), and
/// every player controls a fresh gun; the identifiers go to the blocks, then the
/// humans, then the guns.
pub open spec fn restarted(m0: Model, m1: Model) -> bool {
    let c = m0.config();
    let n0 = m0.id_gen.next_spec();
    let n1 = (n0 + m1.blocks@.len()) as u64;
    let n2 = (n1 + m1.humans@.len()) as u64;
    &&& m1.state == (GameState::InProgress { time_left: c.round_time })
    &&& m1.projectiles@.len() == 0
    &&& blocks_generated(Seq::empty(), m1.blocks@, n0, n1, c)
    &&& humans_spawned(Seq::empty(), m1.humans@, n1, n2, m1.blocks@, humans_target(m0), c)
    &&& respawned(m0.players@, m1.players@, m1.guns@, n2, m1.id_gen.next_spec(), c)
    &&& m1.assets == m0.assets
    &&& c.blocks_number > 0 ==> m1.blocks@.len() >= 1
    &&& c.blocks_spacing <= 0 ==> m1.blocks@.len() == c.blocks_number
    &&& c.blocks_spacing <= 0 || c.blocks_number == 0 ==> m1.humans@.len() == humans_target(m0)
}

impl Model {
    /// Generates the blocks, then spawns the humans (see `spawn_humans`: with
    /// blocks in the way the humans can fall short of the target).
    pub fn generate_arena(&mut self)
        requires
            old(self).wf(),
            arena_room(*old(self)),
        ensures
            final(self).wf(),
            ({
                let n0 = old(self).id_gen.next_spec();
                let n1 = (n0 + (final(self).blocks@.len() - old(self).blocks@.len())) as u64;
                &&& blocks_generated(old(self).blocks@, final(self).blocks@, n0, n1, old(self).config())
                &&& humans_spawned(old(self).humans@, final(self).humans@, n1, final(self).id_gen.next_spec(),
                    final(self).blocks@, humans_target(*old(self)), old(self).config())
            }),
            arena_filled(*old(self), *final(self)),
            final(self).assets == old(self).assets,
            final(self).state == old(self).state,
            final(self).players@ == old(self).players@,
            final(self).guns@ == old(self).guns@,
            final(self).projectiles@ == old(self).projectiles@,
    {
        let ghost m0 = *self;
        self.generate_blocks();
        let ghost m1 = *self;
        proof {
            lemma_blocks_added_wf(m0, m1);
            assert(humans_target(m1) == humans_target(m0));
        }
        self.spawn_humans();
        proof {
            lemma_humans_added_wf(m1, *self, humans_target(m0));
        }
    }

    /// Starts a new round: the arena is emptied and generated anew, and every player
    /// gets a fresh gun.
    pub fn restart(&mut self)
        requires
            old(self).wf(),
            arena_room(*old(self)),
        ensures
            final(self).wf(),
            restarted(*old(self), *final(self)),
    {
        let ghost m0 = *self;
        self.blocks = Vec::new();
        self.humans = Vec::new();
        self.projectiles = Vec::new();
        self.guns = Vec::new();
        self.state = GameState::InProgress { time_left: self.assets.config.round_time };
        proof {
            assert(humans_target(*self) == humans_target(m0));
        }
        self.generate_arena();
        let ghost m2 = *self;
        proof {
            assert(m2.humans@.subrange(0, 0) =~= Seq::<Human>::empty());
        }
        self.respawn_players();
        proof {
            lemma_respawn_wf(m2, *self);
        }
    }

    /// A new game: its round is in progress and its arena generated; it has no
    /// players yet. Its humans can fall short of the single-player number when
    /// blocks are in the way (see `spawn_humans`).
    pub fn new(assets: crate::config::ServerAssets) -> (m: Model)
        requires
            assets.config.wf(),
        ensures
            m.wf(),
            m.assets == assets,
            m.state == (GameState::InProgress { time_left: assets.config.round_time }),
            m.players@.len() == 0,
            m.guns@.len() == 0,
            m.projectiles@.len() == 0,
            ({
                let c = assets.config;
                let n1 = m.blocks@.len() as u64;
                &&& blocks_generated(Seq::empty(), m.blocks@, 0, n1, c)
                &&& humans_spawned(Seq::empty(), m.humans@, n1, m.id_gen.next_spec(), m.blocks@, c.singleplayer_humans as int, c)
            }),
            assets.config.blocks_number > 0 ==> m.blocks@.len() >= 1,
            assets.config.blocks_spacing <= 0 ==> m.blocks@.len() == assets.config.blocks_number,
            assets.config.blocks_spacing <= 0 || assets.config.blocks_number == 0 ==> m.humans@.len()
                == assets.config.singleplayer_humans,
    {
        let mut model: Model = Model {
            id_gen: crate::id::IdGen::new(),
            state: GameState::InProgress { time_left: assets.config.round_time },
            assets,
            players: Vec::new(),
            humans: Vec::new(),
            guns: Vec::new(),
            projectiles: Vec::new(),
            blocks: Vec::new(),
        };
        proof {
            assert(model.wf());
        }
        model.generate_arena();
        model
    }
}

/// What `respawn_players` does: every player controls a fresh gun, with
/// identifiers from `n0` on in the players' order, at some place on the arena.
pub open spec fn respawned(p0: Seq<Player>, p1: Seq<Player>, g1: Seq<Gun>, n0: u64, n1: u64, c: Config) -> bool {
    &&& n1 == n0 + p0.len()
    &&& p1.len() == p0.len()
    &&& g1.len() == p0.len()
    &&& forall|k: int| 0 <= k < p0.len() ==> #[trigger] p1[k] == (Player {
        state: PlayerState::Gun { gun_id: Id((n0 + k) as u64) },
        ..p0[k]
    })
    &&& forall|k: int| 0 <= k < p0.len() ==> #[trigger] g1[k] == spawned_gun(p0[k].id, (n0 + k) as u64, g1[k].position, c)
        && g1[k].position.in_arena(c.arena_size)
}

proof fn lemma_respawn_wf(m0: Model, m1: Model)
    requires
        m0.wf(),
        forall|k: int| 0 <= k < m0.humans@.len() ==> (#[trigger] m0.humans@[k]).holding_gun is None,
        respawned(m0.players@, m1.players@, m1.guns@, m0.id_gen.next_spec(), m1.id_gen.next_spec(), m0.config()),
        m1.assets == m0.assets,
        m1.humans@ == m0.humans@,
        m1.blocks@ == m0.blocks@,
        m1.projectiles@ == m0.projectiles@,
    ensures
        m1.wf(),
{
    let n0 = m0.id_gen.next_spec();
    let n1 = m1.id_gen.next_spec();
    let p0 = m0.players@;
    let p1 = m1.players@;
    let g1 = m1.guns@;
    assert forall|x: int, y: int| 0 <= x < p1.len() && 0 <= y < p1.len() && x != y implies #[trigger] p1[x].key() != #[trigger] p1[y].key() by {
        assert(p0[x].key() != p0[y].key());
    }
    assert forall|x: int| 0 <= x < p1.len() implies #[trigger] p1[x].key() < n1 by { assert(p0[x].key() < n0); }
    assert forall|x: int, y: int| 0 <= x < g1.len() && 0 <= y < g1.len() && x != y implies #[trigger] g1[x].key() != #[trigger] g1[y].key() by {
    }
    assert forall|x: int| 0 <= x < g1.len() implies #[trigger] g1[x].key() < n1 && g1[x].attached_human is None && g1[x].position.in_arena(m1.arena()) by {
    }
    assert forall|x: int, y: int| 0 <= x < g1.len() && 0 <= y < m1.humans@.len() implies ((#[trigger] g1[x]).attached_human
        == Some((#[trigger] m1.humans@[y]).id) <==> m1.humans@[y].holding_gun == Some(g1[x].id)) by {
    }
    assert forall|x: int| 0 <= x < m1.humans@.len() implies #[trigger] m1.humans@[x].key() < n1 by { assert(m0.humans@[x].key() < n0); }
    assert forall|x: int| 0 <= x < m1.projectiles@.len() implies #[trigger] m1.projectiles@[x].key() < n1 by { assert(m0.projectiles@[x].key() < n0); }
    assert forall|x: int| 0 <= x < m1.blocks@.len() implies #[trigger] m1.blocks@[x].key() < n1 by { assert(m0.blocks@[x].key() < n0); }
    assert forall|x: int, y: int|
        0 <= x < p1.len() && 0 <= y < p1.len() && x != y && (#[trigger] p1[x]).state is Gun
        implies (#[trigger] p1[y]).state != p1[x].state by {
    }
}

} // verus!
