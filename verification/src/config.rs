use vstd::prelude::*;
use crate::geometry::{Coord, Time, Vec2};

verus! {

/// A bound on lengths and speeds that keeps products of them far from the
/// limits of the integer types.
pub const LENGTH_LIMIT: i64 = 0x100_0000_0000;

/// A bound on counts read from the configuration: the range of `u32`, whatever
/// the width of `usize`. It keeps the identifiers that a new arena draws for its
/// blocks and humans within the `u64` counter, and the products that spread a
/// heavy shot within `i128`.
pub const COUNT_LIMIT: usize = 0xFFFF_FFFF;

/// A bound on the friction and bounciness factors.
pub const FACTOR_LIMIT: i64 = 0x4000_0000;

/// The parameters of a game. Lengths are in thousandths of a world unit, speeds
/// in thousandths of a world unit per second, durations in milliseconds, angles
/// in quarter degrees, turn speeds in quarter degrees per second, and the
/// friction and bounciness factors in thousandths.
#[derive(Clone, Copy, Debug, PartialEq, Eq, Structural)]
pub struct Config {
    pub game_restart_delay: Time,
    pub game_initial_delay: Time,
    pub round_time: Time,
    pub arena_size: Vec2,
    pub singleplayer_humans: usize,
    pub multiplayer_humans_delta: usize,
    pub blocks_number: usize,
    pub block_min_size: Vec2,
    pub block_max_size: Vec2,
    pub blocks_spacing: Coord,
    pub human_knockout_time: Time,
    pub human_walk_speed: Coord,
    pub human_run_speed: Coord,
    pub human_turn_speed: i64,
    pub human_kill_score: u64,
    pub gun_reload_time: Time,
    pub gun_magazine_size: usize,
    pub gun_respawn_time: Time,
    pub gun_size: Vec2,
    pub gun_shoot_speed: Coord,
    pub gun_shoot_lifetime: Time,
    pub gun_recoil_speed: Coord,
    pub gun_recoil_attached_speed: Coord,
    pub gun_heavy_speed: Coord,
    pub gun_heavy_lifetime: Time,
    pub gun_heavy_recoil_speed: Coord,
    pub gun_heavy_bullets: usize,
    pub gun_heavy_angle: i64,
    pub gun_friction: i64,
    pub gun_orbit_radius: Coord,
    pub gun_bounciness: i64,
    pub gun_kill_score: u64,
}

/// The assets that the server needs: the configuration of the game.
#[derive(Clone, Copy, Debug, PartialEq, Eq, Structural)]
pub struct ServerAssets {
    pub config: Config,
}

pub open spec fn length_ok(a: i64) -> bool {
    0 <= a <= LENGTH_LIMIT
}

pub open spec fn size_ok(v: Vec2) -> bool {
    length_ok(v.x) && length_ok(v.y)
}

impl Config {
    /// The ranges inside which the game's arithmetic is proved free of overflow.
    pub open spec fn wf(self) -> bool {
        &&& 0 < self.arena_size.x <= LENGTH_LIMIT
        &&& 0 < self.arena_size.y <= LENGTH_LIMIT
        &&& self.singleplayer_humans <= COUNT_LIMIT
        &&& self.multiplayer_humans_delta <= COUNT_LIMIT
        &&& self.blocks_number <= COUNT_LIMIT
        &&& size_ok(self.block_min_size)
        &&& size_ok(self.block_max_size)
        &&& self.block_min_size.x <= self.block_max_size.x
        &&& self.block_min_size.y <= self.block_max_size.y
        &&& length_ok(self.blocks_spacing)
        &&& length_ok(self.human_walk_speed)
        &&& length_ok(self.human_run_speed)
        &&& length_ok(self.human_turn_speed)
        &&& self.gun_magazine_size <= COUNT_LIMIT
        &&& size_ok(self.gun_size)
        &&& length_ok(self.gun_shoot_speed)
        &&& length_ok(self.gun_recoil_speed)
        &&& length_ok(self.gun_recoil_attached_speed)
        &&& length_ok(self.gun_heavy_speed)
        &&& length_ok(self.gun_heavy_recoil_speed)
        &&& self.gun_heavy_bullets <= COUNT_LIMIT
        &&& -LENGTH_LIMIT <= self.gun_heavy_angle <= LENGTH_LIMIT
        &&& 0 <= self.gun_friction <= FACTOR_LIMIT
        &&& length_ok(self.gun_orbit_radius)
        &&& 0 <= self.gun_bounciness <= FACTOR_LIMIT
    }

    /// Tells whether the configuration lies in the ranges of `wf`.
    pub fn is_valid(&self) -> (r: bool)
        ensures
            r == self.wf(),
    {
        0 < self.arena_size.x && self.arena_size.x <= LENGTH_LIMIT && 0 < self.arena_size.y
            && self.arena_size.y <= LENGTH_LIMIT && self.singleplayer_humans <= COUNT_LIMIT
            && self.multiplayer_humans_delta <= COUNT_LIMIT && self.blocks_number <= COUNT_LIMIT
            && size_is_ok(self.block_min_size) && size_is_ok(self.block_max_size)
            && self.block_min_size.x <= self.block_max_size.x && self.block_min_size.y
            <= self.block_max_size.y && length_is_ok(self.blocks_spacing) && length_is_ok(
            self.human_walk_speed,
        ) && length_is_ok(self.human_run_speed) && length_is_ok(self.human_turn_speed)
            && self.gun_magazine_size <= COUNT_LIMIT && size_is_ok(self.gun_size)
            && length_is_ok(self.gun_shoot_speed) && length_is_ok(self.gun_recoil_speed)
            && length_is_ok(self.gun_recoil_attached_speed) && length_is_ok(self.gun_heavy_speed)
            && length_is_ok(self.gun_heavy_recoil_speed) && self.gun_heavy_bullets <= COUNT_LIMIT
            && -LENGTH_LIMIT <= self.gun_heavy_angle && self.gun_heavy_angle <= LENGTH_LIMIT && 0
            <= self.gun_friction && self.gun_friction <= FACTOR_LIMIT && length_is_ok(
            self.gun_orbit_radius,
        ) && 0 <= self.gun_bounciness && self.gun_bounciness <= FACTOR_LIMIT
    }
}

fn length_is_ok(a: i64) -> (r: bool)
    ensures
        r == length_ok(a),
{
    0 <= a && a <= LENGTH_LIMIT
}

fn size_is_ok(v: Vec2) -> (r: bool)
    ensures
        r == size_ok(v),
{
    length_is_ok(v.x) && length_is_ok(v.y)
}

} // verus!
