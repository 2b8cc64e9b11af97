use gunslinger::collider::Collider;
use gunslinger::config::{Config, ServerAssets};
use gunslinger::geometry::{Position, Vec2};
use gunslinger::id::{Id, IdGen, PlayerId};
use gunslinger::model::{GameState, Gun, Human, Model, Player, PlayerState};
use gunslinger::rotation::Rotation;

fn config() -> Config {
    Config {
        game_restart_delay: 5000,
        game_initial_delay: 3000,
        round_time: 120000,
        arena_size: Vec2 { x: 40000, y: 30000 },
        singleplayer_humans: 5,
        multiplayer_humans_delta: 2,
        blocks_number: 10,
        block_min_size: Vec2 { x: 1000, y: 1000 },
        block_max_size: Vec2 { x: 3000, y: 3000 },
        blocks_spacing: 2000,
        human_knockout_time: 1000,
        human_walk_speed: 2000,
        human_run_speed: 5000,
        human_turn_speed: 360,
        human_kill_score: 1,
        gun_reload_time: 500,
        gun_magazine_size: 3,
        gun_respawn_time: 2000,
        gun_size: Vec2 { x: 1000, y: 500 },
        gun_shoot_speed: 30000,
        gun_shoot_lifetime: 1000,
        gun_recoil_speed: 5000,
        gun_recoil_attached_speed: 10000,
        gun_heavy_speed: 20000,
        gun_heavy_lifetime: 500,
        gun_heavy_recoil_speed: 15000,
        gun_heavy_bullets: 3,
        gun_heavy_angle: 120,
        gun_friction: 2000,
        gun_orbit_radius: 1500,
        gun_bounciness: 500,
        gun_kill_score: 5,
    }
}

fn empty_model(next: u64) -> Model {
    Model {
        id_gen: IdGen { next_id: Id(next) },
        state: GameState::InProgress { time_left: 100000 },
        assets: ServerAssets { config: config() },
        players: Vec::new(),
        humans: Vec::new(),
        guns: Vec::new(),
        projectiles: Vec::new(),
        blocks: Vec::new(),
    }
}

fn player(id: u64, state: PlayerState, score: u64) -> Player {
    Player { id: PlayerId(id), state, score }
}

fn gun(id: u64, owner: u64, x: i64, y: i64) -> Gun {
    Gun {
        id: Id(id),
        owner: Some(PlayerId(owner)),
        death: None,
        position: Position { x, y },
        rotation: Rotation::zero(),
        velocity: Vec2 { x: 0, y: 0 },
        collider: Collider::Aabb { size: config().gun_size },
        attached_human: None,
        aiming_at_host: false,
        next_reload: 0,
        ammo: 0,
    }
}

fn human(id: u64, x: i64, y: i64) -> Human {
    Human {
        id: Id(id),
        death: None,
        position: Position { x, y },
        velocity: Vec2 { x: 2000, y: 0 },
        collider: Collider::Aabb { size: Vec2 { x: 2000, y: 2000 } },
        holding_gun: None,
        knock_out_timer: None,
    }
}

fn on_arena(p: Position) -> bool {
    0 <= p.x && p.x < 40000 && 0 <= p.y && p.y < 30000
}

#[test]
fn a_new_game_has_an_arena_and_no_players() {
    let m = Model::new(ServerAssets { config: config() });
    assert!(matches!(m.state, GameState::InProgress { time_left: 120000 }));
    assert!(m.players.is_empty() && m.guns.is_empty() && m.projectiles.is_empty());
    assert_eq!(m.humans.len(), 5);
    assert!(m.blocks.len() <= 10);
    let n = m.blocks.len() as u64;
    for (k, b) in m.blocks.iter().enumerate() {
        assert_eq!(b.id, Id(k as u64));
        assert!(on_arena(b.position));
        let Collider::Aabb { size } = b.collider;
        assert!(1000 <= size.x && size.x <= 3000 && 1000 <= size.y && size.y <= 3000);
        for c in &m.blocks[..k] {
            assert!(c.position.distance_sq(&b.position, config().arena_size) >= 2000 * 2000);
        }
    }
    for (k, h) in m.humans.iter().enumerate() {
        assert_eq!(h.id, Id(n + k as u64));
        assert!(on_arena(h.position));
        assert!(h.death.is_none() && h.holding_gun.is_none());
        for b in &m.blocks {
            assert!(b.position.distance_sq(&h.position, config().arena_size) >= 2000 * 2000);
        }
    }
    assert_eq!(m.id_gen.next_id, Id(n + 5));
}

#[test]
fn the_first_player_waits_for_the_game() {
    let mut m = Model::new(ServerAssets { config: config() });
    let next = m.id_gen.next_id.0;
    let a = m.new_player();
    assert_eq!(a, PlayerId(next));
    assert_eq!(m.players, vec![player(next, PlayerState::Spectator, 0)]);
    match &m.state {
        GameState::Finished { time_left, stats } => {
            assert_eq!(*time_left, 3000);
            assert!(stats.scores.is_empty());
        },
        _ => panic!("the first player should find the round finished"),
    }
    m.state = GameState::InProgress { time_left: 777 };
    let b = m.new_player();
    assert_eq!(b, PlayerId(next + 1));
    assert!(matches!(m.state, GameState::InProgress { time_left: 777 }));
    assert_eq!(m.players.len(), 2);
}

#[test]
fn a_leaving_player_takes_its_gun() {
    let mut m = empty_model(30);
    m.players = vec![
        player(0, PlayerState::Gun { gun_id: Id(10) }, 0),
        player(1, PlayerState::Gun { gun_id: Id(11) }, 0),
        player(2, PlayerState::Spectator, 0),
    ];
    m.guns = vec![gun(10, 0, 1000, 1000), gun(11, 1, 2000, 1000)];
    m.drop_player(PlayerId(0));
    assert_eq!(m.players.len(), 2);
    assert_eq!(m.players[0].id, PlayerId(1));
    assert_eq!(m.guns.len(), 1);
    assert_eq!(m.guns[0].id, Id(11));
    m.drop_player(PlayerId(2));
    assert_eq!(m.players.len(), 1);
    assert_eq!(m.guns.len(), 1);
    m.drop_player(PlayerId(9));
    assert_eq!(m.players.len(), 1);
    assert_eq!(m.guns.len(), 1);
}

#[test]
fn joining_then_leaving_changes_no_player() {
    let mut m = empty_model(30);
    m.players = vec![player(0, PlayerState::Gun { gun_id: Id(10) }, 4)];
    m.guns = vec![gun(10, 0, 1000, 1000)];
    m.humans = vec![human(20, 5000, 5000)];
    let players = m.players.clone();
    let guns = m.guns.clone();
    let humans = m.humans.clone();
    let id = m.new_player();
    assert_eq!(id, PlayerId(30));
    m.drop_player(id);
    assert_eq!(m.players, players);
    assert_eq!(m.guns, guns);
    assert_eq!(m.humans, humans);
}

#[test]
fn a_restart_arms_every_player() {
    let mut m = empty_model(30);
    m.players = vec![player(0, PlayerState::Spectator, 5), player(1, PlayerState::Respawning { time_left: 9 }, 1)];
    m.guns = vec![gun(10, 0, 1000, 1000)];
    m.restart();
    assert!(matches!(m.state, GameState::InProgress { time_left: 120000 }));
    assert_eq!(m.guns.len(), 2);
    assert_eq!(m.humans.len(), 7);
    let n = 30 + m.blocks.len() as u64 + 7;
    for k in 0..2 {
        assert_eq!(m.guns[k].id, Id(n + k as u64));
        assert_eq!(m.guns[k].owner, Some(m.players[k].id));
        assert_eq!(m.guns[k].ammo, 0);
        assert!(on_arena(m.guns[k].position));
        assert_eq!(m.players[k].state, PlayerState::Gun { gun_id: Id(n + k as u64) });
    }
    assert_eq!((m.players[0].score, m.players[1].score), (5, 1));
}

#[test]
fn blocks_keep_their_spacing() {
    let mut m = empty_model(0);
    assert!(m.place_block(Position { x: 1000, y: 1000 }, Vec2 { x: 1000, y: 1000 }));
    assert!(!m.place_block(Position { x: 2000, y: 1000 }, Vec2 { x: 1000, y: 1000 }));
    assert!(m.place_block(Position { x: 39000, y: 28000 }, Vec2 { x: 1000, y: 1000 }));
    assert_eq!(m.blocks.len(), 2);
    assert_eq!(m.blocks[1].id, Id(1));
    assert_eq!(m.id_gen.next_id, Id(2));
}

#[test]
fn humans_are_placed_clear_of_blocks() {
    let mut m = empty_model(0);
    assert!(m.place_block(Position { x: 1000, y: 1000 }, Vec2 { x: 1000, y: 1000 }));
    assert!(!m.place_human(Position { x: 2000, y: 1000 }, 0));
    assert!(m.place_human(Position { x: 9000, y: 1000 }, 360));
    assert_eq!(m.humans.len(), 1);
    assert_eq!(m.humans[0].id, Id(1));
    assert_eq!(m.humans[0].velocity, Vec2 { x: 0, y: 1000 });
}

#[test]
fn configurations_are_checked() {
    assert!(config().is_valid());
    let mut c = config();
    c.arena_size = Vec2 { x: 0, y: 100 };
    assert!(!c.is_valid());
    let mut d = config();
    d.gun_friction = -1;
    assert!(!d.is_valid());
}

#[test]
fn without_spacing_the_arena_is_filled() {
    let mut c = config();
    c.blocks_spacing = 0;
    let m = Model::new(ServerAssets { config: c });
    assert_eq!(m.blocks.len(), 10);
    assert_eq!(m.humans.len(), 5);
}
