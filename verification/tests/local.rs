use gunslinger::collider::Collider;
use gunslinger::config::{Config, ServerAssets};
use gunslinger::geometry::{Position, Vec2};
use gunslinger::id::{Id, IdGen, PlayerId};
use gunslinger::local::Local;
use gunslinger::model::{Event, GameState, Gun, Human, Message, Model, Player, PlayerState};
use gunslinger::rotation::Rotation;

fn config() -> Config {
    Config {
        game_restart_delay: 5000,
        game_initial_delay: 3000,
        round_time: 120000,
        arena_size: Vec2 { x: 40000, y: 30000 },
        singleplayer_humans: 5,
        multiplayer_humans_delta: 2,
        blocks_number: 10,
        block_min_size: Vec2 { x: 1000, y: 1000 },
        block_max_size: Vec2 { x: 3000, y: 3000 },
        blocks_spacing: 2000,
        human_knockout_time: 1000,
        human_walk_speed: 2000,
        human_run_speed: 5000,
        human_turn_speed: 360,
        human_kill_score: 1,
        gun_reload_time: 500,
        gun_magazine_size: 3,
        gun_respawn_time: 2000,
        gun_size: Vec2 { x: 1000, y: 500 },
        gun_shoot_speed: 30000,
        gun_shoot_lifetime: 1000,
        gun_recoil_speed: 5000,
        gun_recoil_attached_speed: 10000,
        gun_heavy_speed: 20000,
        gun_heavy_lifetime: 500,
        gun_heavy_recoil_speed: 15000,
        gun_heavy_bullets: 3,
        gun_heavy_angle: 120,
        gun_friction: 2000,
        gun_orbit_radius: 1500,
        gun_bounciness: 500,
        gun_kill_score: 5,
    }
}

fn empty_model(next: u64) -> Model {
    Model {
        id_gen: IdGen { next_id: Id(next) },
        state: GameState::InProgress { time_left: 100000 },
        assets: ServerAssets { config: config() },
        players: Vec::new(),
        humans: Vec::new(),
        guns: Vec::new(),
        projectiles: Vec::new(),
        blocks: Vec::new(),
    }
}

fn player(id: u64, state: PlayerState, score: u64) -> Player {
    Player { id: PlayerId(id), state, score }
}

fn gun(id: u64, owner: u64, x: i64, y: i64) -> Gun {
    Gun {
        id: Id(id),
        owner: Some(PlayerId(owner)),
        death: None,
        position: Position { x, y },
        rotation: Rotation::zero(),
        velocity: Vec2 { x: 0, y: 0 },
        collider: Collider::Aabb { size: config().gun_size },
        attached_human: None,
        aiming_at_host: false,
        next_reload: 0,
        ammo: 0,
    }
}

fn human(id: u64, x: i64, y: i64) -> Human {
    Human {
        id: Id(id),
        death: None,
        position: Position { x, y },
        velocity: Vec2 { x: 2000, y: 0 },
        collider: Collider::Aabb { size: Vec2 { x: 2000, y: 2000 } },
        holding_gun: None,
        knock_out_timer: None,
    }
}

#[test]
fn a_local_game_handles_the_queued_messages_then_steps() {
    let mut m = empty_model(30);
    let mut g = gun(10, 0, 1000, 1000);
    g.ammo = 1;
    m.players.push(player(0, PlayerState::Gun { gun_id: Id(10) }, 0));
    m.guns.push(g);
    m.humans.push(human(20, 20000, 20000));
    let mut local = Local::local(m, PlayerId(0));
    assert!(local.messages.is_empty());
    local.send(Message::Aim { target: Vec2 { x: 1000, y: 5000 } });
    local.send(Message::Shoot { heavy: false });
    assert_eq!(local.messages.len(), 2);
    let events = local.update(50);
    assert!(local.messages.is_empty());
    assert_eq!(
        events[0],
        Event::Shoot { position: Position { x: 1000, y: 1000 }, direction: Vec2 { x: 0, y: 1000 } }
    );
    let model = local.get();
    assert_eq!(model.guns[0].rotation.angle(), 360);
    assert_eq!((model.guns[0].ammo, model.guns[0].next_reload), (1, 500));
    assert_eq!(model.projectiles.len(), 1);
    assert!(matches!(model.state, GameState::InProgress { time_left: 99950 }));
}

#[test]
fn a_local_game_without_messages_just_steps() {
    let mut m = empty_model(30);
    m.humans.push(human(20, 20000, 20000));
    let mut local = Local::local(m, PlayerId(0));
    let events = local.update(50);
    assert!(events.is_empty());
    assert!(matches!(local.get().state, GameState::InProgress { time_left: 99950 }));
}
