use gunslinger::collider::Collider;
use gunslinger::config::{Config, ServerAssets};
use gunslinger::geometry::{Position, Vec2};
use gunslinger::id::{Id, IdGen, PlayerId};
use gunslinger::model::{Event, GameState, Gun, Human, Message, Model, Player, PlayerState, DeathInfo};
use gunslinger::rotation::Rotation;

fn config() -> Config {
    Config {
        game_restart_delay: 5000,
        game_initial_delay: 3000,
        round_time: 120000,
        arena_size: Vec2 { x: 40000, y: 30000 },
        singleplayer_humans: 5,
        multiplayer_humans_delta: 2,
        blocks_number: 10,
        block_min_size: Vec2 { x: 1000, y: 1000 },
        block_max_size: Vec2 { x: 3000, y: 3000 },
        blocks_spacing: 2000,
        human_knockout_time: 1000,
        human_walk_speed: 2000,
        human_run_speed: 5000,
        human_turn_speed: 360,
        human_kill_score: 1,
        gun_reload_time: 500,
        gun_magazine_size: 3,
        gun_respawn_time: 2000,
        gun_size: Vec2 { x: 1000, y: 500 },
        gun_shoot_speed: 30000,
        gun_shoot_lifetime: 1000,
        gun_recoil_speed: 5000,
        gun_recoil_attached_speed: 10000,
        gun_heavy_speed: 20000,
        gun_heavy_lifetime: 500,
        gun_heavy_recoil_speed: 15000,
        gun_heavy_bullets: 3,
        gun_heavy_angle: 120,
        gun_friction: 2000,
        gun_orbit_radius: 1500,
        gun_bounciness: 500,
        gun_kill_score: 5,
    }
}

fn empty_model(next: u64) -> Model {
    Model {
        id_gen: IdGen { next_id: Id(next) },
        state: GameState::InProgress { time_left: 100000 },
        assets: ServerAssets { config: config() },
        players: Vec::new(),
        humans: Vec::new(),
        guns: Vec::new(),
        projectiles: Vec::new(),
        blocks: Vec::new(),
    }
}

fn player(id: u64, state: PlayerState, score: u64) -> Player {
    Player { id: PlayerId(id), state, score }
}

fn gun(id: u64, owner: u64, x: i64, y: i64) -> Gun {
    Gun {
        id: Id(id),
        owner: Some(PlayerId(owner)),
        death: None,
        position: Position { x, y },
        rotation: Rotation::zero(),
        velocity: Vec2 { x: 0, y: 0 },
        collider: Collider::Aabb { size: config().gun_size },
        attached_human: None,
        aiming_at_host: false,
        next_reload: 0,
        ammo: 0,
    }
}

fn human(id: u64, x: i64, y: i64) -> Human {
    Human {
        id: Id(id),
        death: None,
        position: Position { x, y },
        velocity: Vec2 { x: 2000, y: 0 },
        collider: Collider::Aabb { size: Vec2 { x: 2000, y: 2000 } },
        holding_gun: None,
        knock_out_timer: None,
    }
}

fn armed_model(ammo: usize) -> Model {
    let mut m = empty_model(30);
    let mut g = gun(10, 0, 1000, 1000);
    g.ammo = ammo;
    m.players.push(player(0, PlayerState::Gun { gun_id: Id(10) }, 0));
    m.guns.push(g);
    m
}

#[test]
fn aiming_a_free_gun_turns_it_to_the_target() {
    let mut m = armed_model(1);
    m.gun_aim(Id(10), Position { x: 1000, y: 5000 });
    assert_eq!(m.guns[0].rotation.angle(), 360);
    assert!(!m.guns[0].aiming_at_host);
    m.gun_aim(Id(10), Position { x: 39000, y: 1000 });
    assert_eq!(m.guns[0].rotation.angle(), 720);
}

#[test]
fn aiming_twice_is_aiming_once() {
    let mut m = armed_model(1);
    m.gun_aim(Id(10), Position { x: 7000, y: 3000 });
    let once = m.guns.clone();
    m.gun_aim(Id(10), Position { x: 7000, y: 3000 });
    assert_eq!(m.guns, once);
}

#[test]
fn aiming_a_missing_gun_changes_nothing() {
    let mut m = armed_model(1);
    let before = m.guns.clone();
    m.gun_aim(Id(99), Position { x: 7000, y: 3000 });
    assert_eq!(m.guns, before);
}

#[test]
fn a_held_gun_aims_around_its_host() {
    let mut m = armed_model(1);
    let mut h = human(20, 5000, 5000);
    h.holding_gun = Some(Id(10));
    m.humans.push(h);
    m.guns[0].attached_human = Some(Id(20));
    m.gun_aim(Id(10), Position { x: 5000, y: 15000 });
    assert!(!m.guns[0].aiming_at_host);
    assert_eq!(m.guns[0].rotation.angle(), 360);
    m.gun_aim(Id(10), Position { x: 5500, y: 5000 });
    assert!(m.guns[0].aiming_at_host);
}

#[test]
fn a_normal_shot_fires_one_bullet() {
    let mut m = armed_model(2);
    let mut events = Vec::new();
    m.gun_shoot(Id(10), false, &mut events);
    assert_eq!(m.guns[0].ammo, 1);
    assert_eq!(m.guns[0].velocity, Vec2 { x: -5000, y: 0 });
    assert_eq!(m.projectiles.len(), 1);
    let q = m.projectiles[0];
    assert_eq!(q.id, Id(30));
    assert_eq!(q.caster, Some(PlayerId(0)));
    assert_eq!(q.lifetime, 1000);
    assert_eq!(q.position, Position { x: 1500, y: 1000 });
    assert_eq!(q.velocity, Vec2 { x: 30000, y: 0 });
    assert_eq!(m.id_gen.next_id, Id(31));
    assert_eq!(
        events,
        vec![Event::Shoot { position: Position { x: 1000, y: 1000 }, direction: Vec2 { x: 1000, y: 0 } }]
    );
}

#[test]
fn no_ammunition_no_shot() {
    let mut m = armed_model(0);
    let mut events = Vec::new();
    m.gun_shoot(Id(10), false, &mut events);
    assert_eq!(m.guns[0].ammo, 0);
    assert_eq!(m.guns[0].velocity, Vec2 { x: 0, y: 0 });
    assert!(m.projectiles.is_empty());
    assert!(events.is_empty());
    let mut m2 = armed_model(2);
    m2.gun_shoot(Id(10), true, &mut events);
    assert_eq!(m2.guns[0].ammo, 2);
    assert!(m2.projectiles.is_empty());
    assert!(events.is_empty());
}

#[test]
fn a_heavy_shot_spreads_its_bullets() {
    let mut m = armed_model(3);
    let mut events = Vec::new();
    m.gun_shoot(Id(10), true, &mut events);
    assert_eq!(m.guns[0].ammo, 0);
    assert_eq!(m.guns[0].velocity, Vec2 { x: -15000, y: 0 });
    assert_eq!(m.projectiles.len(), 3);
    for (k, q) in m.projectiles.iter().enumerate() {
        assert_eq!(q.id, Id(30 + k as u64));
        assert_eq!(q.velocity, Vec2 { x: 20000, y: 0 });
        assert_eq!(q.lifetime, 500);
    }
    assert_eq!(m.projectiles[1].position, Position { x: 1500, y: 1000 });
    assert!(m.projectiles[0].position.y < 1000);
    assert!(m.projectiles[2].position.y > 1000);
    assert_eq!(events.len(), 1);
}

#[test]
fn a_kill_shot_kills_the_host() {
    let mut m = armed_model(3);
    let mut h = human(20, 5000, 5000);
    h.holding_gun = Some(Id(10));
    m.humans.push(h);
    m.guns[0].attached_human = Some(Id(20));
    let mut events = Vec::new();
    m.gun_shoot(Id(10), true, &mut events);
    assert_eq!(m.guns[0].ammo, 0);
    assert_eq!(m.guns[0].attached_human, None);
    assert_eq!(m.guns[0].velocity, Vec2 { x: -10000, y: 0 });
    assert!(m.projectiles.is_empty());
    assert_eq!(m.humans[0].holding_gun, None);
    assert_eq!(m.humans[0].death, Some(DeathInfo { killer: Some(PlayerId(0)) }));
    assert_eq!(events.len(), 1);
}

#[test]
fn messages_aim_and_shoot_the_players_gun() {
    let mut m = armed_model(1);
    m.players.push(player(1, PlayerState::Spectator, 0));
    let mut events = Vec::new();
    m.handle_message(&mut events, &PlayerId(0), Message::Aim { target: Vec2 { x: 1000, y: 35000 } });
    assert_eq!(m.guns[0].rotation.angle(), 360);
    m.handle_message(&mut events, &PlayerId(0), Message::Shoot { heavy: false });
    assert_eq!(m.guns[0].ammo, 0);
    assert_eq!(m.projectiles.len(), 1);
    assert_eq!(events.len(), 1);
    let before = m.guns.clone();
    m.handle_message(&mut events, &PlayerId(1), Message::Aim { target: Vec2 { x: 0, y: 0 } });
    m.handle_message(&mut events, &PlayerId(7), Message::Shoot { heavy: false });
    assert_eq!(m.guns, before);
    assert_eq!(events.len(), 1);
}
