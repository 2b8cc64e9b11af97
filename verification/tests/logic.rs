use gunslinger::collider::Collider;
use gunslinger::config::{Config, ServerAssets};
use gunslinger::geometry::{Position, Vec2};
use gunslinger::id::{Id, IdGen, PlayerId};
use gunslinger::logic::state::final_stats;
use gunslinger::logic::Logic;
use gunslinger::model::{DeathInfo, Event, GameState, Gun, Human, Model, Player, PlayerState, Projectile};
use gunslinger::rotation::Rotation;

fn config() -> Config {
    Config {
        game_restart_delay: 5000,
        game_initial_delay: 3000,
        round_time: 120000,
        arena_size: Vec2 { x: 40000, y: 30000 },
        singleplayer_humans: 5,
        multiplayer_humans_delta: 2,
        blocks_number: 10,
        block_min_size: Vec2 { x: 1000, y: 1000 },
        block_max_size: Vec2 { x: 3000, y: 3000 },
        blocks_spacing: 2000,
        human_knockout_time: 1000,
        human_walk_speed: 2000,
        human_run_speed: 5000,
        human_turn_speed: 360,
        human_kill_score: 1,
        gun_reload_time: 500,
        gun_magazine_size: 3,
        gun_respawn_time: 2000,
        gun_size: Vec2 { x: 1000, y: 500 },
        gun_shoot_speed: 30000,
        gun_shoot_lifetime: 1000,
        gun_recoil_speed: 5000,
        gun_recoil_attached_speed: 10000,
        gun_heavy_speed: 20000,
        gun_heavy_lifetime: 500,
        gun_heavy_recoil_speed: 15000,
        gun_heavy_bullets: 3,
        gun_heavy_angle: 120,
        gun_friction: 2000,
        gun_orbit_radius: 1500,
        gun_bounciness: 500,
        gun_kill_score: 5,
    }
}

fn empty_model(next: u64) -> Model {
    Model {
        id_gen: IdGen { next_id: Id(next) },
        state: GameState::InProgress { time_left: 100000 },
        assets: ServerAssets { config: config() },
        players: Vec::new(),
        humans: Vec::new(),
        guns: Vec::new(),
        projectiles: Vec::new(),
        blocks: Vec::new(),
    }
}

fn player(id: u64, state: PlayerState, score: u64) -> Player {
    Player { id: PlayerId(id), state, score }
}

fn gun(id: u64, owner: u64, x: i64, y: i64) -> Gun {
    Gun {
        id: Id(id),
        owner: Some(PlayerId(owner)),
        death: None,
        position: Position { x, y },
        rotation: Rotation::zero(),
        velocity: Vec2 { x: 0, y: 0 },
        collider: Collider::Aabb { size: config().gun_size },
        attached_human: None,
        aiming_at_host: false,
        next_reload: 0,
        ammo: 0,
    }
}

fn human(id: u64, x: i64, y: i64) -> Human {
    Human {
        id: Id(id),
        death: None,
        position: Position { x, y },
        velocity: Vec2 { x: 2000, y: 0 },
        collider: Collider::Aabb { size: Vec2 { x: 2000, y: 2000 } },
        holding_gun: None,
        knock_out_timer: None,
    }
}

fn logic(model: Model, dt: i64) -> Logic {
    Logic { delta_time: dt, model, events: Vec::new() }
}

fn projectile(id: u64, lifetime: i64) -> Projectile {
    Projectile {
        id: Id(id),
        caster: None,
        lifetime,
        position: Position { x: 20000, y: 20000 },
        velocity: Vec2 { x: 30000, y: 0 },
        collider: Collider::Aabb { size: Vec2 { x: 500, y: 500 } },
    }
}

#[test]
fn guns_reload_one_bullet_at_a_time() {
    let mut m = empty_model(30);
    let mut a = gun(10, 0, 1000, 1000);
    a.next_reload = 30;
    let mut b = gun(11, 1, 5000, 1000);
    b.ammo = 3;
    b.next_reload = 100;
    let mut c = gun(12, 2, 9000, 1000);
    c.ammo = 1;
    c.next_reload = 100;
    m.guns = vec![a, b, c];
    let mut l = logic(m, 50);
    l.process_guns();
    assert_eq!((l.model.guns[0].ammo, l.model.guns[0].next_reload), (1, 500));
    assert_eq!((l.model.guns[1].ammo, l.model.guns[1].next_reload), (3, 500));
    assert_eq!((l.model.guns[2].ammo, l.model.guns[2].next_reload), (1, 50));
}

#[test]
fn free_guns_slow_down_and_projectiles_fly() {
    let mut m = empty_model(30);
    let mut g = gun(10, 0, 1000, 1000);
    g.velocity = Vec2 { x: 1000, y: 0 };
    m.guns.push(g);
    m.projectiles.push(projectile(11, 1000));
    let mut l = logic(m, 50);
    l.process_movement();
    assert_eq!(l.model.guns[0].velocity, Vec2 { x: 900, y: 0 });
    assert_eq!(l.model.guns[0].position, Position { x: 1045, y: 1000 });
    assert_eq!(l.model.projectiles[0].position, Position { x: 21500, y: 20000 });
}

#[test]
fn a_held_gun_follows_its_host() {
    let mut m = empty_model(30);
    let mut h = human(20, 5000, 5000);
    h.holding_gun = Some(Id(10));
    let mut g = gun(10, 0, 1000, 1000);
    g.attached_human = Some(Id(20));
    g.velocity = Vec2 { x: 700, y: 0 };
    m.humans.push(h);
    m.guns.push(g);
    let mut l = logic(m, 50);
    l.process_movement();
    assert_eq!(l.model.guns[0].position, Position { x: 6500, y: 5000 });
    assert_eq!(l.model.guns[0].velocity, Vec2 { x: 0, y: 0 });
}

#[test]
fn deaths_are_scored_and_removed() {
    let mut m = empty_model(30);
    m.players = vec![
        player(0, PlayerState::Gun { gun_id: Id(10) }, 0),
        player(1, PlayerState::Gun { gun_id: Id(11) }, 4),
    ];
    let mut dead = human(20, 5000, 5000);
    dead.death = Some(DeathInfo { killer: Some(PlayerId(0)) });
    m.humans = vec![dead, human(21, 9000, 9000)];
    let mut g11 = gun(11, 1, 3000, 3000);
    g11.death = Some(DeathInfo { killer: Some(PlayerId(0)) });
    m.guns = vec![gun(10, 0, 1000, 1000), g11];
    let mut l = logic(m, 50);
    l.process_deaths();
    assert_eq!(l.model.players[0].score, 6);
    assert_eq!(l.model.players[1].score, 4);
    assert_eq!(l.model.players[1].state, PlayerState::Respawning { time_left: 2000 });
    assert_eq!(l.model.players[0].state, PlayerState::Gun { gun_id: Id(10) });
    assert_eq!(l.model.humans.len(), 1);
    assert_eq!(l.model.humans[0].id, Id(21));
    assert_eq!(l.model.guns.len(), 1);
    assert_eq!(l.model.guns[0].id, Id(10));
    assert_eq!(
        l.events,
        vec![
            Event::ScoreCollect { player: PlayerId(0), position: Position { x: 5000, y: 5000 }, score: 1 },
            Event::ScoreCollect { player: PlayerId(0), position: Position { x: 3000, y: 3000 }, score: 5 },
        ]
    );
}

#[test]
fn a_suicide_scores_nothing() {
    let mut m = empty_model(30);
    m.players = vec![player(1, PlayerState::Gun { gun_id: Id(11) }, 4)];
    let mut g11 = gun(11, 1, 3000, 3000);
    g11.death = Some(DeathInfo { killer: Some(PlayerId(1)) });
    m.guns = vec![g11];
    let mut l = logic(m, 50);
    l.process_deaths();
    assert_eq!(l.model.players[0].score, 4);
    assert_eq!(l.model.players[0].state, PlayerState::Respawning { time_left: 2000 });
    assert!(l.model.guns.is_empty());
    assert!(l.events.is_empty());
}

#[test]
fn a_dead_host_lets_go_of_its_gun() {
    let mut m = empty_model(30);
    let mut h = human(20, 5000, 5000);
    h.holding_gun = Some(Id(10));
    h.death = Some(DeathInfo { killer: None });
    let mut g = gun(10, 0, 1000, 1000);
    g.attached_human = Some(Id(20));
    m.humans.push(h);
    m.guns.push(g);
    let mut l = logic(m, 50);
    l.process_deaths();
    assert!(l.model.humans.is_empty());
    assert_eq!(l.model.guns[0].attached_human, None);
}

#[test]
fn projectiles_run_out_and_report_it() {
    let mut m = empty_model(30);
    m.projectiles = vec![projectile(11, 40), projectile(12, 1000)];
    let mut l = logic(m, 50);
    l.process_deaths();
    assert_eq!(l.model.projectiles.len(), 1);
    assert_eq!(l.model.projectiles[0].id, Id(12));
    assert_eq!(l.model.projectiles[0].lifetime, 950);
    assert_eq!(
        l.events,
        vec![Event::ProjectileCollide { position: Position { x: 20000, y: 20000 }, velocity: Vec2 { x: 30000, y: 0 } }]
    );
}

#[test]
fn after_the_deaths_only_the_living_remain() {
    let mut m = empty_model(30);
    let mut dead = human(20, 5000, 5000);
    dead.death = Some(DeathInfo { killer: None });
    m.humans = vec![human(19, 1000, 9000), dead, human(21, 9000, 9000)];
    let mut g = gun(11, 1, 3000, 3000);
    g.death = Some(DeathInfo { killer: None });
    m.guns = vec![g, gun(12, 2, 6000, 3000)];
    m.projectiles = vec![projectile(13, 10), projectile(14, 60)];
    let mut l = logic(m, 50);
    l.process_deaths();
    assert!(l.model.humans.iter().all(|h| h.death.is_none()));
    assert!(l.model.guns.iter().all(|g| g.death.is_none()));
    assert!(l.model.projectiles.iter().all(|q| q.lifetime > 0));
    assert_eq!((l.model.humans.len(), l.model.guns.len(), l.model.projectiles.len()), (2, 1, 1));
}

#[test]
fn projectiles_kill_the_first_human_they_hit() {
    let mut m = empty_model(30);
    let mut q = projectile(11, 1000);
    q.caster = Some(PlayerId(0));
    q.position = Position { x: 5000, y: 5000 };
    m.projectiles.push(q);
    m.humans = vec![human(20, 5000, 5000), human(21, 5100, 5000)];
    let mut l = logic(m, 50);
    l.projectile_collisions();
    assert_eq!(l.model.humans[0].death, Some(DeathInfo { killer: Some(PlayerId(0)) }));
    assert_eq!(l.model.humans[1].death, None);
    assert!(l.model.projectiles[0].lifetime <= 0);
}

#[test]
fn a_free_gun_grabs_a_human_it_touches() {
    let mut m = empty_model(30);
    m.humans.push(human(20, 5000, 5000));
    m.guns.push(gun(10, 0, 5500, 5000));
    let mut l = logic(m, 50);
    l.gun_human_collisions();
    assert_eq!(l.model.guns[0].attached_human, Some(Id(20)));
    assert_eq!(l.model.humans[0].holding_gun, Some(Id(10)));
}

#[test]
fn respawn_timers_run_down_and_give_a_gun() {
    let mut m = empty_model(30);
    m.players = vec![
        player(0, PlayerState::Respawning { time_left: 30 }, 0),
        player(1, PlayerState::Respawning { time_left: 100 }, 0),
        player(2, PlayerState::Spectator, 0),
    ];
    let mut l = logic(m, 50);
    l.process_spawns();
    assert_eq!(l.model.players[0].state, PlayerState::Gun { gun_id: Id(30) });
    assert_eq!(l.model.players[1].state, PlayerState::Respawning { time_left: 50 });
    assert_eq!(l.model.players[2].state, PlayerState::Spectator);
    assert_eq!(l.model.guns.len(), 1);
    assert_eq!(l.model.guns[0].id, Id(30));
    assert_eq!(l.model.guns[0].owner, Some(PlayerId(0)));
    assert_eq!(l.model.id_gen.next_id, Id(31));
}

#[test]
fn a_round_ends_when_its_time_runs_out() {
    let mut m = empty_model(30);
    m.state = GameState::InProgress { time_left: 40 };
    m.humans.push(human(20, 5000, 5000));
    m.players = vec![player(0, PlayerState::Spectator, 3), player(1, PlayerState::Respawning { time_left: 10 }, 7)];
    let mut l = logic(m, 50);
    l.check_state();
    match &l.model.state {
        GameState::Finished { time_left, stats } => {
            assert_eq!(*time_left, 5000);
            assert_eq!(stats.scores.len(), 1);
            assert_eq!(stats.scores.get(&1), Some(&7));
        },
        _ => panic!("the round should be finished"),
    }
}

#[test]
fn a_round_ends_when_no_human_is_left() {
    let mut m = empty_model(30);
    m.state = GameState::InProgress { time_left: 10000 };
    let mut l = logic(m, 50);
    l.check_state();
    assert!(matches!(l.model.state, GameState::Finished { time_left: 5000, .. }));
}

#[test]
fn a_round_in_progress_runs_its_time_down() {
    let mut m = empty_model(30);
    m.state = GameState::InProgress { time_left: 10000 };
    m.humans.push(human(20, 5000, 5000));
    let mut l = logic(m, 50);
    l.check_state();
    assert!(matches!(l.model.state, GameState::InProgress { time_left: 9950 }));
}

#[test]
fn a_finished_round_restarts_the_game() {
    let mut m = empty_model(30);
    m.state = GameState::Finished { time_left: 30, stats: final_stats(&Vec::new()) };
    m.players = vec![player(0, PlayerState::Spectator, 2), player(1, PlayerState::Spectator, 0)];
    m.projectiles.push(projectile(11, 100));
    let mut l = logic(m, 50);
    l.check_state();
    assert!(matches!(l.model.state, GameState::InProgress { time_left: 120000 }));
    assert!(l.model.projectiles.is_empty());
    assert_eq!(l.model.guns.len(), 2);
    assert_eq!(l.model.humans.len(), 7);
    assert!(l.model.blocks.len() <= 10);
    for (k, p) in l.model.players.iter().enumerate() {
        assert_eq!(p.state, PlayerState::Gun { gun_id: l.model.guns[k].id });
        assert_eq!(l.model.guns[k].owner, Some(p.id));
    }
    assert_eq!(l.model.players[0].score, 2);
}

#[test]
fn a_finished_round_waits() {
    let mut m = empty_model(30);
    m.state = GameState::Finished { time_left: 1000, stats: final_stats(&vec![player(4, PlayerState::Gun { gun_id: Id(9) }, 8)]) };
    let mut l = logic(m, 50);
    l.check_state();
    match &l.model.state {
        GameState::Finished { time_left, stats } => {
            assert_eq!(*time_left, 950);
            assert_eq!(stats.scores.get(&4), Some(&8));
        },
        _ => panic!("the round should still be finished"),
    }
}

#[test]
fn round_scores_are_those_of_the_players_in_the_game() {
    let ps = vec![
        player(0, PlayerState::Spectator, 1),
        player(1, PlayerState::Gun { gun_id: Id(5) }, 2),
        player(2, PlayerState::Respawning { time_left: 3 }, 3),
    ];
    let s = final_stats(&ps);
    assert_eq!(s.scores.len(), 2);
    assert_eq!(s.scores.get(&0), None);
    assert_eq!(s.scores.get(&1), Some(&2));
    assert_eq!(s.scores.get(&2), Some(&3));
}

#[test]
fn the_game_starts_after_the_initial_delay() {
    let mut m = Model::new(ServerAssets { config: config() });
    let id = m.new_player();
    let mut events = Vec::new();
    for _ in 0..59 {
        m.tick(&mut events);
        assert!(matches!(m.state, GameState::Finished { .. }));
    }
    m.tick(&mut events);
    assert!(matches!(m.state, GameState::InProgress { time_left: 120000 }));
    assert_eq!(m.players.len(), 1);
    assert_eq!(m.guns.len(), 1);
    assert_eq!(m.players[0].state, PlayerState::Gun { gun_id: m.guns[0].id });
    assert_eq!(m.guns[0].owner, Some(id));
    m.update(50, &mut events);
    assert!(matches!(m.state, GameState::InProgress { time_left: 119950 }));
    assert_eq!(m.players[0].score, 0);
}

#[test]
fn scores_never_go_down_through_steps() {
    let mut m = Model::new(ServerAssets { config: config() });
    let a = m.new_player();
    let b = m.new_player();
    let mut events = Vec::new();
    let mut last: Vec<u64> = vec![0, 0];
    for _ in 0..200 {
        m.tick(&mut events);
        assert_eq!(m.players.len(), 2);
        assert_eq!((m.players[0].id, m.players[1].id), (a, b));
        for k in 0..2 {
            assert!(m.players[k].score >= last[k]);
            last[k] = m.players[k].score;
        }
        for h in &m.humans {
            assert!(0 <= h.position.x && h.position.x < 40000 && 0 <= h.position.y && h.position.y < 30000);
        }
        for (i, g) in m.guns.iter().enumerate() {
            if g.attached_human.is_some() {
                assert!(m.guns[i + 1..].iter().all(|o| o.attached_human != g.attached_human));
            }
        }
    }
}

#[test]
fn a_human_holds_one_gun_at_most() {
    let mut m = empty_model(30);
    m.humans.push(human(20, 5000, 5000));
    m.guns.push(gun(10, 0, 5500, 5000));
    m.guns.push(gun(11, 1, 4500, 5000));
    let mut l = logic(m, 50);
    l.gun_human_collisions();
    assert_eq!(l.model.guns[0].attached_human, Some(Id(20)));
    assert_eq!(l.model.guns[1].attached_human, None);
    assert_eq!(l.model.humans[0].holding_gun, Some(Id(10)));
}
