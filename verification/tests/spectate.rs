use gunslinger::collider::Collider;
use gunslinger::geometry::{Position, Vec2};
use gunslinger::id::{Id, PlayerId};
use gunslinger::model::{Gun, Player, PlayerState};
use gunslinger::rotation::Rotation;
use gunslinger::spectate::{cycle_spectator, follow};

fn player(id: u64, state: PlayerState) -> Player {
    Player { id: PlayerId(id), state, score: 0 }
}

fn gun(id: u64, x: i64, y: i64) -> Gun {
    Gun {
        id: Id(id),
        owner: None,
        death: None,
        position: Position { x, y },
        rotation: Rotation::zero(),
        velocity: Vec2 { x: 0, y: 0 },
        collider: Collider::Aabb { size: Vec2 { x: 1000, y: 500 } },
        attached_human: None,
        aiming_at_host: false,
        next_reload: 0,
        ammo: 0,
    }
}

fn scene() -> (Vec<Player>, Vec<Gun>) {
    let players = vec![
        player(7, PlayerState::Gun { gun_id: Id(17) }),
        player(2, PlayerState::Gun { gun_id: Id(12) }),
        player(9, PlayerState::Spectator),
        player(4, PlayerState::Gun { gun_id: Id(14) }),
        player(5, PlayerState::Gun { gun_id: Id(99) }),
        player(6, PlayerState::Respawning { time_left: 100 }),
    ];
    let guns = vec![gun(12, 200, 200), gun(14, 400, 400), gun(17, 700, 700)];
    (players, guns)
}

#[test]
fn cycling_goes_round_the_players_in_order_of_identifier() {
    let (players, guns) = scene();
    assert_eq!(cycle_spectator(&players, &guns, Some(PlayerId(2)), 1), Some(PlayerId(4)));
    assert_eq!(cycle_spectator(&players, &guns, Some(PlayerId(4)), 1), Some(PlayerId(7)));
    assert_eq!(cycle_spectator(&players, &guns, Some(PlayerId(7)), 1), Some(PlayerId(2)));
    assert_eq!(cycle_spectator(&players, &guns, Some(PlayerId(2)), -1), Some(PlayerId(7)));
    assert_eq!(cycle_spectator(&players, &guns, Some(PlayerId(4)), -4), Some(PlayerId(2)));
}

#[test]
fn cycling_from_an_unwatchable_player_starts_at_the_first() {
    let (players, guns) = scene();
    assert_eq!(cycle_spectator(&players, &guns, Some(PlayerId(5)), 1), Some(PlayerId(2)));
    assert_eq!(cycle_spectator(&players, &guns, Some(PlayerId(42)), -1), Some(PlayerId(2)));
    assert_eq!(cycle_spectator(&players, &guns, None, 1), None);
}

#[test]
fn a_player_with_a_gun_follows_it() {
    let (players, guns) = scene();
    let start = Position { x: 1, y: 1 };
    assert_eq!(follow(&players, &guns, PlayerId(4), Some(PlayerId(7)), start), (Position { x: 400, y: 400 }, None));
    assert_eq!(follow(&players, &guns, PlayerId(5), None, start), (start, None));
    assert_eq!(follow(&players, &guns, PlayerId(6), Some(PlayerId(2)), start), (start, None));
    assert_eq!(follow(&players, &guns, PlayerId(30), Some(PlayerId(2)), start), (start, Some(PlayerId(2))));
}

#[test]
fn a_spectator_keeps_watching_or_finds_someone() {
    let (players, guns) = scene();
    let start = Position { x: 1, y: 1 };
    assert_eq!(
        follow(&players, &guns, PlayerId(9), Some(PlayerId(4)), start),
        (Position { x: 400, y: 400 }, Some(PlayerId(4)))
    );
    assert_eq!(
        follow(&players, &guns, PlayerId(9), Some(PlayerId(5)), start),
        (Position { x: 700, y: 700 }, Some(PlayerId(7)))
    );
    assert_eq!(follow(&players, &guns, PlayerId(9), None, start), (Position { x: 700, y: 700 }, Some(PlayerId(7))));
    let lonely = vec![player(9, PlayerState::Spectator)];
    assert_eq!(follow(&lonely, &guns, PlayerId(9), Some(PlayerId(4)), start), (start, None));
}

#[test]
fn the_camera_closes_in_on_its_target() {
    let size = Vec2 { x: 40000, y: 30000 };
    let c = gunslinger::spectate::camera_step(Position { x: 1000, y: 1000 }, Position { x: 3000, y: 1000 }, 50, size);
    assert_eq!(c, Position { x: 1200, y: 1000 });
    let w = gunslinger::spectate::camera_step(Position { x: 39000, y: 1000 }, Position { x: 1000, y: 1000 }, 250, size);
    assert_eq!(w, Position { x: 0, y: 1000 });
    let still = gunslinger::spectate::camera_step(Position { x: 5, y: 6 }, Position { x: 5, y: 6 }, 50, size);
    assert_eq!(still, Position { x: 5, y: 6 });
}

#[test]
fn cycling_on_and_back_watches_the_same_player() {
    let (players, guns) = scene();
    for current in [2, 4, 7] {
        for delta in [-5isize, -1, 1, 2, 3] {
            let next = cycle_spectator(&players, &guns, Some(PlayerId(current)), delta);
            assert_eq!(cycle_spectator(&players, &guns, next, -delta), Some(PlayerId(current)));
        }
    }
}
