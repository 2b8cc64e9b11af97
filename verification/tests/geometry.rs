use gunslinger::geometry::{isqrt, time_sub, Position, Vec2};

fn arena() -> Vec2 {
    Vec2 { x: 40000, y: 30000 }
}

#[test]
fn from_world_wraps_onto_the_arena() {
    let p = Position::from_world(Vec2 { x: -1, y: 30001 }, arena());
    assert_eq!(p, Position { x: 39999, y: 1 });
    let q = Position::from_world(Vec2 { x: 80000 + 5, y: -60000 }, arena());
    assert_eq!(q, Position { x: 5, y: 0 });
}

#[test]
fn direction_takes_the_short_way_round() {
    let p = Position { x: 1000, y: 1000 };
    let q = Position { x: 39000, y: 1000 };
    assert_eq!(p.direction(&q, arena()), Vec2 { x: -2000, y: 0 });
    assert_eq!(q.direction(&p, arena()), Vec2 { x: 2000, y: 0 });
    let r = Position { x: 1000, y: 16000 };
    assert_eq!(p.direction(&r, arena()), Vec2 { x: 0, y: 15000 });
}

#[test]
fn shifted_wraps_across_the_edges() {
    let p = Position { x: 39500, y: 100 };
    assert_eq!(p.shifted(Vec2 { x: 1000, y: -200 }, arena()), Position { x: 500, y: 29900 });
    let mut s = p;
    s.shift(Vec2 { x: 1000, y: -200 }, arena());
    assert_eq!(s, Position { x: 500, y: 29900 });
}

#[test]
fn distance_squared_across_the_torus() {
    let p = Position { x: 0, y: 0 };
    assert_eq!(p.distance_sq(&Position { x: 3000, y: 4000 }, arena()), 25_000_000);
    assert_eq!(p.distance_sq(&Position { x: 37000, y: 26000 }, arena()), 25_000_000);
}

#[test]
fn integer_square_roots() {
    assert_eq!(isqrt(0), 0);
    assert_eq!(isqrt(1), 1);
    assert_eq!(isqrt(24), 4);
    assert_eq!(isqrt(25), 5);
    assert_eq!(isqrt(26), 5);
    assert_eq!(isqrt(1_000_000_000_000_000_000), 1_000_000_000);
}

#[test]
fn time_subtraction_saturates() {
    assert_eq!(time_sub(5, 3), 2);
    assert_eq!(time_sub(3, 5), -2);
    assert_eq!(time_sub(i64::MIN, 1), i64::MIN);
    assert_eq!(time_sub(i64::MAX, -1), i64::MAX);
}

#[test]
fn vector_arithmetic() {
    let a = Vec2::new(3, -4);
    let b = Vec2 { x: 1, y: 2 };
    assert_eq!(a.add(b), Vec2 { x: 4, y: -2 });
    assert_eq!(a.sub(b), Vec2 { x: 2, y: -6 });
    assert_eq!(a.neg(), Vec2 { x: -3, y: 4 });
    assert_eq!(Vec2 { x: 1000, y: -500 }.scale(3000, 1000), Vec2 { x: 3000, y: -1500 });
    assert_eq!(Vec2::zero(), Vec2 { x: 0, y: 0 });
}

#[test]
fn world_round_trip_keeps_points() {
    for p in [Position { x: 0, y: 0 }, Position { x: 39999, y: 29999 }, Position { x: 1234, y: 5678 }] {
        assert_eq!(Position::from_world(p.to_world(), arena()), p);
    }
}

#[test]
fn direction_leads_to_the_other_point() {
    let points = [
        Position { x: 0, y: 0 },
        Position { x: 39999, y: 29999 },
        Position { x: 20000, y: 15000 },
        Position { x: 1, y: 29000 },
    ];
    for p in points {
        for q in points {
            assert_eq!(p.shifted(p.direction(&q, arena()), arena()), q);
        }
    }
}

#[test]
fn random_points_lie_on_the_arena_and_vary() {
    let first = Position::random(arena());
    let mut varied = false;
    for _ in 0..200 {
        let p = Position::random(arena());
        assert!(0 <= p.x && p.x < 40000 && 0 <= p.y && p.y < 30000);
        if p != first {
            varied = true;
        }
    }
    assert!(varied);
}
