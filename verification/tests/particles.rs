use gunslinger::geometry::{Position, Vec2};
use gunslinger::particles::{age_particles, Particle};

fn particle(x: i64, y: i64, vx: i64, vy: i64, lifetime: i64) -> Particle {
    Particle { position: Position { x, y }, velocity: Vec2 { x: vx, y: vy }, lifetime }
}

#[test]
fn particles_drift_and_lose_lifetime() {
    let size = Vec2 { x: 10_000, y: 10_000 };
    let mut ps = vec![particle(100, 100, 1000, -2000, 300)];
    age_particles(&mut ps, size, 100);
    assert_eq!(ps, vec![particle(200, 9_900, 1000, -2000, 200)]);
}

#[test]
fn expired_particles_are_dropped_and_the_rest_keep_their_order() {
    let size = Vec2 { x: 10_000, y: 10_000 };
    let mut ps = vec![
        particle(0, 0, 0, 0, 50),
        particle(1, 1, 0, 0, 500),
        particle(2, 2, 0, 0, 100),
        particle(3, 3, 0, 0, 101),
    ];
    age_particles(&mut ps, size, 100);
    assert_eq!(ps, vec![particle(1, 1, 0, 0, 400), particle(3, 3, 0, 0, 1)]);
}
