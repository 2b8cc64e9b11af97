use gunslinger::geometry::Vec2;
use gunslinger::rotation::{Rotation, TURN};

#[test]
fn new_normalizes_the_angle() {
    assert_eq!(Rotation::new(-360).angle(), 1080);
    assert_eq!(Rotation::new(TURN).angle(), TURN);
    assert_eq!(Rotation::new(2 * TURN).angle(), TURN);
    assert_eq!(Rotation::new(1500).angle(), 60);
    assert_eq!(Rotation::new(100).angle(), 100);
    assert_eq!(Rotation::zero().angle(), 0);
}

#[test]
fn normalizing_twice_changes_nothing() {
    for a in [-5000, -1, 0, 1, 720, 1440, 1441, 2880, 100_000] {
        let r = Rotation::new(a);
        assert!(0 <= r.angle() && r.angle() <= TURN);
        assert_eq!(r.normalized().angle(), r.angle());
        assert_eq!(Rotation::new(r.angle()).angle(), r.angle());
        assert_eq!((r.angle() - a).rem_euclid(TURN), 0);
    }
}

#[test]
fn directions_of_the_quarter_turns() {
    assert_eq!(Rotation::new(0).direction(), Vec2 { x: 1000, y: 0 });
    assert_eq!(Rotation::new(360).direction(), Vec2 { x: 0, y: 1000 });
    assert_eq!(Rotation::new(720).direction(), Vec2 { x: -1000, y: 0 });
    assert_eq!(Rotation::new(1080).direction(), Vec2 { x: 0, y: -1000 });
}

#[test]
fn adding_rotations_wraps() {
    assert_eq!(Rotation::new(1400).add(Rotation::new(100)).angle(), 60);
    assert_eq!(Rotation::new(100).add(Rotation::new(200)).angle(), 300);
}

#[test]
fn arg_of_the_axes() {
    assert_eq!(Vec2 { x: 1000, y: 0 }.arg(), 0);
    assert_eq!(Vec2 { x: 0, y: 1000 }.arg(), 360);
    assert_eq!(Vec2 { x: -1000, y: 0 }.arg(), 720);
    assert_eq!(Vec2 { x: 0, y: -1000 }.arg(), 1080);
}
