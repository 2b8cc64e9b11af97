use gunslinger::geometry::{Position, Vec2};
use gunslinger::interpolation::Interpolation;
use gunslinger::shake::Shake;

fn arena() -> Vec2 {
    Vec2 { x: 40000, y: 30000 }
}

#[test]
fn an_interpolation_starts_where_it_is_made() {
    let i = Interpolation::new(Position { x: 1000, y: 2000 }, Vec2 { x: 5, y: 6 });
    assert_eq!(i.get_interpolated(), Position { x: 1000, y: 2000 });
}

#[test]
fn after_the_whole_interpolation_time_the_target_is_reached() {
    let mut i = Interpolation::new(Position { x: 1000, y: 1000 }, Vec2 { x: 3000, y: -7000 });
    i.update(50, Position { x: 2000, y: 1000 }, Vec2 { x: 0, y: 0 }, arena());
    assert_eq!(i.get_interpolated(), Position { x: 2000, y: 1000 });
}

#[test]
fn halfway_without_velocities_is_the_middle() {
    let mut i = Interpolation::new(Position { x: 1000, y: 1000 }, Vec2 { x: 0, y: 0 });
    i.update(25, Position { x: 2000, y: 3000 }, Vec2 { x: 0, y: 0 }, arena());
    assert_eq!(i.get_interpolated(), Position { x: 1500, y: 2000 });
}

#[test]
fn interpolation_goes_the_short_way_round() {
    let mut i = Interpolation::new(Position { x: 39900, y: 100 }, Vec2 { x: 0, y: 0 });
    i.update(50, Position { x: 100, y: 29900 }, Vec2 { x: 0, y: 0 }, arena());
    assert_eq!(i.get_interpolated(), Position { x: 100, y: 29900 });
    let mut j = Interpolation::new(Position { x: 39900, y: 100 }, Vec2 { x: 0, y: 0 });
    j.update(25, Position { x: 100, y: 29900 }, Vec2 { x: 0, y: 0 }, arena());
    assert_eq!(j.get_interpolated(), Position { x: 0, y: 0 });
}

#[test]
fn a_standing_interpolation_stays() {
    let mut i = Interpolation::new(Position { x: 1234, y: 4321 }, Vec2 { x: 0, y: 0 });
    for _ in 0..10 {
        i.update(16, Position { x: 1234, y: 4321 }, Vec2 { x: 0, y: 0 }, arena());
        assert_eq!(i.get_interpolated(), Position { x: 1234, y: 4321 });
    }
}

#[test]
fn a_new_shake_does_nothing() {
    let mut s = Shake::new();
    assert_eq!(s.offset(), Vec2 { x: 0, y: 0 });
    s.update(50);
    assert_eq!(s.offset(), Vec2 { x: 0, y: 0 });
    assert_eq!(Shake::default().offset(), Vec2 { x: 0, y: 0 });
}

#[test]
fn a_shake_stays_within_its_amplitude_and_settles() {
    let mut s = Shake::new();
    s.start(300, 10000, 500);
    assert_eq!(s.offset(), Vec2 { x: 0, y: 0 });
    let mut moved = false;
    for _ in 0..10 {
        s.update(50);
        let o = s.offset();
        assert!(o.x * o.x + o.y * o.y <= 301 * 301);
        if o != (Vec2 { x: 0, y: 0 }) {
            moved = true;
        }
    }
    assert!(moved);
    s.update(50);
    assert_eq!(s.offset(), Vec2 { x: 0, y: 0 });
}

#[test]
fn a_finished_shake_settles_by_its_speed() {
    let mut s = Shake::new();
    s.start(100000, 1000, 50);
    s.update(50);
    let o = s.offset();
    assert!(45 * 45 <= o.x * o.x + o.y * o.y && o.x * o.x + o.y * o.y <= 51 * 51);
    s.update(50);
    assert_eq!(s.offset(), Vec2 { x: 0, y: 0 });
}

#[test]
fn a_long_offset_settles_by_the_speed() {
    let mut s = Shake::new();
    s.start(100000, 2000, 2000);
    for _ in 0..40 {
        s.update(50);
    }
    let o = s.offset();
    let before = o.x * o.x + o.y * o.y;
    assert!(before >= 3900 * 3900);
    s.update(50);
    let p = s.offset();
    let after = p.x * p.x + p.y * p.y;
    assert!(after < before && after > 0);
    assert!(p.x.abs() <= o.x.abs() && p.y.abs() <= o.y.abs());
}

#[test]
fn a_zero_step_leaves_the_interpolation_where_it_was() {
    let mut i = Interpolation::new(Position { x: 1234, y: 4321 }, Vec2 { x: 7000, y: -3000 });
    i.update(0, Position { x: 30000, y: 20000 }, Vec2 { x: 100, y: 100 }, arena());
    assert_eq!(i.get_interpolated(), Position { x: 1234, y: 4321 });
    i.update(50, Position { x: 30000, y: 20000 }, Vec2 { x: 100, y: 100 }, arena());
    assert_eq!(i.get_interpolated(), Position { x: 30000, y: 20000 });
}

#[test]
fn an_expired_shake_comes_to_rest_without_stalling() {
    let mut s = Shake::new();
    s.start(100000, 3, 10000);
    for _ in 0..10 {
        s.update(1000);
    }
    let mut o = s.offset();
    let bound = o.x.abs().max(o.y.abs());
    for _ in 0..bound {
        s.update(1000);
        let p = s.offset();
        assert!(p.x.abs() <= o.x.abs() && p.y.abs() <= o.y.abs());
        assert!(p.x * o.x >= 0 && p.y * o.y >= 0);
        o = p;
    }
    assert_eq!(s.offset(), Vec2 { x: 0, y: 0 });
}
