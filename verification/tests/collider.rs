use gunslinger::collider::{Collider, Collision};
use gunslinger::geometry::Vec2;

fn square() -> Collider {
    Collider::Aabb { size: Vec2 { x: 1000, y: 1000 } }
}

#[test]
fn check_tells_overlap() {
    assert!(square().check(&square(), Vec2 { x: 900, y: 0 }));
    assert!(!square().check(&square(), Vec2 { x: 1000, y: 0 }));
    assert!(!square().check(&square(), Vec2 { x: 0, y: -1000 }));
    assert!(square().check(&square(), Vec2 { x: -999, y: 999 }));
}

#[test]
fn collision_along_the_axis_of_least_overlap() {
    assert_eq!(
        square().collision(&square(), Vec2 { x: 600, y: 200 }),
        Some(Collision { normal: Vec2 { x: 1, y: 0 }, penetration: 400 })
    );
    assert_eq!(
        square().collision(&square(), Vec2 { x: -600, y: 200 }),
        Some(Collision { normal: Vec2 { x: -1, y: 0 }, penetration: 400 })
    );
    assert_eq!(
        square().collision(&square(), Vec2 { x: 200, y: -600 }),
        Some(Collision { normal: Vec2 { x: 0, y: -1 }, penetration: 400 })
    );
    assert_eq!(square().collision(&square(), Vec2 { x: 1000, y: 0 }), None);
}

#[test]
fn collision_exactly_when_check() {
    let wide = Collider::Aabb { size: Vec2 { x: 3000, y: 500 } };
    for dx in [-2500, -1999, -10, 0, 10, 1999, 2000, 2500] {
        for dy in [-800, -749, 0, 749, 750] {
            let d = Vec2 { x: dx, y: dy };
            assert_eq!(wide.collision(&square(), d).is_some(), wide.check(&square(), d));
            assert_eq!(wide.check(&square(), d), square().check(&wide, Vec2 { x: -dx, y: -dy }));
        }
    }
}

#[test]
fn the_push_of_a_collision_separates_the_boxes() {
    let a = Collider::Aabb { size: Vec2 { x: 1001, y: 10000 } };
    let b = Collider::Aabb { size: Vec2 { x: 2000, y: 10000 } };
    let c = a.collision(&b, Vec2 { x: 0, y: 0 }).unwrap();
    assert_eq!(c, Collision { normal: Vec2 { x: -1, y: 0 }, penetration: 1501 });
    assert!(!a.check(&b, Vec2 { x: -1501, y: 0 }));
    assert!(a.check(&b, Vec2 { x: -1500, y: 0 }));
    assert!(a.check(&b, Vec2 { x: 0, y: 1500 }));
}
