use std::collections::HashMap;
use gunslinger::geometry::{Position, Vec2};
use gunslinger::interpolation::Interpolation;
use gunslinger::smoothing::{smooth, Motion};

fn arena() -> Vec2 {
    Vec2 { x: 10_000, y: 10_000 }
}

#[test]
fn smoothing_steps_known_entities_and_starts_new_ones() {
    let mut map: HashMap<u64, Interpolation> = HashMap::new();
    map.insert(7, Interpolation::new(Position { x: 100, y: 100 }, Vec2 { x: 0, y: 0 }));
    let es = vec![
        Motion { id: 7, position: Position { x: 300, y: 400 }, velocity: Vec2 { x: 10, y: 20 } },
        Motion { id: 9, position: Position { x: 5, y: 5 }, velocity: Vec2 { x: 0, y: 0 } },
    ];
    smooth(&mut map, &es, 50, arena());
    assert_eq!(map.len(), 2);
    let mut expected = Interpolation::new(Position { x: 100, y: 100 }, Vec2 { x: 0, y: 0 });
    expected.update(50, Position { x: 300, y: 400 }, Vec2 { x: 10, y: 20 }, arena());
    assert_eq!(map[&7], expected);
    assert_eq!(map[&7].get_interpolated(), Position { x: 300, y: 400 });
    assert_eq!(map[&9].get_interpolated(), Position { x: 5, y: 5 });
}

#[test]
fn smoothing_nothing_changes_nothing() {
    let mut map: HashMap<u64, Interpolation> = HashMap::new();
    map.insert(3, Interpolation::new(Position { x: 1, y: 2 }, Vec2 { x: 3, y: 4 }));
    let before = map.clone();
    smooth(&mut map, &Vec::new(), 50, arena());
    assert_eq!(map, before);
}

#[test]
fn an_interpolation_can_step_backwards() {
    let mut i = Interpolation::new(Position { x: 100, y: 100 }, Vec2 { x: 0, y: 0 });
    i.update(-50, Position { x: 200, y: 100 }, Vec2 { x: 0, y: 0 }, arena());
    assert_eq!(i.get_interpolated(), Position { x: 600, y: 100 });
}
