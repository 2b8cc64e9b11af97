use std::collections::HashMap;
use gunslinger::id::PlayerId;
use gunslinger::model::GameStats;
use gunslinger::ranking::finished_place;

fn stats() -> GameStats {
    let mut scores: HashMap<u64, u64> = HashMap::new();
    scores.insert(1, 10);
    scores.insert(2, 20);
    scores.insert(3, 20);
    scores.insert(4, 5);
    GameStats { scores }
}

#[test]
fn the_best_scores_share_the_first_place() {
    let s = stats();
    assert_eq!(finished_place(&s, PlayerId(2)), Some(1));
    assert_eq!(finished_place(&s, PlayerId(3)), Some(1));
}

#[test]
fn places_count_distinct_scores_above() {
    let s = stats();
    assert_eq!(finished_place(&s, PlayerId(1)), Some(2));
    assert_eq!(finished_place(&s, PlayerId(4)), Some(3));
}

#[test]
fn a_player_without_a_score_has_no_place() {
    let s = stats();
    assert_eq!(finished_place(&s, PlayerId(9)), None);
}

#[test]
fn a_lone_player_is_first() {
    let mut scores: HashMap<u64, u64> = HashMap::new();
    scores.insert(7, 0);
    let s = GameStats { scores };
    assert_eq!(finished_place(&s, PlayerId(7)), Some(1));
}
