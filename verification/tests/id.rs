use gunslinger::id::{Id, IdGen, PlayerId};

#[test]
fn identifiers_increase() {
    let mut g = IdGen::new();
    assert_eq!(g.next(), Id(0));
    assert_eq!(g.next(), Id(1));
    assert_eq!(g.next_player(), PlayerId(2));
    assert_eq!(g.next(), Id(3));
    assert_eq!(IdGen::default().next_id, Id(0));
}
