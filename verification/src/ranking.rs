use vstd::prelude::*;
use crate::id::PlayerId;
use crate::model::GameStats;

verus! {

broadcast use vstd::std_specs::hash::group_hash_axioms;

/// The distinct scores of a round that are higher than `score`.
pub open spec fn higher_scores(scores: Map<u64, u64>, score: u64) -> Set<u64> {
    scores.values().filter(|s: u64| s > score)
}

/// The scores above `score` among the first `n` items of `s`.
spec fn higher_among(s: Seq<&u64>, n: int, score: u64) -> Set<u64> {
    Set::new(|x: u64| x > score && exists|j: int| 0 <= j < n && *s[j] == x)
}

/// Once all items of `s` are seen, the scores above `score` among them are
/// those of the map whose values `s` holds.
proof fn lemma_all_higher(s: Seq<&u64>, m: Map<u64, u64>, score: u64)
    requires
        s.unref().to_set() == m.values(),
    ensures
        higher_among(s, s.len() as int, score) == higher_scores(m, score),
{
    assert forall|x: u64| #[trigger] higher_scores(m, score).contains(x) implies
        higher_among(s, s.len() as int, score).contains(x) by {
        assert(s.unref().to_set().contains(x));
        let k: int = choose|k: int| 0 <= k < s.unref().len() && s.unref()[k] == x;
        assert(*s[k] == x);
    }
    assert forall|x: u64| #[trigger] higher_among(s, s.len() as int, score).contains(x)
        implies higher_scores(m, score).contains(x) by {
        let k: int = choose|k: int| 0 <= k < s.len() && *s[k] == x;
        assert(s.unref()[k] == x);
        assert(s.unref().to_set().contains(x));
    }
    assert(higher_among(s, s.len() as int, score) =~= higher_scores(m, score));
}

/// Whether `x` occurs in `v`.
fn occurs(v: &Vec<u64>, x: u64) -> (b: bool)
    ensures
        b == v@.contains(x),
{
    let mut k: usize = 0;
    while k < v.len()
        invariant
            k <= v@.len(),
            forall|j: int| 0 <= j < k ==> v@[j] != x,
        decreases v@.len() - k,
    {
        if v[k] == x {
            return true;
        }
        k = k + 1;
    }
    false
}

/// The place of a player at the end of a round: one more than the number of
/// distinct scores above the player's, so that players with equal scores share
/// a place and the next score takes the next place. `None` for a player that
/// has no score in the round.
pub fn finished_place(stats: &GameStats, player_id: PlayerId) -> (r: Option<u64>)
    ensures
        r is Some <==> stats.scores@.contains_key(player_id.0),
        r matches Some(p) ==> p == 1 + higher_scores(
            stats.scores@,
            stats.scores@[player_id.0],
        ).len(),
{
    let mine: u64 = match stats.scores.get(&player_id.0) {
        Some(s) => *s,
        None => {
            return None;
        },
    };
    let total: usize = stats.scores.len();
    let ghost m: Map<u64, u64> = stats.scores@;
    let mut above: Vec<u64> = Vec::new();
    proof {
        assert forall|s: Seq<&u64>| s.unref().to_set() == m.values() implies
            #[trigger] higher_among(s, s.len() as int, mine) == higher_scores(m, mine)
            && exists|j: int| 0 <= j < s.len() && *s[j] == mine by {
            lemma_all_higher(s, m, mine);
            assert(m.values().contains(mine));
            assert(s.unref().to_set().contains(mine));
            let j: int = choose|j: int| 0 <= j < s.unref().len() && s.unref()[j] == mine;
            assert(*s[j] == mine);
        }
    }
    let mut skipped: usize = 0;
    for v in it: stats.scores.values()
        invariant
            m == stats.scores@,
            m.contains_key(player_id.0),
            m[player_id.0] == mine,
            it.seq().unref().to_set() == m.values(),
            it.seq().len() == m.dom().len(),
            m.dom().len() == total,
            above@.to_set() == higher_among(it.seq(), it.index(), mine),
            above@.no_duplicates(),
            above@.len() + skipped == it.index(),
            (exists|j: int| 0 <= j < it.index() && *it.seq()[j] == mine) ==> skipped >= 1,
    {
        let s: u64 = *v;
        let ghost i: int = it.index();
        assert(*it.seq()[i] == s);
        let ghost before: Seq<u64> = above@;
        if s > mine && !occurs(&above, s) {
            above.push(s);
            proof {
                assert(above@.to_set() =~= before.to_set().insert(s)) by {
                    assert forall|x: u64| above@.to_set().contains(x) implies
                        before.to_set().insert(s).contains(x) by {
                        let k: int = choose|k: int| 0 <= k < above@.len() && above@[k] == x;
                        if k < before.len() {
                            assert(before[k] == x);
                        }
                    }
                    assert forall|x: u64| before.to_set().insert(s).contains(x) implies
                        above@.to_set().contains(x) by {
                        if x == s {
                            assert(above@[before.len() as int] == s);
                        } else {
                            let k: int = choose|k: int| 0 <= k < before.len() && before[k] == x;
                            assert(above@[k] == x);
                        }
                    }
                }
            }
        } else {
            skipped = skipped + 1;
        }
        assert(above@.to_set() =~= higher_among(it.seq(), i + 1, mine));
    }
    proof {
        above@.unique_seq_to_set();
    }
    Some(above.len() as u64 + 1)
}

} // verus!
