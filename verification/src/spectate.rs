use vstd::prelude::*;
use vstd::relations::{sorted_by, total_ordering};
use crate::entity::{find, first_index, has_key, is_first, lemma_first_index_is, lemma_first_index_none};
use crate::geometry::{Position, Time, Vec2, euclid_rem, valid_size, wrap};
use crate::id::{Id, PlayerId};
use crate::model::{Gun, Player, PlayerState};

verus! {

broadcast use vstd::seq_lib::group_to_multiset_ensures;

/// The order of the numbers of identifiers.
pub open spec fn id_le() -> spec_fn(u64, u64) -> bool {
    |x: u64, y: u64| x <= y
}

/// The player controls a gun that is there, so a spectator can watch it.
pub open spec fn watchable(p: Player, guns: Seq<Gun>) -> bool {
    p.state matches PlayerState::Gun { gun_id } && has_key(guns, gun_id.0)
}

/// The numbers of the identifiers of the players that can be watched, in the
/// players' order.
pub open spec fn watchable_ids(ps: Seq<Player>, guns: Seq<Gun>) -> Seq<u64>
    decreases ps.len(),
{
    if ps.len() == 0 {
        Seq::empty()
    } else {
        let rest = watchable_ids(ps.drop_last(), guns);
        if watchable(ps.last(), guns) { rest.push(ps.last().id.0) } else { rest }
    }
}

/// The places of `s` that hold `x`.
pub open spec fn holds(s: Seq<u64>, x: u64) -> spec_fn(int) -> bool {
    |i: int| s[i] == x
}

/// The first place of `x` in `s`, or `-1`.
pub open spec fn place_of(s: Seq<u64>, x: u64) -> int {
    first_index(holds(s, x), s.len() as int)
}

/// The player that a spectator of `current` watches after cycling by `delta`:
/// among the watchable players, ordered by identifier, the one `delta` places on
/// round the ring, or the first one when `current` is not among them.
pub open spec fn cycled(ps: Seq<Player>, guns: Seq<Gun>, current: PlayerId, delta: int) -> PlayerId {
    let ids = watchable_ids(ps, guns).sort_by(id_le());
    let i = place_of(ids, current.0);
    if i >= 0 {
        PlayerId(ids[wrap(i + delta, ids.len() as int)])
    } else {
        PlayerId(ids[0])
    }
}

proof fn lemma_id_le_total()
    ensures
        total_ordering(id_le()),
{
    let r = id_le();
    assert(vstd::relations::reflexive(r));
    assert(vstd::relations::antisymmetric(r));
    assert(vstd::relations::transitive(r));
    assert(vstd::relations::strongly_connected(r));
}

proof fn lemma_insert_sorted(r: Seq<u64>, j: int, x: u64)
    requires
        sorted_by(r, id_le()),
        0 <= j <= r.len(),
        forall|i: int| 0 <= i < j ==> r[i] <= x,
        j < r.len() ==> x < r[j],
    ensures
        sorted_by(r.insert(j, x), id_le()),
{
    let s = r.insert(j, x);
    assert forall|a: int, b: int| 0 <= a < b < s.len() implies #[trigger] id_le()(s[a], s[b]) by {
        let a0 = if a < j { a } else { a - 1 };
        let b0 = if b < j { b } else { b - 1 };
        if a < j && b < j {
            assert(id_le()(r[a0], r[b0]));
        } else if a < j && b == j {
        } else if a < j {
            assert(id_le()(r[a0], r[b0]));
        } else if a == j {
            if b0 > j {
                assert(id_le()(r[j], r[b0]));
            }
        } else {
            assert(id_le()(r[a0], r[b0]));
        }
    }
}

/// The numbers sorted in increasing order.
fn sort_ids(v: &Vec<u64>) -> (r: Vec<u64>)
    ensures
        r@ == v@.sort_by(id_le()),
        r@.len() == v@.len(),
{
    let mut r: Vec<u64> = Vec::new();
    let mut k: usize = 0;
    while k < v.len()
        invariant
            k <= v@.len(),
            sorted_by(r@, id_le()),
            r@.to_multiset() == v@.take(k as int).to_multiset(),
        decreases v@.len() - k,
    {
        let x: u64 = v[k];
        let mut j: usize = 0;
        while j < r.len()
            invariant
                j <= r@.len(),
                forall|i: int| 0 <= i < j ==> r@[i] <= x,
            ensures
                j <= r@.len(),
                forall|i: int| 0 <= i < j ==> r@[i] <= x,
                j < r@.len() ==> x < r@[j as int],
            decreases r@.len() - j,
        {
            if r[j] > x {
                break;
            }
            j = j + 1;
        }
        proof {
            lemma_insert_sorted(r@, j as int, x);
            assert(v@.take(k as int + 1) =~= v@.take(k as int).push(x));
        }
        r.insert(j, x);
        k = k + 1;
    }
    proof {
        assert(v@.take(v@.len() as int) =~= v@);
        lemma_id_le_total();
        v@.lemma_sort_by_ensures(id_le());
        vstd::seq_lib::lemma_sorted_unique(r@, v@.sort_by(id_le()), id_le());
        assert(r@.to_multiset().len() == v@.to_multiset().len());
    }
    r
}

/// The numbers of the identifiers of the players that can be watched.
fn watchable_ids_of(players: &Vec<Player>, guns: &Vec<Gun>) -> (r: Vec<u64>)
    ensures
        r@ == watchable_ids(players@, guns@),
{
    let mut r: Vec<u64> = Vec::new();
    let mut k: usize = 0;
    while k < players.len()
        invariant
            k <= players@.len(),
            r@ == watchable_ids(players@.take(k as int), guns@),
        decreases players@.len() - k,
    {
        let p: Player = players[k];
        proof {
            assert(players@.take(k as int + 1).drop_last() =~= players@.take(k as int));
        }
        if let PlayerState::Gun { gun_id } = p.state {
            if find(guns, gun_id.0).is_some() {
                r.push(p.id.0);
            }
        }
        k = k + 1;
    }
    proof {
        assert(players@.take(players@.len() as int) =~= players@);
    }
    r
}

/// Moves a spectator on by `delta` places among the players it can watch (see
/// `cycled`); a player that watches nobody keeps watching nobody.
pub fn cycle_spectator(players: &Vec<Player>, guns: &Vec<Gun>, spectating: Option<PlayerId>, delta: isize) -> (r: Option<PlayerId>)
    requires
        spectating is Some ==> watchable_ids(players@, guns@).len() > 0,
    ensures
        r == (match spectating {
            Some(current) => Some(cycled(players@, guns@, current, delta as int)),
            None => None,
        }),
{
    let current: PlayerId = match spectating {
        Some(current) => current,
        None => {
            return None;
        },
    };
    let ids: Vec<u64> = sort_ids(&watchable_ids_of(players, guns));
    let ghost p = holds(ids@, current.0);
    let mut i: usize = 0;
    while i < ids.len()
        invariant
            i <= ids@.len(),
            ids@ == watchable_ids(players@, guns@).sort_by(id_le()),
            ids@.len() > 0,
            spectating == Some(current),
            p == holds(ids@, current.0),
            forall|k: int| 0 <= k < i ==> ids@[k] != current.0,
        decreases ids@.len() - i,
    {
        if ids[i] == current.0 {
            proof {
                assert(is_first(p, ids@.len() as int, i as int));
                lemma_first_index_is(p, ids@.len() as int, i as int);
            }
            let n: i128 = ids.len() as i128;
            let j: i128 = euclid_rem(i as i128 + delta as i128, n);
            return Some(PlayerId(ids[j as usize]));
        }
        i = i + 1;
    }
    proof {
        lemma_first_index_none(p, ids@.len() as int);
    }
    Some(PlayerId(ids[0]))
}

/// The places of `guns` that hold the gun `gun_id`.
pub open spec fn gun_is(guns: Seq<Gun>, gun_id: Id) -> spec_fn(int) -> bool {
    |k: int| guns[k].id == gun_id
}

/// The places of `ps` that hold the player `pid`.
pub open spec fn player_is(ps: Seq<Player>, pid: PlayerId) -> spec_fn(int) -> bool {
    |k: int| ps[k].id == pid
}

/// Where the gun `gun_id` is, if it is there.
pub open spec fn gun_position(guns: Seq<Gun>, gun_id: Id) -> Option<Position> {
    let i = first_index(gun_is(guns, gun_id), guns.len() as int);
    if i >= 0 { Some(guns[i].position) } else { None }
}

/// Where a spectator watching the player would look: at the gun it controls.
pub open spec fn watch_spot(p: Player, guns: Seq<Gun>) -> Option<Position> {
    match p.state {
        PlayerState::Gun { gun_id } => gun_position(guns, gun_id),
        _ => None,
    }
}

/// The places of `ps` that hold a player whose gun can be watched.
pub open spec fn spot_at(ps: Seq<Player>, guns: Seq<Gun>) -> spec_fn(int) -> bool {
    |k: int| watch_spot(ps[k], guns) is Some
}

/// The player a spectator watches and where, as far as `spectating` can be kept:
/// the player it watched, if that one can still be watched, else the first player
/// that can be.
pub open spec fn watched(ps: Seq<Player>, guns: Seq<Gun>, spectating: Option<PlayerId>) -> Option<(PlayerId, Position)> {
    let kept = match spectating {
        Some(id) => {
            let j = first_index(player_is(ps, id), ps.len() as int);
            if j >= 0 && watch_spot(ps[j], guns) is Some {
                Some((ps[j].id, watch_spot(ps[j], guns).unwrap()))
            } else {
                None
            }
        },
        None => None,
    };
    if kept is Some {
        kept
    } else {
        let f = first_index(spot_at(ps, guns), ps.len() as int);
        if f >= 0 { Some((ps[f].id, watch_spot(ps[f], guns).unwrap())) } else { None }
    }
}

/// What the camera of the player `me` follows, and whom it watches: its own gun
/// while it controls one that is there; as a spectator, the player it watches
/// (see `watched`); otherwise it stays where it was, watching nobody.
pub open spec fn followed(ps: Seq<Player>, guns: Seq<Gun>, me: PlayerId, spectating: Option<PlayerId>, target: Position) -> (Position, Option<PlayerId>) {
    let k = first_index(player_is(ps, me), ps.len() as int);
    if k < 0 {
        (target, spectating)
    } else {
        match ps[k].state {
            PlayerState::Gun { gun_id } => (
                match gun_position(guns, gun_id) {
                    Some(pos) => pos,
                    None => target,
                },
                None,
            ),
            PlayerState::Spectator => match watched(ps, guns, spectating) {
                Some((id, pos)) => (pos, Some(id)),
                None => (target, None),
            },
            PlayerState::Respawning { .. } => (target, None),
        }
    }
}

fn first_player(ps: &Vec<Player>, pid: PlayerId) -> (r: Option<usize>)
    ensures
        r matches Some(k) ==> first_index(player_is(ps@, pid), ps@.len() as int) == k,
        r is None ==> first_index(player_is(ps@, pid), ps@.len() as int) == -1,
{
    let ghost p = player_is(ps@, pid);
    let mut k: usize = 0;
    while k < ps.len()
        invariant
            k <= ps@.len(),
            p == player_is(ps@, pid),
            forall|j: int| 0 <= j < k ==> !#[trigger] p(j),
        decreases ps@.len() - k,
    {
        if ps[k].id == pid {
            proof {
                lemma_first_index_is(p, ps@.len() as int, k as int);
            }
            return Some(k);
        }
        k = k + 1;
    }
    proof {
        lemma_first_index_none(p, ps@.len() as int);
    }
    None
}

fn gun_position_of(guns: &Vec<Gun>, gun_id: Id) -> (r: Option<Position>)
    ensures
        r == gun_position(guns@, gun_id),
{
    let ghost p = gun_is(guns@, gun_id);
    let mut k: usize = 0;
    while k < guns.len()
        invariant
            k <= guns@.len(),
            p == gun_is(guns@, gun_id),
            forall|j: int| 0 <= j < k ==> !#[trigger] p(j),
        decreases guns@.len() - k,
    {
        if guns[k].id == gun_id {
            proof {
                lemma_first_index_is(p, guns@.len() as int, k as int);
            }
            return Some(guns[k].position);
        }
        k = k + 1;
    }
    proof {
        lemma_first_index_none(p, guns@.len() as int);
    }
    None
}

fn watch_spot_of(p: &Player, guns: &Vec<Gun>) -> (r: Option<Position>)
    ensures
        r == watch_spot(*p, guns@),
{
    match p.state {
        PlayerState::Gun { gun_id } => gun_position_of(guns, gun_id),
        _ => None,
    }
}

fn watched_of(ps: &Vec<Player>, guns: &Vec<Gun>, spectating: Option<PlayerId>) -> (r: Option<(PlayerId, Position)>)
    ensures
        r == watched(ps@, guns@, spectating),
{
    if let Some(id) = spectating {
        if let Some(j) = first_player(ps, id) {
            if let Some(pos) = watch_spot_of(&ps[j], guns) {
                return Some((ps[j].id, pos));
            }
        }
    }
    let ghost p = spot_at(ps@, guns@);
    let mut k: usize = 0;
    while k < ps.len()
        invariant
            k <= ps@.len(),
            p == spot_at(ps@, guns@),
            forall|j: int| 0 <= j < k ==> !#[trigger] p(j),
            watched(ps@, guns@, spectating) == (if first_index(p, ps@.len() as int) >= 0 {
                Some((ps@[first_index(p, ps@.len() as int)].id, watch_spot(ps@[first_index(p, ps@.len() as int)], guns@).unwrap()))
            } else {
                None
            }),
        decreases ps@.len() - k,
    {
        if let Some(pos) = watch_spot_of(&ps[k], guns) {
            proof {
                lemma_first_index_is(p, ps@.len() as int, k as int);
            }
            return Some((ps[k].id, pos));
        }
        k = k + 1;
    }
    proof {
        lemma_first_index_none(p, ps@.len() as int);
    }
    None
}

/// The time in which the camera would close the distance to its target at the
/// speed it has now.
pub const CAMERA_INTERPOLATION: Time = 500;

/// The camera's centre after `dt`: it moves towards the target, the shortest way
/// round the arena, at the distance over `CAMERA_INTERPOLATION`.
pub open spec fn camera_moved(center: Position, target: Position, dt: Time, size: Vec2) -> Position {
    center.shifted_spec(center.direction_spec(target, size).scale_spec(dt as int, CAMERA_INTERPOLATION as int), size)
}

/// Moves the camera's centre towards its target (see `camera_moved`).
pub fn camera_step(center: Position, target: Position, dt: Time, size: Vec2) -> (r: Position)
    requires
        valid_size(size),
    ensures
        r == camera_moved(center, target, dt, size),
        r.in_arena(size),
{
    let d: Vec2 = center.direction(&target, size);
    center.shifted(d.scale(dt, CAMERA_INTERPOLATION), size)
}

/// What the camera of the player `me` follows next, and whom it watches (see
/// `followed`).
pub fn follow(players: &Vec<Player>, guns: &Vec<Gun>, me: PlayerId, spectating: Option<PlayerId>, target: Position) -> (r: (Position, Option<PlayerId>))
    ensures
        r == followed(players@, guns@, me, spectating, target),
{
    match first_player(players, me) {
        None => (target, spectating),
        Some(k) => match players[k].state {
            PlayerState::Gun { gun_id } => match gun_position_of(guns, gun_id) {
                Some(pos) => (pos, None),
                None => (target, None),
            },
            PlayerState::Spectator => match watched_of(players, guns, spectating) {
                Some((id, pos)) => (pos, Some(id)),
                None => (target, None),
            },
            PlayerState::Respawning { .. } => (target, None),
        },
    }
}

} // verus!
