use vstd::prelude::*;
use crate::config::Config;
use crate::entity::{Keyed, keys_distinct};
use crate::geometry::{Position, Time, Vec2, valid_size};
use crate::guns::{aim_done, aimed_gun, shoot_done, shot_bullets, shot_outcome, shot_projectiles, shot_type};
use crate::id::{Id, PlayerId};
use crate::logic::Logic;
use crate::logic::deaths::deaths_step;
use crate::logic::guns::reloaded;
use crate::logic::state::round_scores;
use crate::model::{Event, Model, Player};
use crate::player::{lemma_controlled_gun, player_joined, player_left};
use crate::rotation::{TURN, normalize};
use crate::spectate::{cycled, holds, id_le, place_of, watchable_ids};
use crate::collider::Collider;
use crate::geometry::{is_root, isqrt_spec, lemma_isqrt_unique, sat};
use crate::id::IdGen;
use crate::interpolation::{Interpolation, interpolated};
use crate::shake::{Shake, length, shake_updated};

verus! {

/// In a well-formed model no two guns are attached to the same human.
pub proof fn law_one_gun_per_host(m: Model)
    requires
        m.wf(),
    ensures
        forall|i: int, j: int|
            0 <= i < j < m.guns@.len() && (#[trigger] m.guns@[i]).attached_human is Some
                ==> m.guns@[i].attached_human != (#[trigger] m.guns@[j]).attached_human,
{
    let g = m.guns@;
    let h = m.humans@;
    assert forall|i: int, j: int|
        0 <= i < j < g.len() && (#[trigger] g[i]).attached_human is Some
            implies g[i].attached_human != (#[trigger] g[j]).attached_human by {
        if g[i].attached_human == g[j].attached_human {
            let a = choose|a: int| 0 <= a < h.len() && #[trigger] h[a].key() == g[i].attached_human.unwrap().0;
            assert(g[i].attached_human == Some(h[a].id));
            assert(h[a].holding_gun == Some(g[i].id));
            assert(h[a].holding_gun == Some(g[j].id));
            assert(g[i].key() != g[j].key());
        }
    }
}

/// Overlap does not depend on which box is taken as the origin: seen from the
/// other box, the offset is reversed.
pub proof fn law_check_symmetric(a: Collider, b: Collider, delta: Vec2)
    requires
        delta.x > i64::MIN,
        delta.y > i64::MIN,
    ensures
        a.overlaps(b, delta) == b.overlaps(a, Vec2 { x: (-delta.x) as i64, y: (-delta.y) as i64 }),
{
}

/// Identifiers drawn one after the other from one generator, for players or for
/// entities, are consecutive: they share one counter, so no number comes twice.
pub proof fn law_ids_consecutive(g0: IdGen, a: u64, g1: IdGen, b: u64)
    requires
        a == g0.next_spec(),
        g1.next_spec() == g0.next_spec() + 1,
        b == g1.next_spec(),
    ensures
        b == a + 1,
{
}

proof fn lemma_root_exists(n: int)
    requires
        n >= 0,
    ensures
        exists|r: int| #[trigger] is_root(n, r),
    decreases n,
{
    if n == 0 {
        assert(is_root(0, 0));
    } else {
        lemma_root_exists(n - 1);
        let r = choose|r: int| #[trigger] is_root(n - 1, r);
        if (r + 1) * (r + 1) <= n {
            assert((r + 2) * (r + 2) > n) by (nonlinear_arith)
                requires n - 1 < (r + 1) * (r + 1), r >= 0;
            assert(is_root(n, r + 1));
        } else {
            assert(is_root(n, r));
        }
    }
}

/// The length of a vector is at least each of its components.
proof fn lemma_length_bounds(v: Vec2)
    ensures
        is_root(v.len_sq(), length(v)),
        -length(v) <= v.x <= length(v),
        -length(v) <= v.y <= length(v),
{
    crate::gen::lemma_len_sq_nonneg(v);
    lemma_root_exists(v.len_sq());
    let l = length(v);
    assert(is_root(v.len_sq(), l));
    assert(-l <= v.x <= l && -l <= v.y <= l) by (nonlinear_arith)
        requires v.x * v.x + v.y * v.y < (l + 1) * (l + 1), l >= 0;
}

proof fn lemma_settle_step(v: int, sp: int, l: int)
    requires
        0 < v <= l,
        0 < sp < l,
    ensures
        1 <= (v * sp + l - 1) / l <= v,
        ((v * sp + l - 1) / l) * l >= v * sp,
{
    let n = v * sp + l - 1;
    let q = n / l;
    let r = n % l;
    vstd::arithmetic::div_mod::lemma_fundamental_div_mod(n, l);
    assert(1 <= q <= v && q * l >= v * sp) by (nonlinear_arith)
        requires n == l * q + r, 0 <= r < l, n == v * sp + l - 1, 0 < v <= l, 0 < sp < l;
}

/// The coordinate `b` lies nearer zero than `a`, on the same side, or is zero.
pub open spec fn towards_zero(a: int, b: int) -> bool {
    if a > 0 { 0 <= b < a } else if a < 0 { a < b <= 0 } else { b == 0 }
}

/// Once a shake's time is over and it has a speed, every update moves each nonzero
/// component of its offset strictly towards zero without passing it, and takes the
/// speed off the offset's length, or brings the offset to rest when its length is
/// no more than the speed; so the offset comes to rest within the length divided
/// by the speed, rounded up, updates.
pub proof fn law_shake_settles(s0: Shake, s1: Shake, dt: Time)
    requires
        shake_updated(s0, s1, dt),
        s0.time_spec() <= 0,
        s0.speed_spec() > 0,
    ensures
        s1.time_spec() <= 0,
        s1.speed_spec() == s0.speed_spec(),
        towards_zero(s0.offset_spec().x as int, s1.offset_spec().x as int),
        towards_zero(s0.offset_spec().y as int, s1.offset_spec().y as int),
        length(s0.offset_spec()) > s0.speed_spec() ==> length(s1.offset_spec())
            <= length(s0.offset_spec()) - s0.speed_spec(),
        length(s0.offset_spec()) <= s0.speed_spec() ==> s1.offset_spec() == (Vec2 { x: 0, y: 0 }),
{
    let v = s0.offset_spec();
    let l = length(v);
    let sp = s0.speed_spec() as int;
    lemma_length_bounds(v);
    let step = crate::shake::clamp_len(v, sp);
    if l > sp {
        assert(step == crate::shake::scaled_up(v, sp, l));
        lemma_settle_component(v.x as int, sp, l);
        lemma_settle_component(v.y as int, sp, l);
        let w = s1.offset_spec();
        lemma_length_bounds(w);
        let r = length(w);
        assert(w.len_sq() * (l * l) <= v.len_sq() * ((l - sp) * (l - sp))) by (nonlinear_arith)
            requires
                w.x * w.x * (l * l) <= v.x * v.x * ((l - sp) * (l - sp)),
                w.y * w.y * (l * l) <= v.y * v.y * ((l - sp) * (l - sp));
        assert(w.len_sq() < (l - sp + 1) * (l - sp + 1)) by (nonlinear_arith)
            requires
                w.len_sq() * (l * l) <= v.len_sq() * ((l - sp) * (l - sp)),
                v.len_sq() < (l + 1) * (l + 1),
                0 < sp < l,
                w.len_sq() >= 0;
        if r > l - sp {
            assert((l - sp + 1) * (l - sp + 1) <= r * r) by (nonlinear_arith)
                requires r >= l - sp + 1, l - sp > 0;
        }
    } else {
        assert(step == v);
    }
}

proof fn lemma_square_le(a: int, b: int)
    requires
        0 <= a <= b,
    ensures
        a * a <= b * b,
{
    assert(a * a <= b * b) by (nonlinear_arith) requires 0 <= a <= b;
}

proof fn lemma_settle_component(x: int, sp: int, l: int)
    requires
        -l <= x <= l,
        0 < sp < l,
        i64::MIN <= x <= i64::MAX,
    ensures
        towards_zero(x, sat(x - sat(crate::shake::tdiv_up(x * sp, l)))),
        ({
            let w = sat(x - sat(crate::shake::tdiv_up(x * sp, l)));
            w * w * (l * l) <= x * x * ((l - sp) * (l - sp))
        }),
{
    if x > 0 {
        lemma_settle_step(x, sp, l);
        assert(x * sp > 0) by (nonlinear_arith) requires x > 0, sp > 0;
        let q = (x * sp + l - 1) / l;
        let w = x - q;
        assert(crate::shake::tdiv_up(x * sp, l) == q);
        assert(sat(x - sat(crate::shake::tdiv_up(x * sp, l))) == w);
        assert(w * l <= x * (l - sp)) by (nonlinear_arith)
            requires w == x - q, q * l >= x * sp;
        lemma_square_le(w * l, x * (l - sp));
        assert(w * w * (l * l) == (w * l) * (w * l)) by (nonlinear_arith);
        assert(x * x * ((l - sp) * (l - sp)) == (x * (l - sp)) * (x * (l - sp))) by (nonlinear_arith);
    } else if x < 0 {
        lemma_settle_step(-x, sp, l);
        assert(x * sp < 0 && -(x * sp) == (-x) * sp) by (nonlinear_arith) requires x < 0, sp > 0;
        let q = ((-x) * sp + l - 1) / l;
        let w = x + q;
        assert(crate::shake::tdiv_up(x * sp, l) == -q);
        assert(sat(x - sat(crate::shake::tdiv_up(x * sp, l))) == w);
        assert((-w) * l <= (-x) * (l - sp)) by (nonlinear_arith)
            requires w == x + q, q * l >= (-x) * sp;
        assert(0 <= (-w) * l) by (nonlinear_arith) requires w <= 0, l > 0;
        lemma_square_le((-w) * l, (-x) * (l - sp));
        assert(w * w * (l * l) == ((-w) * l) * ((-w) * l)) by (nonlinear_arith);
        assert(x * x * ((l - sp) * (l - sp)) == ((-x) * (l - sp)) * ((-x) * (l - sp))) by (nonlinear_arith);
    } else {
        assert(x * sp == 0) by (nonlinear_arith) requires x == 0;
        assert((l - 1) / l == 0) by (nonlinear_arith) requires l > 0;
        assert(sat(x - sat(crate::shake::tdiv_up(x * sp, l))) == 0);
        assert(x * x * ((l - sp) * (l - sp)) == 0) by (nonlinear_arith) requires x == 0;
    }
}

proof fn lemma_root_monotone(n1: int, r1: int, n2: int, r2: int)
    requires
        is_root(n1, r1),
        is_root(n2, r2),
        n2 <= n1,
    ensures
        r2 <= r1,
{
    if r2 > r1 {
        assert((r1 + 1) * (r1 + 1) <= r2 * r2) by (nonlinear_arith) requires r2 >= r1 + 1, r1 >= 0;
    }
}

proof fn lemma_clamped_axis(x: int, a: int, l: int)
    requires
        0 < a <= l,
        -l <= x <= l,
    ensures
        ({
            let c = crate::geometry::tdiv(x * a, l);
            &&& x >= 0 ==> 0 <= c <= x
            &&& x < 0 ==> x <= c <= 0
            &&& c * c * (l * l) <= x * x * (a * a)
        }),
{
    let c = crate::geometry::tdiv(x * a, l);
    if x >= 0 {
        let n = x * a;
        assert(n >= 0) by (nonlinear_arith) requires x >= 0, a > 0, n == x * a;
        vstd::arithmetic::div_mod::lemma_fundamental_div_mod(n, l);
        let r = n % l;
        assert(0 <= c <= x && c * l <= n) by (nonlinear_arith) requires n == l * c + r, 0 <= r < l, n == x * a, 0 <= x, 0 < a <= l;
        assert(c * c * (l * l) <= x * x * (a * a)) by (nonlinear_arith) requires 0 <= c * l <= x * a, c >= 0;
    } else {
        let n = -x * a;
        assert(n > 0 && -(x * a) == n) by (nonlinear_arith) requires x < 0, a > 0, n == -x * a;
        vstd::arithmetic::div_mod::lemma_fundamental_div_mod(n, l);
        let q = n / l;
        let r = n % l;
        assert(0 <= q <= -x && q * l <= n) by (nonlinear_arith) requires n == l * q + r, 0 <= r < l, n == -x * a, x < 0, 0 < a <= l;
        assert(c == -q);
        assert(c * c * (l * l) <= x * x * (a * a)) by (nonlinear_arith) requires 0 <= q * l <= -x * a, q >= 0, c == -q;
    }
}

/// While a shake lasts, an update leaves its offset within the amplitude (bouncing
/// it back onto the amplitude when it goes further); once it is over, the offset
/// only shrinks. So an offset within the amplitude stays within it.
pub proof fn law_shake_within_amplitude(s0: Shake, s1: Shake, dt: Time)
    requires
        shake_updated(s0, s1, dt),
        s0.amplitude_spec() > 0,
        s0.speed_spec() >= 0,
        length(s0.offset_spec()) <= s0.amplitude_spec(),
    ensures
        length(s1.offset_spec()) <= s1.amplitude_spec(),
{
    let a = s0.amplitude_spec() as int;
    let v = s0.offset_spec();
    lemma_length_bounds(v);
    lemma_length_bounds(s1.offset_spec());
    if s0.time_spec() <= 0 {
        if s0.speed_spec() > 0 {
            law_shake_settles(s0, s1, dt);
            let w = s1.offset_spec();
            assert(w.len_sq() <= v.len_sq()) by (nonlinear_arith)
                requires
                    (v.x > 0 ==> 0 <= w.x < v.x), (v.x < 0 ==> v.x < w.x <= 0), (v.x == 0 ==> w.x == 0),
                    (v.y > 0 ==> 0 <= w.y < v.y), (v.y < 0 ==> v.y < w.y <= 0), (v.y == 0 ==> w.y == 0);
            lemma_root_monotone(v.len_sq(), length(v), w.len_sq(), length(w));
        } else {
            if length(v) > 0 {
                let l0 = length(v);
                assert((l0 - 1) / l0 == 0) by (nonlinear_arith) requires l0 > 0;
                assert(v.x * 0 == 0 && v.y * 0 == 0);
                assert(crate::shake::clamp_len(v, 0) == (Vec2 { x: 0, y: 0 }));
            } else {
                assert(v.x == 0 && v.y == 0);
            }
            assert(s1.offset_spec() == v);
        }
    } else {
        let o = crate::shake::shaken_offset(s0, dt);
        lemma_length_bounds(o);
        let l = length(o);
        if l >= a {
            let w = s1.offset_spec();
            lemma_clamped_axis(o.x as int, a, l);
            lemma_clamped_axis(o.y as int, a, l);
            assert(w.len_sq() * (l * l) <= o.len_sq() * (a * a)) by (nonlinear_arith)
                requires
                    w.x * w.x * (l * l) <= o.x * o.x * (a * a),
                    w.y * w.y * (l * l) <= o.y * o.y * (a * a);
            assert(w.len_sq() < (a + 1) * (a + 1)) by (nonlinear_arith)
                requires
                    w.len_sq() * (l * l) <= o.len_sq() * (a * a),
                    o.len_sq() < (l + 1) * (l + 1),
                    0 < a <= l,
                    w.len_sq() >= 0;
            let r = length(w);
            if r > a {
                assert((a + 1) * (a + 1) <= r * r) by (nonlinear_arith) requires r >= a + 1, a > 0;
            }
        }
    }
}

/// A shake at rest, with its time over and no offset, stays at rest whatever time
/// passes; a new shake is such a shake.
pub proof fn law_shake_stays_at_rest(s0: Shake, s1: Shake, dt: Time)
    requires
        shake_updated(s0, s1, dt),
        s0.time_spec() <= 0,
        s0.offset_spec() == (Vec2 { x: 0, y: 0 }),
        s0.speed_spec() >= 0,
    ensures
        s1.time_spec() == s0.time_spec(),
        s1.speed_spec() == s0.speed_spec(),
        s1.offset_spec() == (Vec2 { x: 0, y: 0 }),
{
    lemma_isqrt_unique(0, 0);
    assert(s0.offset_spec().len_sq() == 0);
}

proof fn lemma_spline_at_start(p0: int, p1: int, v0: int, v1: int)
    ensures
        crate::interpolation::spline_position(p0, p1, v0, v1, 0) == p0,
        crate::interpolation::spline_velocity(p0, p1, v0, v1, 0) == v0,
{
    let a: int = 0;
    let b: int = 50;
    let np = 1000 * (p0 * (2 * a * a * a - 3 * a * a * b + b * b * b) + p1 * (3 * a * a * b - 2 * a * a * a))
        + b * (v0 * (a * a * a - 2 * a * a * b + a * b * b) + v1 * (a * a * a - a * a * b));
    let nv = 1000 * (p0 - p1) * (6 * a * a - 6 * a * b) + b * (v0 * (3 * a * a - 4 * a * b + b * b) + v1 * (3 * a
        * a - 2 * a * b));
    assert(np == 125_000_000 * p0) by (nonlinear_arith) requires a == 0, b == 50, np == 1000 * (p0 * (2 * a * a * a - 3 * a * a * b + b * b * b) + p1 * (3 * a * a * b - 2 * a * a * a))
        + b * (v0 * (a * a * a - 2 * a * a * b + a * b * b) + v1 * (a * a * a - a * a * b));
    assert(nv == 125_000 * v0) by (nonlinear_arith) requires a == 0, b == 50, nv == 1000 * (p0 - p1) * (6 * a * a - 6 * a * b) + b * (v0 * (3 * a * a - 4 * a * b + b * b) + v1 * (3 * a
        * a - 2 * a * b));
    assert(1000 * b * b * b == 125_000_000 && b * b * b == 125_000);
    if p0 >= 0 {
        vstd::arithmetic::div_mod::lemma_div_multiples_vanish(p0, 125_000_000);
    } else {
        vstd::arithmetic::div_mod::lemma_div_multiples_vanish(-p0, 125_000_000);
    }
    if v0 >= 0 {
        vstd::arithmetic::div_mod::lemma_div_multiples_vanish(v0, 125_000);
    } else {
        vstd::arithmetic::div_mod::lemma_div_multiples_vanish(-v0, 125_000);
    }
}

/// An update over no time leaves an interpolation where it was, moving as it
/// was, whatever its target: its position only wraps onto the arena, so one on
/// the arena stays exactly where it was.
pub proof fn law_interpolation_zero_step(i0: Interpolation, i1: Interpolation, target: Position, target_velocity: Vec2, size: Vec2)
    requires
        interpolated(i0, i1, 0, target, target_velocity, size),
        valid_size(size),
    ensures
        i1.position_spec() == Position::from_world_spec(
            Vec2 { x: i0.position_spec().x, y: i0.position_spec().y },
            size,
        ),
        i0.position_spec().in_arena(size) ==> i1.position_spec() == i0.position_spec(),
        i1.velocity_spec() == i0.velocity_spec(),
        i1.time_spec() == i0.time_spec(),
{
    let p0 = i0.position_spec();
    let v0 = i0.velocity_spec();
    let d = p0.direction_spec(target, size);
    lemma_spline_at_start(p0.x as int, p0.x + d.x, v0.x as int, target_velocity.x as int);
    lemma_spline_at_start(p0.y as int, p0.y + d.y, v0.y as int, target_velocity.y as int);
    if p0.in_arena(size) {
        vstd::arithmetic::div_mod::lemma_small_mod(p0.x as nat, size.x as nat);
        vstd::arithmetic::div_mod::lemma_small_mod(p0.y as nat, size.y as nat);
    }
}

/// Pushing guns apart keeps every gun, with its identifier and its attachment, in
/// its place in the collection, and only swaps velocities between guns: the
/// velocities, counted with repetition, stay the same.
pub proof fn law_gun_gun_keeps_guns(gs: Seq<crate::model::Gun>, size: Vec2)
    requires
        valid_size(size),
        forall|x: int| 0 <= x < gs.len() ==> (#[trigger] gs[x]).position.in_arena(size),
    ensures
        ({
            let r = crate::logic::collisions::gun_rows(gs, gs.len() as int, size);
            &&& r.len() == gs.len()
            &&& forall|x: int| 0 <= x < gs.len() ==> (#[trigger] r[x]).id == gs[x].id && r[x].attached_human == gs[x].attached_human
            &&& crate::logic::collisions::velocities(r).to_multiset() == crate::logic::collisions::velocities(gs).to_multiset()
        }),
{
    crate::logic::collisions::lemma_rows_ok(gs, gs.len() as int, size);
    crate::logic::collisions::lemma_rows_velocities(gs, gs.len() as int, size);
}

/// Moving the other box by the collision's push separates the two boxes.
pub proof fn law_collision_push_separates(a: crate::collider::Collider, b: crate::collider::Collider, delta: Vec2)
    requires
        a.collision_spec(b, delta) is Some,
        i64::MIN <= delta.x + a.collision_spec(b, delta).unwrap().normal.x * a.collision_spec(b, delta).unwrap().penetration <= i64::MAX,
        i64::MIN <= delta.y + a.collision_spec(b, delta).unwrap().normal.y * a.collision_spec(b, delta).unwrap().penetration <= i64::MAX,
    ensures
        ({
            let c = a.collision_spec(b, delta).unwrap();
            !a.overlaps(b, Vec2 {
                x: (delta.x + c.normal.x * c.penetration) as i64,
                y: (delta.y + c.normal.y * c.penetration) as i64,
            })
        }),
{
}

/// No shorter move along an axis separates the boxes: the collision's push is the
/// least one that does.
pub proof fn law_collision_push_minimal(a: crate::collider::Collider, b: crate::collider::Collider, delta: Vec2, t: Vec2)
    requires
        a.collision_spec(b, delta) is Some,
        t.x == 0 || t.y == 0,
        crate::collider::abs(t.x as int) < a.collision_spec(b, delta).unwrap().penetration,
        crate::collider::abs(t.y as int) < a.collision_spec(b, delta).unwrap().penetration,
        i64::MIN <= delta.x + t.x <= i64::MAX,
        i64::MIN <= delta.y + t.y <= i64::MAX,
    ensures
        a.overlaps(b, Vec2 { x: (delta.x + t.x) as i64, y: (delta.y + t.y) as i64 }),
{
}

/// Normalizing an angle gives an angle in `[0, TURN]` that is congruent to it
/// modulo a full turn, and normalizing it again changes nothing.
pub proof fn law_normalize(a: int)
    ensures
        0 <= normalize(a) <= TURN,
        normalize(a) % (TURN as int) == a % (TURN as int),
        normalize(normalize(a)) == normalize(a),
{
    if a > TURN && a % (TURN as int) == 0 {
        assert((TURN as int) % (TURN as int) == 0);
    }
}

/// A point of the arena, taken to the plane and wrapped back, is the same point.
pub proof fn law_world_round_trip(p: Position, size: Vec2)
    requires
        valid_size(size),
        p.in_arena(size),
    ensures
        Position::from_world_spec((Vec2 { x: p.x, y: p.y }), size) == p,
{
    vstd::arithmetic::div_mod::lemma_small_mod(p.x as nat, size.x as nat);
    vstd::arithmetic::div_mod::lemma_small_mod(p.y as nat, size.y as nat);
}

proof fn lemma_shortest_leads(a: int, b: int, m: int)
    requires
        m > 0,
        0 <= b < m,
    ensures
        (a + crate::geometry::shortest(b - a, m)) % m == b,
{
    let r = (b - a) % m;
    vstd::arithmetic::div_mod::lemma_add_mod_noop_right(a, b - a, m);
    vstd::arithmetic::div_mod::lemma_mod_sub_multiples_vanish(a + r, m);
    vstd::arithmetic::div_mod::lemma_small_mod(b as nat, m as nat);
}

/// The shortest offset from `p` to a point `q` of the arena leads from `p` to `q`.
pub proof fn law_direction_leads_to(p: Position, q: Position, size: Vec2)
    requires
        valid_size(size),
        q.in_arena(size),
    ensures
        p.shifted_spec(p.direction_spec(q, size), size) == q,
{
    let m = size.x as int;
    let n = size.y as int;
    let dx = crate::geometry::shortest(q.x - p.x, m);
    let dy = crate::geometry::shortest(q.y - p.y, n);
    assert(-m < dx <= m / 2 + 1 && -n < dy <= n / 2 + 1) by {
        let rx = (q.x - p.x) % m;
        let ry = (q.y - p.y) % n;
        assert(0 <= rx < m && 0 <= ry < n);
    }
    lemma_shortest_leads(p.x as int, q.x as int, m);
    lemma_shortest_leads(p.y as int, q.y as int, n);
}

/// Aiming a gun twice at the same target is aiming it once.
pub proof fn law_aim_twice(m0: Model, m1: Model, m2: Model, gun_id: Id, target: Position)
    requires
        aim_done(m0, m1, gun_id, target),
        aim_done(m1, m2, gun_id, target),
    ensures
        m2.guns@ == m1.guns@,
{
    if exists|i: int| 0 <= i < m0.guns@.len() && #[trigger] m0.guns@[i].id == gun_id {
        let i = choose|i: int| 0 <= i < m0.guns@.len() && #[trigger] m0.guns@[i].id == gun_id;
        let g = aimed_gun(m0.guns@[i], m0.humans@, target, m0.config());
        assert(m1.guns@ == m0.guns@.update(i, g));
        assert(m1.guns@[i].id == gun_id);
        assert(m2.guns@ =~= m1.guns@);
    } else {
        assert(!crate::entity::has_key(m0.guns@, gun_id.0)) by {
            if crate::entity::has_key(m0.guns@, gun_id.0) {
                let i = choose|i: int| 0 <= i < m0.guns@.len() && #[trigger] m0.guns@[i].key() == gun_id.0;
                assert(m0.guns@[i].id == gun_id);
            }
        }
        assert(!crate::entity::has_key(m1.guns@, gun_id.0));
    }
}

/// A player that joins and then leaves leaves the players, the entities and the
/// guns as they were.
pub proof fn law_join_then_leave(m0: Model, m1: Model, id: PlayerId, m2: Model)
    requires
        m0.wf(),
        player_joined(m0, m1, id),
        player_left(m1, m2, id),
    ensures
        m2.players@ == m0.players@,
        m2.guns@ == m0.guns@,
        m2.humans@ == m0.humans@,
        m2.projectiles@ == m0.projectiles@,
        m2.blocks@ == m0.blocks@,
{
    let p0 = m0.players@;
    let p1 = m1.players@;
    let k = p0.len() as int;
    assert(p1[k].id == id);
    assert forall|x: int, y: int| 0 <= x < p1.len() && 0 <= y < p1.len() && x != y
        implies #[trigger] p1[x].key() != #[trigger] p1[y].key() by {
        if x < k && y < k {
            assert(p0[x].key() != p0[y].key());
        } else if x < k {
            assert(p0[x].key() < m0.id_gen.next_spec());
        } else if y < k {
            assert(p0[y].key() < m0.id_gen.next_spec());
        }
    }
    lemma_controlled_gun(p1, id, k);
    assert(m2.players@ =~= p0);
}

/// The scores that a finished round records are exactly those of the players that
/// are not spectators, when no two players share an identifier.
pub proof fn law_round_scores(ps: Seq<Player>)
    requires
        keys_distinct(ps),
    ensures
        forall|k: int| 0 <= k < ps.len() && !((#[trigger] ps[k]).state is Spectator)
            ==> round_scores(ps).contains_key(ps[k].id.0) && round_scores(ps)[ps[k].id.0] == ps[k].score,
        forall|n: u64| #[trigger] round_scores(ps).contains_key(n) ==> exists|k: int|
            0 <= k < ps.len() && (#[trigger] ps[k]).id.0 == n && !(ps[k].state is Spectator),
    decreases ps.len(),
{
    if ps.len() > 0 {
        let init = ps.drop_last();
        let last = ps.last();
        assert(keys_distinct(init)) by {
            assert forall|x: int, y: int| 0 <= x < init.len() && 0 <= y < init.len() && x != y
                implies #[trigger] init[x].key() != #[trigger] init[y].key() by {
                assert(init[x] == ps[x] && init[y] == ps[y]);
            }
        }
        law_round_scores(init);
        assert forall|k: int| 0 <= k < ps.len() && !((#[trigger] ps[k]).state is Spectator)
            implies round_scores(ps).contains_key(ps[k].id.0) && round_scores(ps)[ps[k].id.0] == ps[k].score by {
            if k < ps.len() - 1 {
                assert(init[k] == ps[k]);
                assert(ps[k].key() != ps[ps.len() - 1].key());
            }
        }
        assert forall|n: u64| #[trigger] round_scores(ps).contains_key(n) implies exists|k: int|
            0 <= k < ps.len() && (#[trigger] ps[k]).id.0 == n && !(ps[k].state is Spectator) by {
            if !(last.state is Spectator) && n == last.id.0 {
                assert(ps[ps.len() - 1] == last);
            } else {
                assert(round_scores(init).contains_key(n));
                let k = choose|k: int| 0 <= k < init.len() && (#[trigger] init[k]).id.0 == n && !(init[k].state is Spectator);
                assert(ps[k] == init[k]);
            }
        }
    }
}

/// Reloading never fills a gun beyond its magazine, and adds at most one bullet.
pub proof fn law_reload_bounded(g: crate::model::Gun, c: Config, dt: Time)
    requires
        g.ammo <= c.gun_magazine_size,
    ensures
        reloaded(g, c, dt).ammo <= c.gun_magazine_size,
        g.ammo <= reloaded(g, c, dt).ammo <= g.ammo + 1,
{
}

/// After the deaths of a step every human and every gun left is alive, and every
/// projectile left has some lifetime left.
pub proof fn law_deaths_leave_living(l0: Logic, l1: Logic)
    requires
        deaths_step(l0, l1),
    ensures
        forall|j: int| 0 <= j < l1.model.humans@.len() ==> (#[trigger] l1.model.humans@[j]).death is None,
        forall|j: int| 0 <= j < l1.model.guns@.len() ==> (#[trigger] l1.model.guns@[j]).death is None,
        forall|j: int| 0 <= j < l1.model.projectiles@.len() ==> (#[trigger] l1.model.projectiles@[j]).lifetime > 0,
{
    let m = l0.model;
    let alive_h = m.humans@.filter(crate::logic::deaths::alive_human());
    let g1 = crate::logic::deaths::released_guns(m);
    assert(l1.model.humans@ == alive_h.map_values(|h: crate::model::Human| crate::logic::deaths::after_gun_deaths_human(h, g1)));
    assert(l1.model.humans@.len() == alive_h.len());
    assert forall|j: int| 0 <= j < l1.model.humans@.len() implies (#[trigger] l1.model.humans@[j]).death is None by {
        m.humans@.lemma_filter_pred(crate::logic::deaths::alive_human(), j);
        assert(l1.model.humans@[j] == crate::logic::deaths::after_gun_deaths_human(alive_h[j], g1));
    }
    assert forall|j: int| 0 <= j < l1.model.guns@.len() implies (#[trigger] l1.model.guns@[j]).death is None by {
        g1.lemma_filter_pred(crate::logic::deaths::alive_gun(), j);
    }
    let aged = crate::logic::deaths::aged_all(m.projectiles@, l0.delta_time);
    assert forall|j: int| 0 <= j < l1.model.projectiles@.len() implies (#[trigger] l1.model.projectiles@[j]).lifetime > 0 by {
        aged.lemma_filter_pred(crate::logic::deaths::alive_projectile(), j);
    }
}

/// A gun without the ammunition that a shot takes does not shoot: nothing changes
/// and nothing is reported.
pub proof fn law_no_ammo_no_shot(m0: Model, e0: Seq<Event>, m1: Model, e1: Seq<Event>, gun_id: Id, heavy: bool, i: int)
    requires
        shoot_done(m0, e0, m1, e1, gun_id, heavy),
        0 <= i < m0.guns@.len(),
        m0.guns@[i].id == gun_id,
        m0.guns@[i].ammo < shot_bullets(shot_type(m0.guns@[i], heavy), m0.config()),
    ensures
        m1.id_gen == m0.id_gen,
        m1.players@ == m0.players@,
        m1.humans@ == m0.humans@,
        m1.guns@ == m0.guns@,
        m1.projectiles@ == m0.projectiles@,
        e1 == e0,
{
    reveal(shot_outcome);
}

/// A shot that has its ammunition spends exactly the bullets it takes, and fires
/// that many projectiles, or none on a kill shot.
pub proof fn law_shot_spends_ammo(m0: Model, e0: Seq<Event>, m1: Model, e1: Seq<Event>, gun_id: Id, heavy: bool, i: int)
    requires
        shoot_done(m0, e0, m1, e1, gun_id, heavy),
        0 <= i < m0.guns@.len(),
        m0.guns@[i].id == gun_id,
        m0.guns@[i].ammo >= shot_bullets(shot_type(m0.guns@[i], heavy), m0.config()),
    ensures
        m1.guns@[i].ammo == m0.guns@[i].ammo - shot_bullets(shot_type(m0.guns@[i], heavy), m0.config()),
        m1.projectiles@.len() == m0.projectiles@.len() + if shot_type(m0.guns@[i], heavy) is Kill {
            0
        } else {
            shot_bullets(shot_type(m0.guns@[i], heavy), m0.config()) as int
        },
        e1.len() == e0.len() + 1,
{
    reveal(shot_outcome);
    reveal(shot_projectiles);
}

proof fn lemma_watchable_from_players(ps: Seq<Player>, guns: Seq<crate::model::Gun>)
    ensures
        forall|i: int| 0 <= i < watchable_ids(ps, guns).len() ==> exists|k: int|
            0 <= k < ps.len() && (#[trigger] ps[k]).id.0 == #[trigger] watchable_ids(ps, guns)[i],
    decreases ps.len(),
{
    if ps.len() > 0 {
        let init = ps.drop_last();
        lemma_watchable_from_players(init, guns);
        let w = watchable_ids(ps, guns);
        let r = watchable_ids(init, guns);
        assert forall|i: int| #![trigger w[i]] 0 <= i < w.len() implies exists|k: int| 0 <= k < ps.len() && (#[trigger] ps[k]).id.0 == w[i] by {
            if i < r.len() {
                assert(w[i] == r[i]);
                let k = choose|k: int| 0 <= k < init.len() && (#[trigger] init[k]).id.0 == r[i];
                assert(ps[k] == init[k]);
            } else {
                assert(ps[ps.len() - 1].id.0 == w[i]);
            }
        }
    }
}

proof fn lemma_watchable_distinct(ps: Seq<Player>, guns: Seq<crate::model::Gun>)
    requires
        keys_distinct(ps),
    ensures
        watchable_ids(ps, guns).no_duplicates(),
    decreases ps.len(),
{
    if ps.len() > 0 {
        let init = ps.drop_last();
        assert(keys_distinct(init)) by {
            assert forall|x: int, y: int| 0 <= x < init.len() && 0 <= y < init.len() && x != y
                implies #[trigger] init[x].key() != #[trigger] init[y].key() by {
                assert(init[x] == ps[x] && init[y] == ps[y]);
            }
        }
        lemma_watchable_distinct(init, guns);
        lemma_watchable_from_players(init, guns);
        let r = watchable_ids(init, guns);
        let last = ps.last();
        assert forall|i: int| 0 <= i < r.len() implies r[i] != last.id.0 by {
            let k = choose|k: int| 0 <= k < init.len() && (#[trigger] init[k]).id.0 == r[i];
            assert(ps[k] == init[k]);
            assert(ps[k].key() != ps[ps.len() - 1].key());
        }
    }
}

proof fn lemma_ring_back(i: int, d: int, n: int)
    requires
        0 <= i < n,
    ensures
        ((i + d) % n + (-d)) % n == i,
{
    vstd::arithmetic::div_mod::lemma_add_mod_noop_right((i + d) % n, -d, n);
    vstd::arithmetic::div_mod::lemma_add_mod_noop(i + d, -d, n);
    vstd::arithmetic::div_mod::lemma_mod_twice(i + d, n);
    vstd::arithmetic::div_mod::lemma_small_mod(i as nat, n as nat);
}

/// A spectator that cycles on by `delta` and then back by `delta` watches the
/// player it watched before, when no two players share an identifier.
pub proof fn law_cycle_back(ps: Seq<Player>, guns: Seq<crate::model::Gun>, current: PlayerId, delta: int)
    requires
        keys_distinct(ps),
        watchable_ids(ps, guns).contains(current.0),
    ensures
        cycled(ps, guns, cycled(ps, guns, current, delta), -delta) == current,
{
    broadcast use vstd::seq_lib::group_to_multiset_ensures;
    broadcast use vstd::multiset::group_multiset_axioms;

    let w = watchable_ids(ps, guns);
    let ids = w.sort_by(id_le());
    lemma_watchable_distinct(ps, guns);
    assert(vstd::relations::total_ordering(id_le())) by {
        assert(vstd::relations::reflexive(id_le()));
        assert(vstd::relations::antisymmetric(id_le()));
        assert(vstd::relations::transitive(id_le()));
        assert(vstd::relations::strongly_connected(id_le()));
    }
    w.lemma_sort_by_ensures(id_le());
    w.lemma_multiset_has_no_duplicates();
    assert forall|x: u64| ids.to_multiset().contains(x) implies ids.to_multiset().count(x) == 1 by {
        assert(w.to_multiset().contains(x));
    }
    ids.lemma_multiset_has_no_duplicates_conv();
    let n = ids.len() as int;
    assert(ids.to_multiset().contains(current.0));
    let i = choose|i: int| 0 <= i < n && ids[i] == current.0;
    assert forall|x: u64, j: int| 0 <= j < n && ids[j] == x implies place_of(ids, x) == j by {
        assert forall|k: int| 0 <= k < j implies !#[trigger] holds(ids, x)(k) by {
            assert(ids[k] != ids[j]);
        }
        crate::entity::lemma_first_index_is(holds(ids, x), n, j);
    }
    assert(place_of(ids, current.0) == i);
    let j = crate::geometry::wrap(i + delta, n);
    assert(0 <= j < n);
    let next = cycled(ps, guns, current, delta);
    assert(next == PlayerId(ids[j]));
    assert(place_of(ids, ids[j]) == j);
    lemma_ring_back(i, delta, n);
    assert(crate::geometry::wrap(j + (-delta), n) == i);
}


proof fn lemma_best_angle_range(v: Vec2, k: int)
    ensures
        0 <= crate::rotation::best_angle(v, k),
        k >= 1 ==> crate::rotation::best_angle(v, k) < k,
    decreases k,
{
    if k > 1 {
        lemma_best_angle_range(v, k - 1);
    }
}

/// A human walks on after a step at a speed fixed by whether it is armed: one that
/// holds a gun runs, its velocity a direction of the turn scaled to
/// `human_run_speed`; one without a gun walks, at `human_walk_speed`. It keeps or
/// lacks its gun as before, stays where it is until the move, and its knock-out
/// timer runs down by the step and ends when it runs out.
pub proof fn law_armed_humans_run(l0: Logic, l1: Logic, i: int)
    requires
        crate::logic::humans::humans_step(l0, l1),
        0 <= i < l0.model.humans@.len(),
    ensures
        ({
            let c = l0.model.config();
            let h0 = l0.model.humans@[i];
            let h1 = l1.model.humans@[i];
            let speed: int = if h0.holding_gun is Some { c.human_run_speed as int } else { c.human_walk_speed as int };
            &&& h1.holding_gun == h0.holding_gun
            &&& h1.position == h0.position
            &&& h1.id == h0.id
            &&& h1.death == h0.death
            &&& match h0.knock_out_timer {
                Some(t) => 0 <= l0.delta_time ==> if t <= l0.delta_time {
                    h1.knock_out_timer is None
                } else {
                    h1.knock_out_timer == Some((t - l0.delta_time) as i64)
                },
                None => h1.knock_out_timer is None,
            }
            &&& exists|a: int| 0 <= a <= TURN && h1.velocity == (#[trigger] crate::rotation::direction_at(a)).scale_spec(
                speed,
                crate::geometry::UNIT as int,
            )
        }),
{
    let c = l0.model.config();
    let dt = l0.delta_time;
    let h0 = l0.model.humans@[i];
    let h1 = l1.model.humans@[i];
    assert(crate::logic::humans::steers_to(h0, h1, c, dt));
    let rate = choose|rate: i64| -c.human_turn_speed <= rate <= c.human_turn_speed
        && #[trigger] crate::logic::humans::steered(h0, rate, c, dt) == h1;
    let a = lemma_steered_speed(h0, rate, c, dt);
}

proof fn lemma_steered_speed(h: crate::model::Human, rate: i64, c: Config, dt: Time) -> (a: int)
    ensures
        0 <= a <= TURN,
        ({
            let h1 = crate::logic::humans::steered(h, rate, c, dt);
            let speed: int = if h.holding_gun is Some { c.human_run_speed as int } else { c.human_walk_speed as int };
            &&& h1.holding_gun == h.holding_gun
            &&& h1.position == h.position
            &&& h1.id == h.id
            &&& h1.death == h.death
            &&& h1.knock_out_timer == crate::logic::humans::knock_out_after(h.knock_out_timer, dt)
            &&& h1.velocity == crate::rotation::direction_at(a).scale_spec(speed, crate::geometry::UNIT as int)
        }),
{
    let a = normalize(crate::rotation::arg_spec(h.velocity) + normalize(crate::logic::humans::turn_angle(rate, dt)));
    law_normalize(crate::rotation::arg_spec(h.velocity) + normalize(crate::logic::humans::turn_angle(rate, dt)));
    a
}

/// A gun held by a human sits on its orbit after the move and stands still: at
/// `gun_orbit_radius` from its host along its rotation's direction, or, when it
/// aims at its host, as far on the opposite side.
pub proof fn law_held_gun_orbits(l0: Logic, l1: Logic, i: int, j: int)
    requires
        crate::logic::movement::movement_step(l0, l1),
        l0.model.wf(),
        0 <= i < l0.model.guns@.len(),
        0 <= j < l0.model.humans@.len(),
        l0.model.guns@[i].attached_human == Some(l0.model.humans@[j].id),
    ensures
        ({
            let c = l0.model.config();
            let g0 = l0.model.guns@[i];
            let g1 = l1.model.guns@[i];
            let h = l0.model.humans@[j];
            let u = crate::rotation::direction_at(g0.rotation.angle_spec());
            let r = c.gun_orbit_radius as int;
            &&& g1.velocity == (Vec2 { x: 0, y: 0 })
            &&& g0.aiming_at_host ==> g1.position == h.position.shifted_spec(
                u.scale_spec(-r, crate::geometry::UNIT as int),
                c.arena_size,
            )
            &&& !g0.aiming_at_host ==> g1.position == h.position.shifted_spec(
                u.scale_spec(r, crate::geometry::UNIT as int),
                c.arena_size,
            )
        }),
{
    let m = l0.model;
    let g0 = m.guns@[i];
    let hs = m.humans@;
    let id = g0.attached_human.unwrap().0;
    assert(hs[j].key() == id);
    assert(crate::entity::has_key(hs, id));
    let k = choose|k: int| 0 <= k < hs.len() && #[trigger] hs[k].key() == id;
    assert(keys_distinct(hs));
    assert(k == j);
    assert(l1.model.guns@[i] == crate::logic::movement::moved_gun(g0, hs, m.config(), l0.delta_time));
}

/// A free gun moves by the velocity that it has after the step's friction, over
/// the step's time, and wraps onto the arena; a projectile moves by its velocity.
pub proof fn law_free_things_move(l0: Logic, l1: Logic, i: int, k: int)
    requires
        crate::logic::movement::movement_step(l0, l1),
        0 <= i < l0.model.guns@.len(),
        0 <= k < l0.model.projectiles@.len(),
    ensures
        ({
            let size = l0.model.arena();
            let dt = l0.delta_time;
            let g0 = l0.model.guns@[i];
            let g1 = l1.model.guns@[i];
            let q0 = l0.model.projectiles@[k];
            let q1 = l1.model.projectiles@[k];
            &&& g0.attached_human is None ==> g1.position == g0.position.shifted_spec(
                g1.velocity.scale_spec(dt as int, crate::geometry::MILLIS as int),
                size,
            )
            &&& q1.position == q0.position.shifted_spec(
                q0.velocity.scale_spec(dt as int, crate::geometry::MILLIS as int),
                size,
            )
            &&& q1.velocity == q0.velocity
            &&& g1.id == g0.id
            &&& q1.id == q0.id
        }),
{
    assert(l1.model.guns@[i] == crate::logic::movement::moved_gun(l0.model.guns@[i], l0.model.humans@, l0.model.config(), l0.delta_time));
    assert(l1.model.projectiles@[k] == crate::logic::movement::moved_projectile(l0.model.projectiles@[k], l0.model.arena(), l0.delta_time));
}

/// Aiming a held gun: when the target lies within the orbit of the host the gun
/// aims at the host, turned from its own position towards the target; otherwise
/// it aims around the host, turned from the host towards the target. A gun without
/// a host turns from its own position towards the target.
pub proof fn law_aim_direction(m0: Model, m1: Model, gun_id: Id, target: Position, i: int)
    requires
        aim_done(m0, m1, gun_id, target),
        m0.wf(),
        0 <= i < m0.guns@.len(),
        m0.guns@[i].id == gun_id,
    ensures
        ({
            let c = m0.config();
            let size = c.arena_size;
            let g0 = m0.guns@[i];
            let g1 = m1.guns@[i];
            &&& g1.position == g0.position
            &&& g1.attached_human == g0.attached_human
            &&& g0.attached_human is None ==> !g1.aiming_at_host
                && g1.rotation.angle_spec() == crate::rotation::arg_spec(g0.position.direction_spec(target, size))
            &&& forall|j: int| 0 <= j < m0.humans@.len() && g0.attached_human == Some(#[trigger] m0.humans@[j].id) ==> {
                let h = m0.humans@[j];
                let within = target.direction_spec(h.position, size).len_sq()
                    <= c.gun_orbit_radius * c.gun_orbit_radius;
                &&& within ==> g1.aiming_at_host && g1.rotation.angle_spec() == crate::rotation::arg_spec(
                    g0.position.direction_spec(target, size),
                )
                &&& !within ==> !g1.aiming_at_host && g1.rotation.angle_spec() == crate::rotation::arg_spec(
                    h.position.direction_spec(target, size),
                )
            }
        }),
{
    let c = m0.config();
    let size = c.arena_size;
    let g0 = m0.guns@[i];
    let hs = m0.humans@;
    assert(m1.guns@ == m0.guns@.update(i, aimed_gun(g0, hs, target, c)));
    let a0 = crate::rotation::arg_spec(g0.position.direction_spec(target, size));
    lemma_best_angle_range(g0.position.direction_spec(target, size), TURN as int);
    crate::rotation::Rotation::lemma_from_angle(a0);
    assert forall|j: int| 0 <= j < hs.len() && g0.attached_human == Some(#[trigger] hs[j].id) implies {
        let h = hs[j];
        let within = target.direction_spec(h.position, size).len_sq()
            <= c.gun_orbit_radius * c.gun_orbit_radius;
        &&& within ==> m1.guns@[i].aiming_at_host && m1.guns@[i].rotation.angle_spec() == a0
        &&& !within ==> !m1.guns@[i].aiming_at_host && m1.guns@[i].rotation.angle_spec()
            == crate::rotation::arg_spec(h.position.direction_spec(target, size))
    } by {
        let id = g0.attached_human.unwrap().0;
        assert(hs[j].key() == id);
        assert(crate::entity::has_key(hs, id));
        let k = choose|k: int| 0 <= k < hs.len() && #[trigger] hs[k].key() == id;
        assert(keys_distinct(hs));
        assert(k == j);
        let a1 = crate::rotation::arg_spec(hs[j].position.direction_spec(target, size));
        lemma_best_angle_range(hs[j].position.direction_spec(target, size), TURN as int);
        crate::rotation::Rotation::lemma_from_angle(a1);
    }
}

/// A free gun that runs into a block loses its velocity into the block: along the
/// collision's normal its velocity no longer points into the block, it is the part
/// that pointed into it reversed and scaled by the bounciness (in thousandths,
/// rounded down); across the normal it keeps its velocity. A gun already moving
/// away keeps its velocity. And the gun is pushed out of the block (where the
/// arena is wider than the two). This holds at each block the gun meets, in turn.
pub proof fn law_gun_bounces_off_blocks(g: crate::model::Gun, bs: Seq<crate::model::Block>, size: Vec2, bounciness: i64, k: int)
    requires
        0 <= k < bs.len(),
        0 <= bounciness <= crate::config::FACTOR_LIMIT,
    ensures
        ({
            let g0 = crate::logic::collisions::gun_blocks(g, bs, size, bounciness, k);
            let g1 = crate::logic::collisions::gun_blocks(g, bs, size, bounciness, k + 1);
            match bs[k].collider.collision_spec(g0.collider, bs[k].position.direction_spec(g0.position, size)) {
                Some(c) => {
                    let d = g0.velocity.dot_spec(c.normal);
                    let d1 = g1.velocity.dot_spec(c.normal);
                    &&& d < 0 ==> d1 >= 0
                    &&& d < 0 && -crate::config::LENGTH_LIMIT <= d ==> d1 == (-d * bounciness) / (crate::geometry::UNIT as int)
                    &&& d < 0 && -crate::config::LENGTH_LIMIT <= d ==> (if c.normal.x == 0 {
                        g1.velocity.x == g0.velocity.x
                    } else {
                        g1.velocity.y == g0.velocity.y
                    })
                    &&& d >= 0 ==> g1.velocity == g0.velocity
                    &&& valid_size(size)
                        && 2 * (bs[k].collider.size().x + g0.collider.size().x) + 8 < size.x
                        && 2 * (bs[k].collider.size().y + g0.collider.size().y) + 8 < size.y
                        ==> !bs[k].collider.overlaps(g1.collider, bs[k].position.direction_spec(g1.position, size))
                },
                None => g1 == g0,
            }
        }),
{
    let g0 = crate::logic::collisions::gun_blocks(g, bs, size, bounciness, k);
    let g1 = crate::logic::collisions::gun_blocks(g, bs, size, bounciness, k + 1);
    assert(g1 == crate::logic::collisions::gun_block_step(g0, bs[k], size, bounciness));
    match bs[k].collider.collision_spec(g0.collider, bs[k].position.direction_spec(g0.position, size)) {
        Some(c) => {
            let v = g0.velocity;
            let n = c.normal;
            let d = v.dot_spec(n);
            let f = crate::logic::collisions::bounce(v, n, bounciness);
            assert(n.x * 0 == 0 && n.y * 0 == 0);
            if d < 0 {
                let e: int = -d;
                let q: int = (e * bounciness) / 1000;
                assert(e * (1000 + bounciness) == e * bounciness + e * 1000) by (nonlinear_arith);
                assert(e * bounciness >= 0) by (nonlinear_arith) requires e > 0, bounciness >= 0;
                vstd::arithmetic::div_mod::lemma_hoist_over_denominator(e * bounciness, e, 1000);
                assert(d * (1000 + bounciness) == -(e * (1000 + bounciness))) by (nonlinear_arith) requires e == -d;
                assert(f == -(e + q));
                assert(q >= 0);
                if e <= crate::config::LENGTH_LIMIT {
                    assert(e * bounciness <= 0x100_0000_0000 * 0x4000_0000) by (nonlinear_arith)
                        requires 0 < e <= 0x100_0000_0000, 0 <= bounciness <= 0x4000_0000;
                }
                let v1 = g1.velocity;
                assert(v1 == crate::logic::collisions::less_along(v, n, f));
                if n.x == 1 {
                    assert(n.y == 0);
                    assert(d == v.x) by (nonlinear_arith) requires d == v.x * n.x + v.y * n.y, n.x == 1, n.y == 0;
                    assert(v1.x == sat(q));
                    assert(v1.y == v.y);
                    assert(v1.dot_spec(n) == v1.x) by (nonlinear_arith) requires n.x == 1, n.y == 0;
                } else if n.x == -1 {
                    assert(n.y == 0);
                    assert(d == -v.x) by (nonlinear_arith) requires d == v.x * n.x + v.y * n.y, n.x == -1, n.y == 0;
                    assert(v1.x == sat(-q));
                    assert(v1.y == v.y);
                    assert(v1.dot_spec(n) == -v1.x) by (nonlinear_arith) requires n.x == -1, n.y == 0;
                } else if n.y == 1 {
                    assert(n.x == 0);
                    assert(d == v.y) by (nonlinear_arith) requires d == v.x * n.x + v.y * n.y, n.y == 1, n.x == 0;
                    assert(v1.y == sat(q));
                    assert(v1.x == v.x);
                    assert(v1.dot_spec(n) == v1.y) by (nonlinear_arith) requires n.y == 1, n.x == 0;
                } else {
                    assert(n.y == -1 && n.x == 0);
                    assert(d == -v.y) by (nonlinear_arith) requires d == v.x * n.x + v.y * n.y, n.y == -1, n.x == 0;
                    assert(v1.y == sat(-q));
                    assert(v1.x == v.x);
                    assert(v1.dot_spec(n) == -v1.y) by (nonlinear_arith) requires n.y == -1, n.x == 0;
                }
            } else {
                assert(f == 0);
                assert(n.x * f == 0 && n.y * f == 0);
            }
            let b = bs[k];
            let sb = b.collider.size();
            let sg = g0.collider.size();
            if valid_size(size) && 2 * (sb.x + sg.x) + 8 < size.x && 2 * (sb.y + sg.y) + 8 < size.y {
                let dd = b.position.direction_spec(g0.position, size);
                let d1 = b.position.direction_spec(g1.position, size);
                let px = b.collider.overlap2_x(g0.collider, dd);
                let py = b.collider.overlap2_y(g0.collider, dd);
                let push = crate::logic::collisions::full_push(c);
                assert(g1.position == g0.position.shifted_spec(push, size));
                if px < py {
                    assert(c.penetration == (px + 1) / 2);
                    let h = n.x * c.penetration;
                    assert(push.x == h);
                    if dd.x > 0 { assert(h == c.penetration); } else { assert(h == -c.penetration); }
                    lemma_shortest_push(g0.position.x as int, b.position.x as int, h, size.x as int);
                    assert(d1.x == dd.x + h);
                } else {
                    assert(c.penetration == (py + 1) / 2);
                    let h = n.y * c.penetration;
                    assert(push.y == h);
                    if dd.y > 0 { assert(h == c.penetration); } else { assert(h == -c.penetration); }
                    lemma_shortest_push(g0.position.y as int, b.position.y as int, h, size.y as int);
                    assert(d1.y == dd.y + h);
                }
            }
        },
        None => {},
    }
}

/// An offset already within half the arena is its own shortest form.
proof fn lemma_shortest_small(z: int, m: int)
    requires
        m > 0,
        -m < 2 * z <= m,
    ensures
        crate::geometry::shortest(z, m) == z,
{
    if z >= 0 {
        vstd::arithmetic::div_mod::lemma_small_mod(z as nat, m as nat);
    } else {
        vstd::arithmetic::div_mod::lemma_mod_multiples_vanish(1, z, m);
        vstd::arithmetic::div_mod::lemma_small_mod((z + m) as nat, m as nat);
    }
}

/// Moving a point by `h` along an axis lengthens its shortest offset from another
/// point by `h`, as long as it stays within half the arena.
proof fn lemma_shortest_push(u: int, w: int, h: int, m: int)
    requires
        m > 0,
        -m < 2 * (crate::geometry::shortest(u - w, m) + h) <= m,
    ensures
        crate::geometry::shortest(crate::geometry::wrap(u + h, m) - w, m) == crate::geometry::shortest(u - w, m) + h,
{
    let d0 = crate::geometry::shortest(u - w, m);
    let z = d0 + h;
    vstd::arithmetic::div_mod::lemma_fundamental_div_mod(u - w, m);
    vstd::arithmetic::div_mod::lemma_fundamental_div_mod(u + h, m);
    let q0 = (u - w) / m;
    let q1 = (u + h) / m;
    let e: int = if d0 == (u - w) % m { 0 } else { 1 };
    let k = q0 - q1 + e;
    let diff = crate::geometry::wrap(u + h, m) - w;
    assert(d0 == (u - w) % m - m * e);
    assert(diff == m * k + z) by (nonlinear_arith)
        requires
            diff == (u + h) % m - w,
            u - w == m * q0 + (u - w) % m,
            u + h == m * q1 + (u + h) % m,
            d0 == (u - w) % m - m * e,
            z == d0 + h,
            k == q0 - q1 + e;
    vstd::arithmetic::div_mod::lemma_mod_multiples_vanish(k, z, m);
    lemma_shortest_small(z, m);
}

/// Moving two points `h` apart along an axis, each by half, lengthens the
/// shortest offset between them by `2 * h`, as long as it stays within half the
/// arena.
proof fn lemma_shortest_apart(u: int, w: int, h: int, m: int)
    requires
        m > 0,
        -m < 2 * (crate::geometry::shortest(u - w, m) + 2 * h) <= m,
    ensures
        crate::geometry::shortest(crate::geometry::wrap(u + h, m) - crate::geometry::wrap(w - h, m), m)
            == crate::geometry::shortest(u - w, m) + 2 * h,
{
    let d0 = crate::geometry::shortest(u - w, m);
    let z = d0 + 2 * h;
    vstd::arithmetic::div_mod::lemma_fundamental_div_mod(u - w, m);
    vstd::arithmetic::div_mod::lemma_fundamental_div_mod(u + h, m);
    vstd::arithmetic::div_mod::lemma_fundamental_div_mod(w - h, m);
    let q0 = (u - w) / m;
    let q1 = (u + h) / m;
    let q2 = (w - h) / m;
    let e: int = if d0 == (u - w) % m { 0 } else { 1 };
    let k = q0 - q1 + q2 + e;
    let diff = crate::geometry::wrap(u + h, m) - crate::geometry::wrap(w - h, m);
    assert(d0 == (u - w) % m - m * e);
    assert(diff == m * k + z) by (nonlinear_arith)
        requires
            diff == (u + h) % m - (w - h) % m,
            u - w == m * q0 + (u - w) % m,
            u + h == m * q1 + (u + h) % m,
            w - h == m * q2 + (w - h) % m,
            d0 == (u - w) % m - m * e,
            z == d0 + 2 * h,
            k == q0 - q1 + q2 + e;
    vstd::arithmetic::div_mod::lemma_mod_multiples_vanish(k, z, m);
    lemma_shortest_small(z, m);
}

/// Two overlapping guns pushed apart no longer overlap: the second moves along
/// the collision's normal and the first against it, each by half the penetration
/// rounded up, and they swap their velocities. (The arena must be wider than the
/// guns, so that pushing them apart cannot bring them round the torus.)
pub proof fn law_gun_push_separates(gs: Seq<crate::model::Gun>, i: int, j: int, size: Vec2)
    requires
        valid_size(size),
        0 <= i < gs.len(),
        0 <= j < gs.len(),
        i != j,
        gs[i].collider.collision_spec(gs[j].collider, gs[i].position.direction_spec(gs[j].position, size)) is Some,
        2 * (gs[i].collider.size().x + gs[j].collider.size().x) + 8 < size.x,
        2 * (gs[i].collider.size().y + gs[j].collider.size().y) + 8 < size.y,
    ensures
        ({
            let r = crate::logic::collisions::gun_pair_step(gs, i, j, size);
            &&& !r[i].collider.overlaps(r[j].collider, r[i].position.direction_spec(r[j].position, size))
            &&& r[i].velocity == gs[j].velocity
            &&& r[j].velocity == gs[i].velocity
            &&& r[i].id == gs[i].id
            &&& r[j].id == gs[j].id
        }),
{
    let a = gs[i];
    let b = gs[j];
    let d = a.position.direction_spec(b.position, size);
    let c = a.collider.collision_spec(b.collider, d).unwrap();
    let off = crate::logic::collisions::half_push(c);
    let r = crate::logic::collisions::gun_pair_step(gs, i, j, size);
    let a1 = r[i];
    let b1 = r[j];
    assert(a1.position == a.position.shifted_spec(Vec2 { x: -off.x as i64, y: -off.y as i64 }, size));
    assert(b1.position == b.position.shifted_spec(off, size));
    let sa = a.collider.size();
    let sb = b.collider.size();
    let px = a.collider.overlap2_x(b.collider, d);
    let py = a.collider.overlap2_y(b.collider, d);
    let d1 = a1.position.direction_spec(b1.position, size);
    if px < py {
        let hp = crate::logic::collisions::half_up(c.penetration as int);
        let h = c.normal.x * hp;
        assert(c.penetration == (px + 1) / 2);
        assert(off.x == h);
        if d.x > 0 {
            assert(h == hp);
        } else {
            assert(h == -hp);
        }
        lemma_shortest_apart(b.position.x as int, a.position.x as int, h, size.x as int);
        assert(d1.x == d.x + 2 * h);
    } else {
        let hp = crate::logic::collisions::half_up(c.penetration as int);
        let h = c.normal.y * hp;
        assert(c.penetration == (py + 1) / 2);
        assert(off.y == h);
        if d.y > 0 {
            assert(h == hp);
        } else {
            assert(h == -hp);
        }
        lemma_shortest_apart(b.position.y as int, a.position.y as int, h, size.y as int);
        assert(d1.y == d.y + 2 * h);
    }
}

} // verus!
