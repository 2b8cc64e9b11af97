use vstd::prelude::*;

verus! {

/// A value of a collection that carries its own identifier.
pub trait Keyed {
    spec fn key(&self) -> u64;

    fn key_of(&self) -> (r: u64)
        ensures
            r == self.key(),
    ;
}

/// No two items of the collection carry the same identifier.
pub open spec fn keys_distinct<T: Keyed>(s: Seq<T>) -> bool {
    forall|i: int, j: int|
        0 <= i < s.len() && 0 <= j < s.len() && i != j ==> #[trigger] s[i].key() != #[trigger] s[j].key()
}

/// Every identifier of the collection is below `n`.
pub open spec fn keys_below<T: Keyed>(s: Seq<T>, n: u64) -> bool {
    forall|i: int| 0 <= i < s.len() ==> #[trigger] s[i].key() < n
}

/// Some item of the collection carries the identifier `k`.
pub open spec fn has_key<T: Keyed>(s: Seq<T>, k: u64) -> bool {
    exists|i: int| 0 <= i < s.len() && #[trigger] s[i].key() == k
}

/// The position of the item with identifier `k`.
pub fn find<T: Keyed>(v: &Vec<T>, k: u64) -> (r: Option<usize>)
    ensures
        r matches Some(i) ==> i < v@.len() && v@[i as int].key() == k,
        r is None ==> !has_key(v@, k),
        r is None <==> !has_key(v@, k),
{
    let mut i: usize = 0;
    while i < v.len()
        invariant
            i <= v@.len(),
            forall|j: int| 0 <= j < i ==> #[trigger] v@[j].key() != k,
        decreases v@.len() - i,
    {
        if v[i].key_of() == k {
            return Some(i);
        }
        i = i + 1;
    }
    None
}

/// In a collection with distinct identifiers, an item is found at its own position.
pub proof fn lemma_key_index<T: Keyed>(s: Seq<T>, i: int, j: int)
    requires
        keys_distinct(s),
        0 <= i < s.len(),
        0 <= j < s.len(),
        s[i].key() == s[j].key(),
    ensures
        i == j,
{
}


/// A value that a collection keeps only while it is alive.
pub trait Mortal {
    spec fn alive(&self) -> bool;

    fn is_alive(&self) -> (r: bool)
        ensures
            r == self.alive(),
    ;
}

pub open spec fn alive_pred<T: Mortal>() -> spec_fn(T) -> bool {
    |x: T| x.alive()
}

/// Keeps the items that are alive, in their order.
pub fn retain_alive<T: Mortal + Copy>(v: &mut Vec<T>)
    ensures
        final(v)@ == old(v)@.filter(alive_pred::<T>()),
{
    let mut kept: Vec<T> = Vec::new();
    let mut i: usize = 0;
    while i < v.len()
        invariant
            i <= v@.len(),
            v@ == old(v)@,
            kept@ == v@.take(i as int).filter(alive_pred::<T>()),
        decreases v@.len() - i,
    {
        let x: T = v[i];
        proof {
            assert(v@.take(i as int + 1) =~= v@.take(i as int).push(x));
            v@.take(i as int).lemma_filter_push(x, alive_pred::<T>());
        }
        if x.is_alive() {
            kept.push(x);
        }
        i = i + 1;
    }
    proof {
        assert(v@.take(v@.len() as int) =~= v@);
    }
    *v = kept;
}

/// Every item that a filter keeps comes from the filtered sequence and passes the
/// predicate.
pub proof fn lemma_filter_from<T>(s: Seq<T>, p: spec_fn(T) -> bool)
    ensures
        forall|k: int|
            0 <= k < s.filter(p).len() ==> exists|i: int|
                0 <= i < s.len() && #[trigger] s.filter(p)[k] == #[trigger] s[i] && p(s[i]),
    decreases s.len(),
{
    reveal(Seq::filter);
    if s.len() > 0 {
        let d = s.drop_last();
        lemma_filter_from(d, p);
        assert forall|k: int| 0 <= k < s.filter(p).len() implies exists|i: int|
            0 <= i < s.len() && #[trigger] s.filter(p)[k] == #[trigger] s[i] && p(s[i]) by {
            if k < d.filter(p).len() {
                let i = choose|i: int| 0 <= i < d.len() && d.filter(p)[k] == d[i] && p(d[i]);
                assert(s[i] == d[i]);
            } else {
                assert(s.filter(p)[k] == s.last());
                assert(s[s.len() - 1] == s.last());
            }
        }
    }
}

/// Every item that passes the predicate is kept by the filter.
pub proof fn lemma_filter_keeps<T>(s: Seq<T>, p: spec_fn(T) -> bool, i: int)
    requires
        0 <= i < s.len(),
        p(s[i]),
    ensures
        s.filter(p).contains(s[i]),
{
    s.lemma_filter_contains(p, i);
}

/// Filtering keeps identifiers distinct.
pub proof fn lemma_filter_distinct<T: Keyed>(s: Seq<T>, p: spec_fn(T) -> bool)
    requires
        keys_distinct(s),
    ensures
        keys_distinct(s.filter(p)),
    decreases s.len(),
{
    reveal(Seq::filter);
    if s.len() > 0 {
        let d = s.drop_last();
        assert(keys_distinct(d)) by {
            assert forall|i: int, j: int|
                0 <= i < d.len() && 0 <= j < d.len() && i != j implies #[trigger] d[i].key()
                != #[trigger] d[j].key() by {
                assert(d[i] == s[i] && d[j] == s[j]);
            }
        }
        lemma_filter_distinct(d, p);
        lemma_filter_from(d, p);
        let f = d.filter(p);
        if p(s.last()) {
            let g = f.push(s.last());
            assert forall|i: int, j: int|
                0 <= i < g.len() && 0 <= j < g.len() && i != j implies #[trigger] g[i].key()
                != #[trigger] g[j].key() by {
                if i < f.len() && j < f.len() {
                    assert(g[i] == f[i] && g[j] == f[j]);
                } else if i < f.len() {
                    let a = choose|a: int| 0 <= a < d.len() && f[i] == d[a] && p(d[a]);
                    assert(d[a] == s[a]);
                    assert(g[j] == s[s.len() - 1]);
                } else {
                    let a = choose|a: int| 0 <= a < d.len() && f[j] == d[a] && p(d[a]);
                    assert(d[a] == s[a]);
                    assert(g[i] == s[s.len() - 1]);
                }
            }
        }
    }
}

/// Filtering keeps identifiers below a bound.
pub proof fn lemma_filter_below<T: Keyed>(s: Seq<T>, p: spec_fn(T) -> bool, n: u64)
    requires
        keys_below(s, n),
    ensures
        keys_below(s.filter(p), n),
{
    lemma_filter_from(s, p);
    assert forall|k: int| 0 <= k < s.filter(p).len() implies #[trigger] s.filter(p)[k].key() < n by {
        let i = choose|i: int| 0 <= i < s.len() && s.filter(p)[k] == s[i] && p(s[i]);
    }
}


/// `j` is the first index below `n` that satisfies `p`.
pub open spec fn is_first(p: spec_fn(int) -> bool, n: int, j: int) -> bool {
    0 <= j < n && p(j) && forall|k: int| 0 <= k < j ==> !#[trigger] p(k)
}

/// The first index below `n` that satisfies `p`, or `-1` when there is none.
pub open spec fn first_index(p: spec_fn(int) -> bool, n: int) -> int {
    if exists|j: int| #[trigger] is_first(p, n, j) {
        choose|j: int| #[trigger] is_first(p, n, j)
    } else {
        -1
    }
}

/// The first index lies below `n`, or is `-1`, and is the first when it is not.
pub proof fn lemma_first_index_range(p: spec_fn(int) -> bool, n: int)
    requires
        n >= 0,
    ensures
        -1 <= first_index(p, n) < n,
        first_index(p, n) >= 0 ==> is_first(p, n, first_index(p, n)),
{
    if exists|j: int| #[trigger] is_first(p, n, j) {
        let c = choose|j: int| #[trigger] is_first(p, n, j);
        assert(is_first(p, n, c));
    }
}

/// The first index is the one that is first.
pub proof fn lemma_first_index_is(p: spec_fn(int) -> bool, n: int, j: int)
    requires
        is_first(p, n, j),
    ensures
        first_index(p, n) == j,
{
    let c = choose|j: int| #[trigger] is_first(p, n, j);
    assert(is_first(p, n, c));
    if c < j {
        assert(!p(c));
    } else if j < c {
        assert(!p(j));
    }
}

/// With no index that satisfies `p`, the first index is `-1`.
pub proof fn lemma_first_index_none(p: spec_fn(int) -> bool, n: int)
    requires
        forall|k: int| 0 <= k < n ==> !#[trigger] p(k),
    ensures
        first_index(p, n) == -1,
{
    if exists|j: int| #[trigger] is_first(p, n, j) {
        let c = choose|j: int| #[trigger] is_first(p, n, j);
        assert(p(c));
    }
}

} // verus!
