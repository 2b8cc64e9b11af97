use vstd::prelude::*;

verus! {

/// Identifies an entity (human, gun, projectile or block) of the model.
#[derive(Clone, Copy, Debug, PartialEq, Eq, Structural, PartialOrd, Ord, Hash)]
pub struct Id(pub u64);

/// Identifies a connected player.
#[derive(Clone, Copy, Debug, PartialEq, Eq, Structural, PartialOrd, Ord, Hash)]
pub struct PlayerId(pub u64);

/// Hands out identifiers, each one greater than all those before it.
#[derive(Clone, Copy, Debug, PartialEq, Eq, Structural)]
pub struct IdGen {
    pub next_id: Id,
}

impl IdGen {
    /// The number that the next identifier will carry.
    pub open spec fn next_spec(self) -> u64 {
        self.next_id.0
    }

    /// A generator that starts at zero.
    pub fn new() -> (g: IdGen)
        ensures
            g.next_spec() == 0,
    {
        IdGen { next_id: Id(0) }
    }

    /// The next identifier, for a player.
    pub fn next_player(&mut self) -> (id: PlayerId)
        requires
            old(self).next_spec() < u64::MAX,
        ensures
            id.0 == old(self).next_spec(),
            final(self).next_spec() == old(self).next_spec() + 1,
    {
        let Id(id) = self.next();
        PlayerId(id)
    }

    /// The next identifier, for an entity.
    pub fn next(&mut self) -> (id: Id)
        requires
            old(self).next_spec() < u64::MAX,
        ensures
            id == old(self).next_id,
            final(self).next_spec() == old(self).next_spec() + 1,
    {
        let id: Id = self.next_id;
        self.next_id = Id(self.next_id.0 + 1);
        id
    }
}

impl Default for IdGen {
    fn default() -> (g: IdGen)
        ensures
            g.next_spec() == 0,
    {
        IdGen::new()
    }
}

/// Identifiers handed out one after another by `next` are distinct: the later one
/// is strictly greater.
pub proof fn lemma_next_ids_increase(g0: IdGen, a: Id, g1: IdGen, b: Id, g2: IdGen)
    requires
        g0.next_spec() < u64::MAX,
        a == g0.next_id,
        g1.next_spec() == g0.next_spec() + 1,
        g1.next_spec() <= g2.next_spec(),
        g2.next_spec() < u64::MAX,
        b == g2.next_id,
    ensures
        a.0 < b.0,
        a != b,
{
}

} // verus!
