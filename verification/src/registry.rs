//! The entity registry: the ordered list of live entity ids, each with its
//! pending-destruction flag. Ids are handed out in increasing order and never
//! handed out twice.

use vstd::prelude::*;

verus! {

/// A live entity: an opaque id and the request to remove it at the next sweep.
#[derive(Clone, Copy, Debug, PartialEq, Eq, Structural)]
pub struct Entity {
    pub id: u64,
    pub pending_destroy: bool,
}

/// The live entities, oldest first, and the next id to hand out.
pub struct Registry {
    pub entities: Vec<Entity>,
    pub next_id: u64,
}

/// The list `s` with every entry of id `id` flagged.
pub open spec fn flagged(s: Seq<Entity>, id: u64) -> Seq<Entity> {
    Seq::new(
        s.len(),
        |i: int| (Entity { id: s[i].id, pending_destroy: s[i].pending_destroy || s[i].id == id }),
    )
}

/// Whether `id` is in the list `s`.
pub open spec fn listed(s: Seq<Entity>, id: u64) -> bool {
    exists|i: int| 0 <= i < s.len() && (#[trigger] s[i]).id == id
}

/// Whether `id` is in the list `s` with its flag set.
pub open spec fn listed_pending(s: Seq<Entity>, id: u64) -> bool {
    exists|i: int| 0 <= i < s.len() && (#[trigger] s[i]).id == id && s[i].pending_destroy
}

/// Whether the ids of `s` increase strictly and stay below `bound`.
pub open spec fn ascending(s: Seq<Entity>, bound: u64) -> bool {
    &&& forall|i: int, j: int| 0 <= i < j < s.len() ==> (#[trigger] s[i]).id < (#[trigger] s[j]).id
    &&& forall|i: int| 0 <= i < s.len() ==> (#[trigger] s[i]).id < bound
}

/// Whether two lists hold the same ids in the same order.
pub open spec fn same_ids(a: Seq<Entity>, b: Seq<Entity>) -> bool {
    &&& a.len() == b.len()
    &&& forall|i: int| 0 <= i < a.len() ==> (#[trigger] a[i]).id == b[i].id
}

impl View for Registry {
    type V = Seq<Entity>;

    open spec fn view(&self) -> Seq<Entity> {
        self.entities@
    }
}

impl Registry {
    /// The registry's invariant: ids increase along the list and are all
    /// below the next id to hand out.
    pub open spec fn wf(&self) -> bool {
        ascending(self@, self.next_id)
    }

    /// Whether `id` is live.
    pub open spec fn is_live(&self, id: u64) -> bool {
        listed(self@, id)
    }

    /// Whether `id` is live and flagged for destruction.
    pub open spec fn is_pending(&self, id: u64) -> bool {
        listed_pending(self@, id)
    }

    /// An empty registry, whose first id will be 1.
    pub fn new() -> (r: Self)
        ensures
            r@ == Seq::<Entity>::empty(),
            r.next_id == 1,
            r.wf(),
    {
        Registry { entities: Vec::new(), next_id: 1 }
    }

    /// Allocates a fresh id and registers it as live and unflagged, after all
    /// the others.
    pub fn create(&mut self) -> (id: u64)
        requires
            old(self).next_id < u64::MAX,
        ensures
            id == old(self).next_id,
            final(self).next_id == old(self).next_id + 1,
            final(self)@ == old(self)@.push(Entity { id, pending_destroy: false }),
            old(self).wf() ==> final(self).wf() && !old(self).is_live(id),
            final(self).is_live(id),
    {
        let id: u64 = self.next_id;
        self.next_id = id + 1;
        self.entities.push(Entity { id, pending_destroy: false });
        assert(self@[self@.len() - 1].id == id);
        id
    }

    /// The number of live entities.
    pub fn len(&self) -> (n: usize)
        ensures
            n == self@.len(),
    {
        self.entities.len()
    }

    /// The live entity at place `i` of the list.
    pub fn entity(&self, i: usize) -> (e: Entity)
        requires
            i < self@.len(),
        ensures
            e == self@[i as int],
    {
        self.entities[i]
    }

    /// Requests the destruction of `id`. Flags are only ever set here, so the
    /// call is idempotent; an id that is not live is left alone.
    pub fn flag_destroy(&mut self, id: u64)
        ensures
            final(self)@ == flagged(old(self)@, id),
            final(self).next_id == old(self).next_id,
    {
        let n: usize = self.entities.len();
        let mut i: usize = 0;
        while i < n
            invariant
                i <= n,
                n == self@.len(),
                self@.len() == old(self)@.len(),
                self.next_id == old(self).next_id,
                forall|k: int| 0 <= k < i ==> self@[k] == flagged(old(self)@, id)[k],
                forall|k: int| i <= k < n ==> self@[k] == old(self)@[k],
            decreases n - i,
        {
            let e: Entity = self.entities[i];
            if e.id == id {
                self.entities.set(i, Entity { id: e.id, pending_destroy: true });
            }
            i += 1;
        }
        assert(self@ =~= flagged(old(self)@, id));
    }

    /// Whether `id` is live.
    pub fn contains(&self, id: u64) -> (b: bool)
        ensures
            b == self.is_live(id),
    {
        let n: usize = self.entities.len();
        let mut i: usize = 0;
        while i < n
            invariant
                i <= n,
                n == self@.len(),
                forall|k: int| 0 <= k < i ==> (#[trigger] self@[k]).id != id,
            decreases n - i,
        {
            if self.entities[i].id == id {
                return true;
            }
            i += 1;
        }
        false
    }

    /// Whether `id` is live and flagged for destruction.
    pub fn flagged_for_destroy(&self, id: u64) -> (b: bool)
        ensures
            b == self.is_pending(id),
    {
        let n: usize = self.entities.len();
        let mut i: usize = 0;
        while i < n
            invariant
                i <= n,
                n == self@.len(),
                forall|k: int|
                    0 <= k < i ==> !((#[trigger] self@[k]).id == id && self@[k].pending_destroy),
            decreases n - i,
        {
            let e: Entity = self.entities[i];
            if e.id == id && e.pending_destroy {
                return true;
            }
            i += 1;
        }
        false
    }

    /// Forgets every entity. Ids still go on from where they were.
    pub fn clear(&mut self)
        ensures
            final(self)@ == Seq::<Entity>::empty(),
            final(self).next_id == old(self).next_id,
            final(self).wf(),
    {
        self.entities.clear();
    }
}

/// Flagging keeps the ids, their order, and every flag that was set.
pub proof fn lemma_flagged_keeps(s: Seq<Entity>, id: u64)
    ensures
        same_ids(s, flagged(s, id)),
        forall|b: u64| ascending(s, b) ==> ascending(flagged(s, id), b),
        forall|other: u64| listed(s, other) == listed(flagged(s, id), other),
        forall|other: u64| listed_pending(s, other) ==> listed_pending(flagged(s, id), other),
        listed(s, id) ==> listed_pending(flagged(s, id), id),
{
    let f = flagged(s, id);
    assert forall|other: u64| listed(s, other) == listed(f, other) by {
        if listed(s, other) {
            let i = choose|i: int| 0 <= i < s.len() && (#[trigger] s[i]).id == other;
            assert(f[i].id == other);
        }
        if listed(f, other) {
            let i = choose|i: int| 0 <= i < f.len() && (#[trigger] f[i]).id == other;
            assert(s[i].id == other);
        }
    }
    assert forall|other: u64| listed_pending(s, other) implies listed_pending(f, other) by {
        let i = choose|i: int|
            0 <= i < s.len() && (#[trigger] s[i]).id == other && s[i].pending_destroy;
        assert(f[i].id == other && f[i].pending_destroy);
    }
    if listed(s, id) {
        let i = choose|i: int| 0 <= i < s.len() && (#[trigger] s[i]).id == id;
        assert(f[i].id == id && f[i].pending_destroy);
    }
    assert forall|b: u64| ascending(s, b) implies ascending(f, b) by {
        assert forall|i: int, j: int| 0 <= i < j < f.len() implies (#[trigger] f[i]).id < (
        #[trigger] f[j]).id by {
            assert(s[i].id < s[j].id);
        }
        assert forall|i: int| 0 <= i < f.len() implies (#[trigger] f[i]).id < b by {
            assert(s[i].id < b);
        }
    }
}

/// Flagging twice is flagging once, and flags commute.
pub proof fn lemma_flag_idempotent(s: Seq<Entity>, a: u64, b: u64)
    ensures
        flagged(flagged(s, a), a) == flagged(s, a),
        flagged(flagged(s, a), b) == flagged(flagged(s, b), a),
{
    assert(flagged(flagged(s, a), a) =~= flagged(s, a));
    assert(flagged(flagged(s, a), b) =~= flagged(flagged(s, b), a));
}


/// A list in which every id exceeds the one before it has increasing ids.
pub proof fn lemma_steps_ascend(s: Seq<Entity>)
    requires
        forall|k: int| 0 < k < s.len() ==> s[k - 1].id < (#[trigger] s[k]).id,
    ensures
        forall|i: int, j: int| 0 <= i < j < s.len() ==> (#[trigger] s[i]).id < (#[trigger] s[j]).id,
{
    assert forall|i: int, j: int| 0 <= i < j < s.len() implies (#[trigger] s[i]).id < (
    #[trigger] s[j]).id by {
        lemma_step_chain(s, i, j);
    }
}

/// One chain of steps, from place `i` up to place `j`.
pub proof fn lemma_step_chain(s: Seq<Entity>, i: int, j: int)
    requires
        forall|k: int| 0 < k < s.len() ==> s[k - 1].id < (#[trigger] s[k]).id,
        0 <= i < j < s.len(),
    ensures
        s[i].id < s[j].id,
    decreases j - i,
{
    if i + 1 < j {
        lemma_step_chain(s, i, j - 1);
    }
    assert(s[j - 1].id < s[j].id);
}


/// Every list has the ids that it has.
pub proof fn lemma_same_ids_refl(s: Seq<Entity>)
    ensures
        same_ids(s, s),
{
}

} // verus!
