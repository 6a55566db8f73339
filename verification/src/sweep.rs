//! The destruction sweep: the one place where entities and components are
//! removed. It runs once, at the end of a tick, over every entity that was
//! flagged during it.

use crate::components::{ColliderSource, Reaction};
use crate::model::WorldView;
use crate::registry::{ascending, listed_pending, Entity};
use crate::world::World;
use vstd::prelude::*;

verus! {

/// The first `k` entries of `list` that are not `id`, in their order.
pub open spec fn without(list: Seq<u64>, id: u64, k: nat) -> Seq<u64>
    decreases k,
{
    if k == 0 {
        Seq::<u64>::empty()
    } else if list[k - 1] == id {
        without(list, id, (k - 1) as nat)
    } else {
        without(list, id, (k - 1) as nat).push(list[k - 1])
    }
}

/// The unflagged among the first `n` entities, in their order.
pub open spec fn kept(entities: Seq<Entity>, n: nat) -> Seq<Entity>
    decreases n,
{
    if n == 0 {
        Seq::<Entity>::empty()
    } else if entities[n - 1].pending_destroy {
        kept(entities, (n - 1) as nat)
    } else {
        kept(entities, (n - 1) as nat).push(entities[n - 1])
    }
}

/// Whether reaping `id` from `w` opens the portal: no lock is left once `id`
/// is off the lock list, and there is a portal with a collider.
pub open spec fn opens_portal(w: WorldView, id: u64) -> bool {
    &&& without(w.locks, id, w.locks.len()).len() == 0
    &&& w.portal.is_some()
    &&& w.colliders.contains_key(w.portal.unwrap())
}

/// The colliders of `w` with the portal's reaction set to the trigger.
pub open spec fn triggered(w: WorldView) -> Map<u64, ColliderSource> {
    w.colliders.insert(
        w.portal.unwrap(),
        ColliderSource { reaction: Reaction::PortalTrigger, ..w.colliders[w.portal.unwrap()] },
    )
}

/// The state after `id` was reaped: it is no longer the player nor a lock,
/// the portal opens if that was the last lock, and no store holds anything
/// for `id`. The registry is dealt with by the sweep as a whole.
pub open spec fn reaped(w: WorldView, id: u64) -> WorldView {
    let opens = opens_portal(w, id);
    WorldView {
        entities: w.entities,
        next_id: w.next_id,
        positions: w.positions.remove(id),
        gravities: w.gravities.remove(id),
        dynamics: w.dynamics.remove(id),
        colliders: (if opens {
            triggered(w)
        } else {
            w.colliders
        }).remove(id),
        targets: w.targets.remove(id),
        trails: w.trails.remove(id),
        predictables: w.predictables.remove(id),
        ships: w.ships.remove(id),
        explosions: w.explosions.remove(id),
        rockets: w.rockets.remove(id),
        turrets: w.turrets.remove(id),
        locks: without(w.locks, id, w.locks.len()),
        portal: w.portal,
        portal_open: w.portal_open || opens,
        turret_clock: w.turret_clock,
        player: if w.player == Some(id) {
            None
        } else {
            w.player
        },
        finished: w.finished,
    }
}

/// The state after the flagged among the first `n` entities were reaped, in
/// their order.
pub open spec fn reaping(w: WorldView, n: nat) -> WorldView
    decreases n,
{
    if n == 0 {
        w
    } else if w.entities[n - 1].pending_destroy {
        reaped(reaping(w, (n - 1) as nat), w.entities[n - 1].id)
    } else {
        reaping(w, (n - 1) as nat)
    }
}

/// The state after the sweep: every flagged entity is reaped and off the
/// registry; the others stay, in their order.
pub open spec fn swept(w: WorldView) -> WorldView {
    WorldView { entities: kept(w.entities, w.entities.len()), ..reaping(w, w.entities.len()) }
}

/// Whether one of the first `n` entities has the id `id` and is flagged.
pub open spec fn doomed(entities: Seq<Entity>, n: nat, id: u64) -> bool {
    exists|j: int| 0 <= j < n && (#[trigger] entities[j]).id == id && entities[j].pending_destroy
}

/// What is left of a lock list holds no `id`, and holds every other entry
/// that it held.
pub proof fn lemma_without(list: Seq<u64>, id: u64, k: nat)
    requires
        k <= list.len(),
    ensures
        without(list, id, k).len() <= k,
        forall|x: u64| without(list, id, k).contains(x) <==> x != id && exists|j: int|
            0 <= j < k && #[trigger] list[j] == x,
    decreases k,
{
    if k > 0 {
        lemma_without(list, id, (k - 1) as nat);
        let prev = without(list, id, (k - 1) as nat);
        let cur = without(list, id, k);
        assert forall|x: u64| cur.contains(x) <==> x != id && exists|j: int|
            0 <= j < k && #[trigger] list[j] == x by {
            if cur.contains(x) {
                let i = choose|i: int| 0 <= i < cur.len() && cur[i] == x;
                if list[k - 1] != id && i == cur.len() - 1 {
                    assert(list[k - 1] == x);
                } else {
                    assert(prev[i] == x);
                    assert(prev.contains(x));
                }
            }
            if x != id && exists|j: int| 0 <= j < k && #[trigger] list[j] == x {
                let j = choose|j: int| 0 <= j < k && #[trigger] list[j] == x;
                if j == k - 1 {
                    assert(cur[cur.len() - 1] == x);
                } else {
                    assert(prev.contains(x));
                    let i = choose|i: int| 0 <= i < prev.len() && prev[i] == x;
                    assert(cur[i] == x);
                }
            }
        }
    }
}

/// The survivors are the unflagged entities: none of them is flagged, each
/// was there before, and each unflagged one is among them. Their ids still
/// increase.
pub proof fn lemma_kept(entities: Seq<Entity>, n: nat, bound: u64)
    requires
        n <= entities.len(),
    ensures
        kept(entities, n).len() <= n,
        forall|i: int|
            0 <= i < kept(entities, n).len() ==> !(#[trigger] kept(entities, n)[i]).pending_destroy
                && exists|j: int| 0 <= j < n && entities[j] == kept(entities, n)[i],
        forall|j: int|
            0 <= j < n && !(#[trigger] entities[j]).pending_destroy ==> kept(entities, n).contains(
                entities[j],
            ),
        ascending(entities, bound) ==> ascending(kept(entities, n), bound),
    decreases n,
{
    if n > 0 {
        lemma_kept(entities, (n - 1) as nat, bound);
        let prev = kept(entities, (n - 1) as nat);
        let cur = kept(entities, n);
        let last = entities[n - 1];
        assert forall|i: int| 0 <= i < cur.len() implies !(#[trigger] cur[i]).pending_destroy
            && exists|j: int| 0 <= j < n && entities[j] == cur[i] by {
            if i < prev.len() {
                assert(cur[i] == prev[i]);
                let j = choose|j: int| 0 <= j < n - 1 && entities[j] == prev[i];
                assert(entities[j] == cur[i]);
            } else {
                assert(entities[n - 1] == cur[i]);
            }
        }
        assert forall|j: int| 0 <= j < n && !(#[trigger] entities[j]).pending_destroy implies cur
            .contains(entities[j]) by {
            if j < n - 1 {
                assert(prev.contains(entities[j]));
                let i = choose|i: int| 0 <= i < prev.len() && prev[i] == entities[j];
                assert(cur[i] == entities[j]);
            } else {
                assert(cur[cur.len() - 1] == entities[j]);
            }
        }
        if ascending(entities, bound) {
            assert forall|a: int, b: int| 0 <= a < b < cur.len() implies (#[trigger] cur[a]).id < (
            #[trigger] cur[b]).id by {
                if b < prev.len() {
                    assert(prev[a].id < prev[b].id);
                } else {
                    let j = choose|j: int| 0 <= j < n - 1 && entities[j] == prev[a];
                    assert(entities[j].id < entities[n - 1].id);
                }
            }
            assert forall|a: int| 0 <= a < cur.len() implies (#[trigger] cur[a]).id < bound by {
                let j = choose|j: int| 0 <= j < n && entities[j] == cur[a];
                assert(entities[j].id < bound);
            }
        }
    }
}

/// After reaping, a store holds something for an id exactly if it did before
/// and the id was not reaped, and what it holds is what it held; only the
/// portal's collider may have changed. This is deferred destruction seen
/// from its end: whatever was flagged is absent everywhere.
pub proof fn lemma_reaping_stores(w: WorldView, n: nat, id: u64)
    requires
        n <= w.entities.len(),
    ensures
        ({
            let r = reaping(w, n);
            let gone = doomed(w.entities, n, id);
            &&& r.entities == w.entities
            &&& r.next_id == w.next_id
            &&& r.portal == w.portal
            &&& r.positions.contains_key(id) == (w.positions.contains_key(id) && !gone)
            &&& r.gravities.contains_key(id) == (w.gravities.contains_key(id) && !gone)
            &&& r.dynamics.contains_key(id) == (w.dynamics.contains_key(id) && !gone)
            &&& r.colliders.contains_key(id) == (w.colliders.contains_key(id) && !gone)
            &&& r.targets.contains_key(id) == (w.targets.contains_key(id) && !gone)
            &&& r.trails.contains_key(id) == (w.trails.contains_key(id) && !gone)
            &&& r.predictables.contains_key(id) == (w.predictables.contains_key(id) && !gone)
            &&& r.ships.contains_key(id) == (w.ships.contains_key(id) && !gone)
            &&& r.explosions.contains_key(id) == (w.explosions.contains_key(id) && !gone)
            &&& r.rockets.contains_key(id) == (w.rockets.contains_key(id) && !gone)
            &&& r.turrets.contains_key(id) == (w.turrets.contains_key(id) && !gone)
            &&& r.positions.contains_key(id) ==> r.positions[id] == w.positions[id]
            &&& r.gravities.contains_key(id) ==> r.gravities[id] == w.gravities[id]
            &&& r.dynamics.contains_key(id) ==> r.dynamics[id] == w.dynamics[id]
            &&& r.colliders.contains_key(id) && w.portal != Some(id) ==> r.colliders[id]
                == w.colliders[id]
            &&& r.targets.contains_key(id) ==> r.targets[id] == w.targets[id]
            &&& r.trails.contains_key(id) ==> r.trails[id] == w.trails[id]
            &&& r.predictables.contains_key(id) ==> r.predictables[id] == w.predictables[id]
            &&& r.ships.contains_key(id) ==> r.ships[id] == w.ships[id]
            &&& r.explosions.contains_key(id) ==> r.explosions[id] == w.explosions[id]
            &&& r.rockets.contains_key(id) ==> r.rockets[id] == w.rockets[id]
            &&& r.turrets.contains_key(id) ==> r.turrets[id] == w.turrets[id]
        }),
    decreases n,
{
    if n > 0 {
        lemma_reaping_stores(w, (n - 1) as nat, id);
        let e = w.entities[n - 1];
        if doomed(w.entities, (n - 1) as nat, id) {
            let j = choose|j: int|
                0 <= j < n - 1 && (#[trigger] w.entities[j]).id == id
                    && w.entities[j].pending_destroy;
            assert(w.entities[j].id == id && w.entities[j].pending_destroy);
        }
        if e.pending_destroy && e.id == id {
            assert(w.entities[n - 1].id == id && w.entities[n - 1].pending_destroy);
        }
        if doomed(w.entities, n, id) && !doomed(w.entities, (n - 1) as nat, id) {
            let j = choose|j: int|
                0 <= j < n && (#[trigger] w.entities[j]).id == id && w.entities[j].pending_destroy;
            assert(j == n - 1);
        }
    }
}

/// The sweep keeps the invariant.
pub proof fn lemma_swept_wf(w: WorldView)
    requires
        w.wf(),
    ensures
        swept(w).wf(),
{
    let n = w.entities.len();
    let s = swept(w);
    lemma_kept(w.entities, n, w.next_id);
    lemma_reaping_stores(w, n, 0);
    assert forall|i: int| 0 <= i < s.entities.len() implies s.grounded(
        (#[trigger] s.entities[i]).id,
    ) by {
        let id = s.entities[i].id;
        let j = choose|j: int| 0 <= j < n && w.entities[j] == s.entities[i];
        assert(w.grounded(w.entities[j].id));
        lemma_reaping_stores(w, n, id);
        if doomed(w.entities, n, id) {
            let k = choose|k: int|
                0 <= k < n && (#[trigger] w.entities[k]).id == id && w.entities[k].pending_destroy;
            if k < j {
                assert(w.entities[k].id < w.entities[j].id);
            } else if j < k {
                assert(w.entities[j].id < w.entities[k].id);
            }
        }
    }
}

/// After the sweep no flagged entity is left in the registry, every
/// unflagged one still is, and nothing is held anywhere for an id that was
/// flagged.
pub proof fn lemma_swept_removes(w: WorldView, id: u64)
    requires
        listed_pending(w.entities, id),
    ensures
        swept(w).absent_everywhere(id),
        forall|i: int|
            0 <= i < swept(w).entities.len() ==> !(#[trigger] swept(w).entities[i]).pending_destroy,
        w.wf() ==> !crate::registry::listed(swept(w).entities, id),
{
    let n = w.entities.len();
    lemma_kept(w.entities, n, w.next_id);
    lemma_reaping_stores(w, n, id);
    let j = choose|j: int|
        0 <= j < n && (#[trigger] w.entities[j]).id == id && w.entities[j].pending_destroy;
    assert(doomed(w.entities, n, id));
    if w.wf() && crate::registry::listed(swept(w).entities, id) {
        let s = swept(w).entities;
        let i = choose|i: int| 0 <= i < s.len() && (#[trigger] s[i]).id == id;
        let k = choose|k: int| 0 <= k < n && w.entities[k] == s[i];
        if k < j {
            assert(w.entities[k].id < w.entities[j].id);
        } else if j < k {
            assert(w.entities[j].id < w.entities[k].id);
        }
    }
}

/// What was not flagged is untouched by the sweep: an id that no flagged
/// entity bears keeps every component it had. Only the collider of the
/// portal may change.
pub proof fn lemma_swept_spares(w: WorldView, id: u64)
    requires
        !listed_pending(w.entities, id),
    ensures
        swept(w).positions.contains_key(id) == w.positions.contains_key(id),
        swept(w).positions.contains_key(id) ==> swept(w).positions[id] == w.positions[id],
        swept(w).dynamics.contains_key(id) == w.dynamics.contains_key(id),
        swept(w).colliders.contains_key(id) == w.colliders.contains_key(id),
        swept(w).targets.contains_key(id) == w.targets.contains_key(id),
        swept(w).ships.contains_key(id) == w.ships.contains_key(id),
{
    let n = w.entities.len();
    lemma_reaping_stores(w, n, id);
    if doomed(w.entities, n, id) {
        let j = choose|j: int|
            0 <= j < n && (#[trigger] w.entities[j]).id == id && w.entities[j].pending_destroy;
        assert(w.entities[j].id == id && w.entities[j].pending_destroy);
    }
}

impl World {
    /// Reaps `id`: takes it off the player reference and the lock list,
    /// opens the portal if no lock is left, and detaches every component of
    /// `id`. The registry is left to the sweep.
    pub fn reap(&mut self, id: u64)
        ensures
            final(self)@ == reaped(old(self)@, id),
    {
        if let Some(p) = self.player {
            if p == id {
                self.player = None;
            }
        }
        let count: usize = self.locks.len();
        let mut rest: Vec<u64> = Vec::new();
        let mut k: usize = 0;
        while k < count
            invariant
                k <= count,
                count == self.locks@.len(),
                self.locks@ == old(self).locks@,
                rest@ == without(self.locks@, id, k as nat),
            decreases count - k,
        {
            let lock: u64 = self.locks[k];
            if lock != id {
                rest.push(lock);
            }
            k += 1;
        }
        self.locks = rest;
        if self.locks.len() == 0 {
            if let Some(portal) = self.portal {
                let found: Option<ColliderSource> = match self.colliders.get(portal) {
                    Some(c) => Some(*c),
                    None => None,
                };
                if let Some(c) = found {
                    self.colliders.attach(
                        portal,
                        ColliderSource {
                            radius: c.radius,
                            reaction: Reaction::PortalTrigger,
                            blocks_prediction: c.blocks_prediction,
                        },
                    );
                    self.portal_open = true;
                }
            }
        }
        self.positions.remove(id);
        self.gravities.remove(id);
        self.dynamics.remove(id);
        self.colliders.remove(id);
        self.targets.remove(id);
        self.trails.remove(id);
        self.predictables.remove(id);
        self.ships.remove(id);
        self.explosions.remove(id);
        self.rockets.remove(id);
        self.turrets.remove(id);
        assert(self@ =~= reaped(old(self)@, id));
    }

    /// Removes every entity that is flagged for destruction, with all its
    /// components, in one pass over the registry.
    pub fn sweep(&mut self)
        requires
            old(self).wf(),
        ensures
            final(self)@ == swept(old(self)@),
            final(self).wf(),
    {
        let n: usize = self.registry.len();
        let mut survivors: Vec<Entity> = Vec::new();
        let mut i: usize = 0;
        while i < n
            invariant
                i <= n,
                n == old(self)@.entities.len(),
                self@ == reaping(old(self)@, i as nat),
                survivors@ == kept(old(self)@.entities, i as nat),
            decreases n - i,
        {
            proof {
                lemma_reaping_stores(old(self)@, i as nat, 0);
            }
            let e: Entity = self.registry.entity(i);
            if e.pending_destroy {
                self.reap(e.id);
            } else {
                survivors.push(e);
            }
            i += 1;
        }
        self.registry.entities = survivors;
        proof {
            assert(self@ =~= swept(old(self)@));
            lemma_swept_wf(old(self)@);
        }
    }
}


/// Taking an id off a list of distinct locks shortens it by one if the id
/// is on it, and leaves it as long as it was if not.
pub proof fn lemma_without_len(list: Seq<u64>, id: u64, k: nat)
    requires
        k <= list.len(),
        list.no_duplicates(),
    ensures
        without(list, id, k).len() == if exists|j: int| 0 <= j < k && list[j] == id {
            k - 1
        } else {
            k as int
        },
    decreases k,
{
    if k > 0 {
        lemma_without_len(list, id, (k - 1) as nat);
        if list[k - 1] == id {
            assert forall|j: int| 0 <= j < k - 1 implies list[j] != id by {
                assert(list[j] != list[k - 1]);
            }
        } else if exists|j: int| 0 <= j < k && list[j] == id {
            let j = choose|j: int| 0 <= j < k && list[j] == id;
            assert(0 <= j < k - 1 && list[j] == id);
        }
    }
}

/// While a lock is left, reaping does nothing to the portal.
pub proof fn lemma_portal_waits(w: WorldView, id: u64, portal: u64)
    requires
        w.portal == Some(portal),
        portal != id,
        w.colliders.contains_key(portal),
        without(w.locks, id, w.locks.len()).len() > 0,
    ensures
        reaped(w, id).colliders.contains_key(portal),
        reaped(w, id).colliders[portal] == w.colliders[portal],
        reaped(w, id).portal_open == w.portal_open,
{
}

/// Reaping the last lock opens the portal: its reaction becomes the trigger
/// and it shows as open. Nothing else about its collider changes.
pub proof fn lemma_last_lock_opens(w: WorldView, id: u64, portal: u64)
    requires
        w.portal == Some(portal),
        portal != id,
        w.colliders.contains_key(portal),
        without(w.locks, id, w.locks.len()).len() == 0,
    ensures
        reaped(w, id).colliders.contains_key(portal),
        reaped(w, id).colliders[portal] == (ColliderSource {
            reaction: Reaction::PortalTrigger,
            ..w.colliders[portal]
        }),
        reaped(w, id).portal_open,
        reaped(w, id).locks.len() == 0,
{
}

/// Once the portal is open, reaping anything else, a lock that is already
/// gone included, has no further effect on it.
pub proof fn lemma_open_portal_stays(w: WorldView, id: u64, portal: u64)
    requires
        w.portal == Some(portal),
        portal != id,
        w.colliders.contains_key(portal),
        w.colliders[portal].reaction == Reaction::PortalTrigger,
        w.portal_open,
    ensures
        reaped(w, id).colliders.contains_key(portal),
        reaped(w, id).colliders[portal] == w.colliders[portal],
        reaped(w, id).portal_open,
{
}

/// The lock list only ever gets shorter in a sweep.
pub proof fn lemma_reaping_locks(w: WorldView, n: nat, m: nat)
    requires
        n <= m <= w.entities.len(),
    ensures
        reaping(w, m).locks.len() <= reaping(w, n).locks.len(),
    decreases m,
{
    if n < m {
        lemma_reaping_locks(w, n, (m - 1) as nat);
        let prev = reaping(w, (m - 1) as nat);
        lemma_without(prev.locks, w.entities[m - 1].id, prev.locks.len());
    }
}

/// A sweep that leaves a lock behind leaves the portal as it was.
pub proof fn lemma_sweep_keeps_portal_shut(w: WorldView, portal: u64)
    requires
        w.portal == Some(portal),
        !listed_pending(w.entities, portal),
        w.colliders.contains_key(portal),
        swept(w).locks.len() > 0,
    ensures
        swept(w).colliders.contains_key(portal),
        swept(w).colliders[portal] == w.colliders[portal],
        swept(w).portal_open == w.portal_open,
{
    lemma_reaping_shut(w, w.entities.len(), portal);
}

/// While locks are left after the first `n` entities, the portal is as it
/// was.
pub proof fn lemma_reaping_shut(w: WorldView, n: nat, portal: u64)
    requires
        n <= w.entities.len(),
        w.portal == Some(portal),
        !listed_pending(w.entities, portal),
        w.colliders.contains_key(portal),
        reaping(w, n).locks.len() > 0,
    ensures
        reaping(w, n).colliders.contains_key(portal),
        reaping(w, n).colliders[portal] == w.colliders[portal],
        reaping(w, n).portal_open == w.portal_open,
        reaping(w, n).portal == w.portal,
    decreases n,
{
    if n > 0 {
        lemma_reaping_locks(w, (n - 1) as nat, n);
        lemma_reaping_shut(w, (n - 1) as nat, portal);
        let e = w.entities[n - 1];
        if e.pending_destroy {
            assert(e.id != portal) by {
                if e.id == portal {
                    assert(w.entities[n - 1].id == portal && w.entities[n - 1].pending_destroy);
                }
            }
        }
    }
}

/// A sweep that reaps something and leaves no lock behind opens the portal.
pub proof fn lemma_sweep_opens_portal(w: WorldView, portal: u64, reaped_id: u64)
    requires
        w.portal == Some(portal),
        !listed_pending(w.entities, portal),
        listed_pending(w.entities, reaped_id),
        w.colliders.contains_key(portal),
        swept(w).locks.len() == 0,
    ensures
        swept(w).colliders.contains_key(portal),
        swept(w).colliders[portal].reaction == Reaction::PortalTrigger,
        swept(w).colliders[portal].radius == w.colliders[portal].radius,
        swept(w).portal_open,
{
    let j = choose|j: int|
        0 <= j < w.entities.len() && (#[trigger] w.entities[j]).id == reaped_id
            && w.entities[j].pending_destroy;
    lemma_reaping_open(w, w.entities.len(), portal, j);
}

/// If one of the first `n` entities was reaped and no lock is left after
/// them, the portal is open.
pub proof fn lemma_reaping_open(w: WorldView, n: nat, portal: u64, j: int)
    requires
        n <= w.entities.len(),
        0 <= j < n,
        w.entities[j].pending_destroy,
        w.portal == Some(portal),
        !listed_pending(w.entities, portal),
        w.colliders.contains_key(portal),
        reaping(w, n).locks.len() == 0,
    ensures
        reaping(w, n).colliders.contains_key(portal),
        reaping(w, n).colliders[portal].reaction == Reaction::PortalTrigger,
        reaping(w, n).colliders[portal].radius == w.colliders[portal].radius,
        reaping(w, n).portal_open,
    decreases n,
{
    let e = w.entities[n - 1];
    let prev = reaping(w, (n - 1) as nat);
    lemma_reaping_stores(w, (n - 1) as nat, portal);
    if doomed(w.entities, (n - 1) as nat, portal) {
        let k = choose|k: int|
            0 <= k < n - 1 && (#[trigger] w.entities[k]).id == portal
                && w.entities[k].pending_destroy;
        assert(w.entities[k].id == portal && w.entities[k].pending_destroy);
    }
    if e.pending_destroy {
        assert(e.id != portal) by {
            if e.id == portal {
                assert(w.entities[n - 1].id == portal && w.entities[n - 1].pending_destroy);
            }
        }
        assert(opens_portal(prev, e.id));
        lemma_portal_radius(w, (n - 1) as nat, portal);
    } else {
        lemma_reaping_open(w, (n - 1) as nat, portal, j);
    }
}

/// A sweep never changes the radius of the portal's collider.
pub proof fn lemma_portal_radius(w: WorldView, n: nat, portal: u64)
    requires
        n <= w.entities.len(),
        w.portal == Some(portal),
    ensures
        reaping(w, n).colliders.contains_key(portal) ==> w.colliders.contains_key(portal)
            && reaping(w, n).colliders[portal].radius == w.colliders[portal].radius,
    decreases n,
{
    if n > 0 {
        lemma_portal_radius(w, (n - 1) as nat, portal);
        lemma_reaping_stores(w, (n - 1) as nat, portal);
    }
}

/// The player reference is cleared exactly if the player was reaped.
pub proof fn lemma_swept_player(w: WorldView)
    ensures
        swept(w).player == if w.player.is_some() && listed_pending(
            w.entities,
            w.player.unwrap(),
        ) {
            None
        } else {
            w.player
        },
{
    lemma_reaping_player(w, w.entities.len());
    if w.player.is_some() {
        let p = w.player.unwrap();
        if doomed(w.entities, w.entities.len(), p) {
            let j = choose|j: int|
                0 <= j < w.entities.len() && (#[trigger] w.entities[j]).id == p
                    && w.entities[j].pending_destroy;
            assert(w.entities[j].id == p && w.entities[j].pending_destroy);
        }
        if listed_pending(w.entities, p) {
            let j = choose|j: int|
                0 <= j < w.entities.len() && (#[trigger] w.entities[j]).id == p
                    && w.entities[j].pending_destroy;
            assert(w.entities[j].id == p && w.entities[j].pending_destroy);
        }
    }
}

/// After the first `n` entities the player reference is cleared exactly if
/// the player was among those reaped.
pub proof fn lemma_reaping_player(w: WorldView, n: nat)
    requires
        n <= w.entities.len(),
    ensures
        reaping(w, n).player == if w.player.is_some() && doomed(
            w.entities,
            n,
            w.player.unwrap(),
        ) {
            None
        } else {
            w.player
        },
    decreases n,
{
    if n > 0 {
        lemma_reaping_player(w, (n - 1) as nat);
        if w.player.is_some() {
            let p = w.player.unwrap();
            let e = w.entities[n - 1];
            if doomed(w.entities, (n - 1) as nat, p) {
                let j = choose|j: int|
                    0 <= j < n - 1 && (#[trigger] w.entities[j]).id == p
                        && w.entities[j].pending_destroy;
                assert(w.entities[j].id == p && w.entities[j].pending_destroy);
            }
            if e.pending_destroy && e.id == p {
                assert(w.entities[n - 1].id == p && w.entities[n - 1].pending_destroy);
            }
            if doomed(w.entities, n, p) && !doomed(w.entities, (n - 1) as nat, p) {
                let j = choose|j: int|
                    0 <= j < n && (#[trigger] w.entities[j]).id == p
                        && w.entities[j].pending_destroy;
                assert(j == n - 1);
            }
        }
    }
}

} // verus!
