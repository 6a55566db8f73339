//! The simulation state: the registry, one store per component kind, and the
//! few cross-cutting references (player, locks, portal).

use crate::components::{
    ColliderSource, CollisionTarget, Dynamics, Explosion, Gravity, Position, Predictable, Rocket,
    Ship, Trail, Turret,
};
use crate::model::{lemma_flagged_wf, lemma_spawned_wf, Parts, WorldView};
use crate::registry::{Entity, Registry};
use crate::store::Store;
use vstd::prelude::*;

verus! {

/// Everything a tick reads and writes. The stores own all components; an
/// entity is only an id in the registry.
pub struct World {
    pub registry: Registry,
    pub positions: Store<Position>,
    pub gravities: Store<Gravity>,
    pub dynamics: Store<Dynamics>,
    pub colliders: Store<ColliderSource>,
    pub targets: Store<CollisionTarget>,
    pub trails: Store<Trail>,
    pub predictables: Store<Predictable>,
    pub ships: Store<Ship>,
    pub explosions: Store<Explosion>,
    pub rockets: Store<Rocket>,
    pub turrets: Store<Turret>,
    /// The locks that still keep the portal shut.
    pub locks: Vec<u64>,
    pub portal: Option<u64>,
    /// Whether the portal shows as open.
    pub portal_open: bool,
    /// Milliseconds gathered toward the next turret round.
    pub turret_clock: i32,
    pub player: Option<u64>,
    /// Set when a ship has entered the open portal.
    pub finished: bool,
}

impl View for World {
    type V = WorldView;

    open spec fn view(&self) -> WorldView {
        WorldView {
            entities: self.registry@,
            next_id: self.registry.next_id,
            positions: self.positions@,
            gravities: self.gravities@,
            dynamics: self.dynamics@,
            colliders: self.colliders@,
            targets: self.targets@,
            trails: self.trails@.map_values(|t: Trail| t@),
            predictables: self.predictables@.map_values(|p: Predictable| p@),
            ships: self.ships@,
            explosions: self.explosions@,
            rockets: self.rockets@,
            turrets: self.turrets@,
            locks: self.locks@,
            portal: self.portal,
            portal_open: self.portal_open,
            turret_clock: self.turret_clock,
            player: self.player,
            finished: self.finished,
        }
    }
}

impl World {
    /// The world's invariant, which every function here keeps.
    pub open spec fn wf(&self) -> bool {
        self@.wf()
    }

    /// An empty world, whose first id will be 1.
    pub fn new() -> (w: Self)
        ensures
            w@ == WorldView::empty(1),
            w.wf(),
    {
        let w = World {
            registry: Registry::new(),
            positions: Store::new(),
            gravities: Store::new(),
            dynamics: Store::new(),
            colliders: Store::new(),
            targets: Store::new(),
            trails: Store::new(),
            predictables: Store::new(),
            ships: Store::new(),
            explosions: Store::new(),
            rockets: Store::new(),
            turrets: Store::new(),
            locks: Vec::new(),
            portal: None,
            portal_open: false,
            turret_clock: 0,
            player: None,
            finished: false,
        };
        assert(w@ =~= WorldView::empty(1));
        w
    }

    /// Clears the registry, every store and every reference. Ids go on from
    /// where they were: none is ever handed out twice.
    pub fn reset(&mut self)
        ensures
            final(self)@ == WorldView::empty(old(self)@.next_id),
            final(self).wf(),
    {
        self.registry.clear();
        self.positions.clear();
        self.gravities.clear();
        self.dynamics.clear();
        self.colliders.clear();
        self.targets.clear();
        self.trails.clear();
        self.predictables.clear();
        self.ships.clear();
        self.explosions.clear();
        self.rockets.clear();
        self.turrets.clear();
        self.locks.clear();
        self.portal = None;
        self.portal_open = false;
        self.turret_clock = 0;
        self.player = None;
        self.finished = false;
        assert(self@ =~= WorldView::empty(old(self)@.next_id));
    }

    /// Allocates a fresh id and registers it as live. It carries nothing yet.
    pub fn create_entity(&mut self) -> (id: u64)
        requires
            old(self)@.next_id < u64::MAX,
        ensures
            id == old(self)@.next_id,
            final(self)@ == old(self)@.created(),
            old(self).wf() && !old(self)@.physical(id) ==> final(self).wf(),
    {
        let id = self.registry.create();
        proof {
            assert(self@ =~= old(self)@.created());
            if old(self).wf() && !old(self)@.physical(id) {
                assert forall|i: int| 0 <= i < self@.entities.len() implies self@.grounded(
                    (#[trigger] self@.entities[i]).id,
                ) by {
                    if i < old(self)@.entities.len() {
                        assert(old(self)@.grounded(old(self)@.entities[i].id));
                    }
                }
            }
        }
        id
    }

    /// Registers a fresh entity and attaches `parts` to it.
    pub fn spawn(&mut self, parts: Parts) -> (id: u64)
        requires
            old(self)@.next_id < u64::MAX,
        ensures
            id == old(self)@.next_id,
            final(self)@ == old(self)@.spawned(parts),
            old(self).wf() ==> final(self).wf(),
    {
        let id = self.registry.create();
        self.positions.attach(id, parts.position);
        if let Some(c) = parts.gravity {
            self.gravities.attach(id, c);
        }
        if let Some(c) = parts.dynamics {
            self.dynamics.attach(id, c);
        }
        if let Some(c) = parts.collider {
            self.colliders.attach(id, c);
        }
        if let Some(c) = parts.target {
            self.targets.attach(id, c);
        }
        if let Some(c) = parts.ship {
            self.ships.attach(id, c);
        }
        if let Some(c) = parts.explosion {
            self.explosions.attach(id, c);
        }
        if let Some(c) = parts.rocket {
            self.rockets.attach(id, c);
        }
        if let Some(c) = parts.turret {
            self.turrets.attach(id, c);
        }
        proof {
            assert(self@ =~= old(self)@.spawned(parts));
            if old(self).wf() {
                lemma_spawned_wf(old(self)@, parts);
            }
        }
        id
    }

    /// Requests the destruction of `id` at the next sweep. Only its flag
    /// changes: its components stay readable until then. The call is
    /// idempotent, and an id that is not live is left alone.
    pub fn flag_destroy(&mut self, id: u64)
        ensures
            final(self)@ == old(self)@.flagged(id),
            old(self).wf() ==> final(self).wf(),
    {
        self.registry.flag_destroy(id);
        proof {
            assert(self@ =~= old(self)@.flagged(id));
            if old(self).wf() {
                lemma_flagged_wf(old(self)@, id);
            }
        }
    }

    /// Names `id` the player.
    pub fn make_player(&mut self, id: u64)
        ensures
            final(self)@ == (WorldView { player: Some(id), ..old(self)@ }),
    {
        self.player = Some(id);
    }

    /// Whether the invariant holds, by inspection of every live entity.
    pub fn is_well_formed(&self) -> (ok: bool)
        ensures
            ok == self.wf(),
    {
        let n: usize = self.registry.len();
        let mut i: usize = 0;
        while i < n
            invariant
                i <= n,
                n == self@.entities.len(),
                forall|k: int| 0 <= k < i ==> self@.grounded((#[trigger] self@.entities[k]).id),
                forall|k: int| 0 <= k < i ==> (#[trigger] self@.entities[k]).id < self@.next_id,
                forall|k: int|
                    0 < k < i ==> self@.entities[k - 1].id < (#[trigger] self@.entities[k]).id,
            decreases n - i,
        {
            let e: Entity = self.registry.entity(i);
            if e.id >= self.registry.next_id {
                return false;
            }
            if i > 0 {
                let before: Entity = self.registry.entity(i - 1);
                if before.id >= e.id {
                    assert(!(self@.entities[i - 1].id < self@.entities[i as int].id));
                    return false;
                }
            }
            let physical: bool = self.gravities.contains(e.id) || self.dynamics.contains(e.id)
                || self.colliders.contains(e.id) || self.targets.contains(e.id)
                || self.ships.contains(e.id) || self.explosions.contains(e.id)
                || self.rockets.contains(e.id) || self.turrets.contains(e.id);
            if physical && !self.positions.contains(e.id) {
                assert(!self@.grounded(self@.entities[i as int].id));
                return false;
            }
            i += 1;
        }
        proof {
            crate::registry::lemma_steps_ascend(self@.entities);
        }
        true
    }
}

} // verus!
