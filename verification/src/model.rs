//! The mathematical model of the simulation state. Every contract of the
//! systems is a statement about these values.

use crate::components::{
    ColliderSource, CollisionTarget, Dynamics, Explosion, Gravity, Heading, Point, Position,
    Predictable, Rocket, Ship, Trail, Turret,
};
use crate::registry::{ascending, Entity};
use vstd::prelude::*;

verus! {

/// A trail as a value: its buffer is the sequence of its points.
#[verifier::ext_equal]
pub struct TrailView {
    pub target: u64,
    pub points: Seq<Point>,
    pub max_len: usize,
    pub width: u32,
    pub color: u32,
    pub min_spacing: u32,
}

/// A forecast as a value: its buffer is the sequence of its slots.
#[verifier::ext_equal]
pub struct PredictableView {
    pub target: u64,
    pub path: Seq<Point>,
    pub step: i32,
    pub refresh_rate: i32,
    pub until_refresh: i32,
    pub valid_len: usize,
    pub collidable: bool,
    pub color: u32,
}

impl View for Trail {
    type V = TrailView;

    open spec fn view(&self) -> TrailView {
        TrailView {
            target: self.target,
            points: self.points@,
            max_len: self.max_len,
            width: self.width,
            color: self.color,
            min_spacing: self.min_spacing,
        }
    }
}

impl View for Predictable {
    type V = PredictableView;

    open spec fn view(&self) -> PredictableView {
        PredictableView {
            target: self.target,
            path: self.path@,
            step: self.step,
            refresh_rate: self.refresh_rate,
            until_refresh: self.until_refresh,
            valid_len: self.valid_len,
            collidable: self.collidable,
            color: self.color,
        }
    }
}

/// The components that a new entity starts with. A position is mandatory;
/// every other kind is optional.
#[derive(Clone, Copy, Debug, PartialEq, Eq, Structural)]
pub struct Parts {
    pub position: Position,
    pub gravity: Option<Gravity>,
    pub dynamics: Option<Dynamics>,
    pub collider: Option<ColliderSource>,
    pub target: Option<CollisionTarget>,
    pub ship: Option<Ship>,
    pub explosion: Option<Explosion>,
    pub rocket: Option<Rocket>,
    pub turret: Option<Turret>,
}

impl Parts {
    /// The parts of an entity that has a position and nothing else.
    pub open spec fn only(position: Position) -> Parts {
        Parts {
            position,
            gravity: None,
            dynamics: None,
            collider: None,
            target: None,
            ship: None,
            explosion: None,
            rocket: None,
            turret: None,
        }
    }

    /// The parts of an entity that has a position and nothing else.
    pub fn at(position: Position) -> (parts: Parts)
        ensures
            parts == Parts::only(position),
    {
        Parts {
            position,
            gravity: None,
            dynamics: None,
            collider: None,
            target: None,
            ship: None,
            explosion: None,
            rocket: None,
            turret: None,
        }
    }
}

/// The pose at the origin that faces along the first axis.
pub open spec fn origin() -> Position {
    Position { x: 0, y: 0, heading: Heading { x: 1000, y: 0 } }
}

/// The map `m` with `c`, if there is one, attached to `id`.
pub open spec fn placed<C>(m: Map<u64, C>, id: u64, c: Option<C>) -> Map<u64, C> {
    match c {
        Some(v) => m.insert(id, v),
        None => m,
    }
}

/// The whole simulation state as a value.
#[verifier::ext_equal]
pub struct WorldView {
    pub entities: Seq<Entity>,
    pub next_id: u64,
    pub positions: Map<u64, Position>,
    pub gravities: Map<u64, Gravity>,
    pub dynamics: Map<u64, Dynamics>,
    pub colliders: Map<u64, ColliderSource>,
    pub targets: Map<u64, CollisionTarget>,
    pub trails: Map<u64, TrailView>,
    pub predictables: Map<u64, PredictableView>,
    pub ships: Map<u64, Ship>,
    pub explosions: Map<u64, Explosion>,
    pub rockets: Map<u64, Rocket>,
    pub turrets: Map<u64, Turret>,
    pub locks: Seq<u64>,
    pub portal: Option<u64>,
    pub portal_open: bool,
    pub turret_clock: i32,
    pub player: Option<u64>,
    pub finished: bool,
}

impl WorldView {
    /// Whether `id` carries a component of a kind that lives in space.
    pub open spec fn physical(self, id: u64) -> bool {
        ||| self.gravities.contains_key(id)
        ||| self.dynamics.contains_key(id)
        ||| self.colliders.contains_key(id)
        ||| self.targets.contains_key(id)
        ||| self.ships.contains_key(id)
        ||| self.explosions.contains_key(id)
        ||| self.rockets.contains_key(id)
        ||| self.turrets.contains_key(id)
    }

    /// Whether `id` has a position under its physical components.
    pub open spec fn grounded(self, id: u64) -> bool {
        self.physical(id) ==> self.positions.contains_key(id)
    }

    /// The invariant: ids increase along the registry, stay below the next
    /// id, and every live entity is grounded.
    pub open spec fn wf(self) -> bool {
        &&& ascending(self.entities, self.next_id)
        &&& forall|i: int|
            0 <= i < self.entities.len() ==> self.grounded((#[trigger] self.entities[i]).id)
    }

    /// Whether no store holds anything for `id`.
    pub open spec fn absent_everywhere(self, id: u64) -> bool {
        &&& !self.positions.contains_key(id)
        &&& !self.gravities.contains_key(id)
        &&& !self.dynamics.contains_key(id)
        &&& !self.colliders.contains_key(id)
        &&& !self.targets.contains_key(id)
        &&& !self.trails.contains_key(id)
        &&& !self.predictables.contains_key(id)
        &&& !self.ships.contains_key(id)
        &&& !self.explosions.contains_key(id)
        &&& !self.rockets.contains_key(id)
        &&& !self.turrets.contains_key(id)
    }

    /// Whether this state holds a component for `id` in every store in
    /// which `before` holds one.
    pub open spec fn keeps(self, before: WorldView, id: u64) -> bool {
        &&& before.positions.contains_key(id) ==> self.positions.contains_key(id)
        &&& before.gravities.contains_key(id) ==> self.gravities.contains_key(id)
        &&& before.dynamics.contains_key(id) ==> self.dynamics.contains_key(id)
        &&& before.colliders.contains_key(id) ==> self.colliders.contains_key(id)
        &&& before.targets.contains_key(id) ==> self.targets.contains_key(id)
        &&& before.trails.contains_key(id) ==> self.trails.contains_key(id)
        &&& before.predictables.contains_key(id) ==> self.predictables.contains_key(id)
        &&& before.ships.contains_key(id) ==> self.ships.contains_key(id)
        &&& before.explosions.contains_key(id) ==> self.explosions.contains_key(id)
        &&& before.rockets.contains_key(id) ==> self.rockets.contains_key(id)
        &&& before.turrets.contains_key(id) ==> self.turrets.contains_key(id)
    }

    /// Whether the two states have the same entities, flags aside, and for
    /// each physical kind and for positions, components on the same ids. The
    /// invariant depends on nothing else.
    pub open spec fn same_shape(self, other: WorldView) -> bool {
        &&& crate::registry::same_ids(self.entities, other.entities)
        &&& self.next_id == other.next_id
        &&& self.positions.dom() == other.positions.dom()
        &&& self.gravities.dom() == other.gravities.dom()
        &&& self.dynamics.dom() == other.dynamics.dom()
        &&& self.colliders.dom() == other.colliders.dom()
        &&& self.targets.dom() == other.targets.dom()
        &&& self.ships.dom() == other.ships.dom()
        &&& self.explosions.dom() == other.explosions.dom()
        &&& self.rockets.dom() == other.rockets.dom()
        &&& self.turrets.dom() == other.turrets.dom()
    }

    /// The empty state whose next id is `next_id`.
    pub open spec fn empty(next_id: u64) -> WorldView {
        WorldView {
            entities: Seq::empty(),
            next_id,
            positions: Map::empty(),
            gravities: Map::empty(),
            dynamics: Map::empty(),
            colliders: Map::empty(),
            targets: Map::empty(),
            trails: Map::empty(),
            predictables: Map::empty(),
            ships: Map::empty(),
            explosions: Map::empty(),
            rockets: Map::empty(),
            turrets: Map::empty(),
            locks: Seq::empty(),
            portal: None,
            portal_open: false,
            turret_clock: 0,
            player: None,
            finished: false,
        }
    }

    /// The state after a fresh entity was registered: it takes the next id,
    /// stands last, unflagged, and carries nothing.
    pub open spec fn created(self) -> WorldView {
        WorldView {
            entities: self.entities.push(Entity { id: self.next_id, pending_destroy: false }),
            next_id: (self.next_id + 1) as u64,
            ..self
        }
    }

    /// The state after `id` was flagged for destruction. Only flags change.
    pub open spec fn flagged(self, id: u64) -> WorldView {
        WorldView { entities: crate::registry::flagged(self.entities, id), ..self }
    }

    /// The state after a fresh entity was registered with `parts`.
    pub open spec fn spawned(self, parts: Parts) -> WorldView {
        let id = self.next_id;
        WorldView {
            entities: self.entities.push(Entity { id, pending_destroy: false }),
            next_id: (id + 1) as u64,
            positions: self.positions.insert(id, parts.position),
            gravities: placed(self.gravities, id, parts.gravity),
            dynamics: placed(self.dynamics, id, parts.dynamics),
            colliders: placed(self.colliders, id, parts.collider),
            targets: placed(self.targets, id, parts.target),
            ships: placed(self.ships, id, parts.ship),
            explosions: placed(self.explosions, id, parts.explosion),
            rockets: placed(self.rockets, id, parts.rocket),
            turrets: placed(self.turrets, id, parts.turret),
            ..self
        }
    }

    /// The state after a fresh entity was registered at the origin with the
    /// trail `t`.
    pub open spec fn trailed(self, t: TrailView) -> WorldView {
        WorldView {
            trails: self.trails.insert(self.next_id, t),
            ..self.spawned(Parts::only(origin()))
        }
    }

    /// The state after a fresh entity was registered at the origin with the
    /// forecast `p`.
    pub open spec fn forecasting(self, p: PredictableView) -> WorldView {
        WorldView {
            predictables: self.predictables.insert(self.next_id, p),
            ..self.spawned(Parts::only(origin()))
        }
    }
}

/// The invariant carries over to a state of the same shape.
pub proof fn lemma_wf_by_shape(a: WorldView, b: WorldView)
    requires
        a.wf(),
        a.same_shape(b),
    ensures
        b.wf(),
{
    assert forall|i: int| 0 <= i < b.entities.len() implies b.grounded(
        (#[trigger] b.entities[i]).id,
    ) by {
        let id = a.entities[i].id;
        assert(a.grounded(id));
        assert(b.entities[i].id == id);
        assert(a.positions.dom().contains(id) == b.positions.dom().contains(id));
        assert(a.gravities.dom().contains(id) == b.gravities.dom().contains(id));
        assert(a.dynamics.dom().contains(id) == b.dynamics.dom().contains(id));
        assert(a.colliders.dom().contains(id) == b.colliders.dom().contains(id));
        assert(a.targets.dom().contains(id) == b.targets.dom().contains(id));
        assert(a.ships.dom().contains(id) == b.ships.dom().contains(id));
        assert(a.explosions.dom().contains(id) == b.explosions.dom().contains(id));
        assert(a.rockets.dom().contains(id) == b.rockets.dom().contains(id));
        assert(a.turrets.dom().contains(id) == b.turrets.dom().contains(id));
    }
    assert forall|i: int, j: int| 0 <= i < j < b.entities.len() implies (
    #[trigger] b.entities[i]).id < (#[trigger] b.entities[j]).id by {
        assert(a.entities[i].id < a.entities[j].id);
    }
    assert forall|i: int| 0 <= i < b.entities.len() implies (#[trigger] b.entities[i]).id
        < b.next_id by {
        assert(a.entities[i].id < a.next_id);
    }
}

/// Flagging keeps the invariant.
pub proof fn lemma_flagged_wf(w: WorldView, id: u64)
    requires
        w.wf(),
    ensures
        w.flagged(id).wf(),
        w.same_shape(w.flagged(id)),
{
    crate::registry::lemma_flagged_keeps(w.entities, id);
    lemma_wf_by_shape(w, w.flagged(id));
}

/// Registering a fresh entity with its parts keeps the invariant.
pub proof fn lemma_spawned_wf(w: WorldView, parts: Parts)
    requires
        w.wf(),
        w.next_id < u64::MAX,
    ensures
        w.spawned(parts).wf(),
{
    let s = w.spawned(parts);
    assert forall|i: int| 0 <= i < s.entities.len() implies s.grounded(
        (#[trigger] s.entities[i]).id,
    ) by {
        if i < w.entities.len() {
            assert(s.entities[i] == w.entities[i]);
            assert(w.grounded(w.entities[i].id));
            assert(w.entities[i].id < w.next_id);
        }
    }
    assert forall|i: int, j: int| 0 <= i < j < s.entities.len() implies (
    #[trigger] s.entities[i]).id < (#[trigger] s.entities[j]).id by {
        assert(w.entities[i].id < w.next_id);
        if j < w.entities.len() {
            assert(w.entities[i].id < w.entities[j].id);
        }
    }
    assert forall|i: int| 0 <= i < s.entities.len() implies (#[trigger] s.entities[i]).id
        < s.next_id by {
        if i < w.entities.len() {
            assert(w.entities[i].id < w.next_id);
        }
    }
}

} // verus!
