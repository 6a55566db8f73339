//! The collision step. Every collision target is tested against every
//! collider; the first collider it touches, in registry order, reacts.
//! Blasts are queued during the scan and set off after it, so that no entity
//! appears while the scan runs.

use crate::components::{ColliderSource, CollisionTarget, Position, Reaction, Ship};
use crate::model::{lemma_spawned_wf, lemma_wf_by_shape, WorldView};
use crate::registry::{lemma_flagged_keeps, same_ids, Entity};
use crate::scalar::{delta, length_sq, norm_sq};
use crate::spawn::explosion_parts;
use crate::world::World;
use vstd::prelude::*;

verus! {

/// A blast to set off once the scan is over.
#[derive(Clone, Copy, Debug, PartialEq, Eq, Structural)]
pub struct Blast {
    pub x: i32,
    pub y: i32,
    pub size: u32,
}

/// Whether two circles touch: the square of the sum of their radii is at
/// least the squared distance of their centers.
pub open spec fn touching(r1: u32, x1: int, y1: int, r2: u32, x2: int, y2: int) -> bool {
    (r1 + r2) * (r1 + r2) >= norm_sq(x1 - x2, y1 - y2)
}

/// Circles whose radii sum to exactly the distance of their centers touch.
pub proof fn lemma_touching_inclusive(r1: u32, x1: int, y1: int, r2: u32, x2: int, y2: int)
    requires
        (r1 + r2) * (r1 + r2) == norm_sq(x1 - x2, y1 - y2),
    ensures
        touching(r1, x1, y1, r2, x2, y2),
{
}

/// Whether two circles touch.
pub fn touches(r1: u32, x1: i32, y1: i32, r2: u32, x2: i32, y2: i32) -> (b: bool)
    ensures
        b == touching(r1, x1 as int, y1 as int, r2, x2 as int, y2 as int),
{
    let sum: u128 = r1 as u128 + r2 as u128;
    assert(sum * sum <= 0x2_0000_0000 * 0x2_0000_0000) by (nonlinear_arith)
        requires
            sum <= 0x2_0000_0000,
    ;
    let d2: u128 = length_sq(delta(x1, x2), delta(y1, y2));
    sum * sum >= d2
}

/// Whether the entity `source` is a placed collider, other than `id`, that
/// the target `id` touches.
pub open spec fn hits(w: WorldView, id: u64, source: u64) -> bool {
    &&& source != id
    &&& w.colliders.contains_key(source)
    &&& w.positions.contains_key(source)
    &&& touching(
        w.colliders[source].radius,
        w.positions[source].x as int,
        w.positions[source].y as int,
        w.targets[id].radius,
        w.positions[id].x as int,
        w.positions[id].y as int,
    )
}

/// The first of the first `n` entities that the target `id` hits.
pub open spec fn first_hit(w: WorldView, id: u64, n: nat) -> Option<u64>
    decreases n,
{
    if n == 0 {
        None
    } else {
        match first_hit(w, id, (n - 1) as nat) {
            Some(c) => Some(c),
            None => if hits(w, id, w.entities[n - 1].id) {
                Some(w.entities[n - 1].id)
            } else {
                None
            },
        }
    }
}

/// The collider that reacts to `id` in this tick, if `id` is a placed
/// collision target that touches one.
pub open spec fn impact(w: WorldView, id: u64) -> Option<u64> {
    if w.targets.contains_key(id) && w.positions.contains_key(id) {
        first_hit(w, id, w.entities.len())
    } else {
        None
    }
}

/// The size of the blast in which `id` itself wants to go up when it hits
/// something.
pub open spec fn own_blast(w: WorldView, id: u64) -> Option<u32> {
    if w.colliders.contains_key(id) {
        match w.colliders[id].reaction {
            Reaction::Explosion { size, self_destructs } => if self_destructs {
                Some(size)
            } else {
                None
            },
            _ => None,
        }
    } else {
        None
    }
}

/// `fuel` topped up by `amount`, at most what a tank can hold.
pub open spec fn refueled(fuel: u64, amount: u32) -> u64 {
    if fuel + amount > u64::MAX {
        u64::MAX
    } else {
        (fuel + amount) as u64
    }
}

/// The state after the collider `source` has reacted to the target `id`.
/// A blast flags the target, and the collider too if it goes up with it;
/// fuel goes to a ship, and the pickup is flagged; the open portal takes a
/// ship and reports the level finished. Nothing is removed here.
pub open spec fn struck(w: WorldView, id: u64, source: u64) -> WorldView {
    if !engaged(w, id, source) {
        w
    } else {
        reacted(w, id, source)
    }
}

/// Whether `source` is a placed collider and `id` is placed: what a
/// reaction needs.
pub open spec fn engaged(w: WorldView, id: u64, source: u64) -> bool {
    &&& w.colliders.contains_key(source)
    &&& w.positions.contains_key(source)
    &&& w.positions.contains_key(id)
}

/// The state after the reaction of the placed collider `source` to the
/// placed target `id`.
pub open spec fn reacted(w: WorldView, id: u64, source: u64) -> WorldView {
    match w.colliders[source].reaction {
        Reaction::Explosion { size, self_destructs } => if self_destructs {
            w.flagged(source).flagged(id)
        } else {
            w.flagged(id)
        },
        Reaction::FuelRefill { amount } => if w.ships.contains_key(id) {
            (WorldView {
                ships: w.ships.insert(
                    id,
                    Ship { fuel: refueled(w.ships[id].fuel, amount), ..w.ships[id] },
                ),
                ..w
            }).flagged(source)
        } else {
            w
        },
        Reaction::PortalTrigger => if w.ships.contains_key(id) {
            WorldView { finished: true, ..w }
        } else {
            w
        },
        Reaction::Inert => w,
    }
}

/// The blasts that the reaction of `source` to `id` queues. A target that
/// goes up on impact blasts where it is, with its own size. The collider's
/// blast comes besides if the collider goes up too, then where the collider
/// is; it comes alone, where the target is, if the target has none of its
/// own.
pub open spec fn debris(w: WorldView, id: u64, source: u64) -> Seq<Blast> {
    if !engaged(w, id, source) {
        Seq::<Blast>::empty()
    } else {
        match w.colliders[source].reaction {
            Reaction::Explosion { size, self_destructs } => {
                let p = w.positions[id];
                let c = w.positions[source];
                let first = match own_blast(w, id) {
                    Some(s) => seq![Blast { x: p.x, y: p.y, size: s }],
                    None => Seq::<Blast>::empty(),
                };
                let second = if self_destructs {
                    seq![Blast { x: c.x, y: c.y, size }]
                } else if own_blast(w, id).is_none() {
                    seq![Blast { x: p.x, y: p.y, size }]
                } else {
                    Seq::<Blast>::empty()
                };
                first + second
            },
            _ => Seq::<Blast>::empty(),
        }
    }
}

/// The state after the first `n` entities have been tested as targets
/// against the colliders of `w`.
pub open spec fn collided(w: WorldView, n: nat) -> WorldView
    decreases n,
{
    if n == 0 {
        w
    } else {
        let prev = collided(w, (n - 1) as nat);
        match impact(w, w.entities[n - 1].id) {
            Some(source) => struck(prev, w.entities[n - 1].id, source),
            None => prev,
        }
    }
}

/// The blasts queued while the first `n` entities were tested.
pub open spec fn wreckage(w: WorldView, n: nat) -> Seq<Blast>
    decreases n,
{
    if n == 0 {
        Seq::<Blast>::empty()
    } else {
        let prev = wreckage(w, (n - 1) as nat);
        match impact(w, w.entities[n - 1].id) {
            Some(source) => prev + debris(w, w.entities[n - 1].id, source),
            None => prev,
        }
    }
}

/// The state after the first `k` blasts of `queue` were set off, each as a
/// blast that can itself be run into.
pub open spec fn blasted(w: WorldView, queue: Seq<Blast>, k: nat) -> WorldView
    decreases k,
{
    if k == 0 {
        w
    } else {
        blasted(w, queue, (k - 1) as nat).spawned(
            explosion_parts(queue[k - 1].x, queue[k - 1].y, queue[k - 1].size, true),
        )
    }
}

/// The state after the collision step.
pub open spec fn after_collisions(w: WorldView) -> WorldView {
    let queue = wreckage(w, w.entities.len());
    blasted(collided(w, w.entities.len()), queue, queue.len())
}

/// The first hit is one of the entities tested, and a collider that the
/// target hits.
pub proof fn lemma_first_hit(w: WorldView, id: u64, n: nat)
    requires
        n <= w.entities.len(),
    ensures
        match first_hit(w, id, n) {
            Some(c) => hits(w, id, c) && exists|j: int|
                0 <= j < n && (#[trigger] w.entities[j]).id == c && first_hit(w, id, j as nat)
                    .is_none(),
            None => forall|j: int| 0 <= j < n ==> !hits(w, id, (#[trigger] w.entities[j]).id),
        },
    decreases n,
{
    if n > 0 {
        lemma_first_hit(w, id, (n - 1) as nat);
        match first_hit(w, id, (n - 1) as nat) {
            Some(c) => {},
            None => {
                if hits(w, id, w.entities[n - 1].id) {
                    assert(w.entities[n - 1].id == w.entities[n - 1].id);
                }
            },
        }
    }
}

/// What the scan reads: a hit depends on the ids, the positions, the
/// colliders and the targets, and on nothing else.
pub open spec fn same_scene(a: WorldView, b: WorldView) -> bool {
    &&& same_ids(a.entities, b.entities)
    &&& a.positions == b.positions
    &&& a.colliders == b.colliders
    &&& a.targets == b.targets
}

/// Two states of the same scene give the same hits.
pub proof fn lemma_first_hit_by_scene(a: WorldView, b: WorldView, id: u64, n: nat)
    requires
        same_scene(a, b),
        n <= a.entities.len(),
    ensures
        first_hit(a, id, n) == first_hit(b, id, n),
    decreases n,
{
    if n > 0 {
        lemma_first_hit_by_scene(a, b, id, (n - 1) as nat);
        assert(a.entities[n - 1].id == b.entities[n - 1].id);
    }
}

/// A reaction keeps the scene, the shape, the next id and the invariant.
pub proof fn lemma_struck_frame(w: WorldView, id: u64, source: u64)
    ensures
        same_scene(w, struck(w, id, source)),
        w.same_shape(struck(w, id, source)),
        w.wf() ==> struck(w, id, source).wf(),
        struck(w, id, source).next_id == w.next_id,
        struck(w, id, source).gravities == w.gravities,
        struck(w, id, source).dynamics == w.dynamics,
        struck(w, id, source).trails == w.trails,
        struck(w, id, source).predictables == w.predictables,
        struck(w, id, source).explosions == w.explosions,
        struck(w, id, source).rockets == w.rockets,
        struck(w, id, source).turrets == w.turrets,
        struck(w, id, source).locks == w.locks,
        struck(w, id, source).portal == w.portal,
        struck(w, id, source).portal_open == w.portal_open,
        struck(w, id, source).turret_clock == w.turret_clock,
        struck(w, id, source).player == w.player,
{
    let s = struck(w, id, source);
    lemma_flagged_keeps(w.entities, id);
    lemma_flagged_keeps(w.entities, source);
    lemma_flagged_keeps(w.flagged(source).entities, id);
    assert(same_ids(w.entities, s.entities));
    assert(s.ships.dom() =~= w.ships.dom());
    if w.wf() {
        lemma_wf_by_shape(w, s);
    }
}

/// The scan keeps the scene, the shape and the invariant.
pub proof fn lemma_collided_frame(w: WorldView, n: nat)
    requires
        n <= w.entities.len(),
    ensures
        same_scene(w, collided(w, n)),
        w.same_shape(collided(w, n)),
        w.wf() ==> collided(w, n).wf(),
        collided(w, n).next_id == w.next_id,
        collided(w, n).gravities == w.gravities,
        collided(w, n).dynamics == w.dynamics,
        collided(w, n).trails == w.trails,
        collided(w, n).predictables == w.predictables,
        collided(w, n).explosions == w.explosions,
        collided(w, n).rockets == w.rockets,
        collided(w, n).turrets == w.turrets,
        collided(w, n).locks == w.locks,
        collided(w, n).portal == w.portal,
        collided(w, n).portal_open == w.portal_open,
        collided(w, n).turret_clock == w.turret_clock,
        collided(w, n).player == w.player,
    decreases n,
{
    if n > 0 {
        lemma_collided_frame(w, (n - 1) as nat);
        let prev = collided(w, (n - 1) as nat);
        let id = w.entities[n - 1].id;
        match impact(w, id) {
            Some(source) => {
                lemma_struck_frame(prev, id, source);
                assert(same_ids(w.entities, struck(prev, id, source).entities));
            },
            None => {},
        }
    }
}

/// Each target queues two blasts at most.
pub proof fn lemma_wreckage_len(w: WorldView, n: nat)
    ensures
        wreckage(w, n).len() <= 2 * n,
    decreases n,
{
    if n > 0 {
        lemma_wreckage_len(w, (n - 1) as nat);
    }
}

/// Setting off blasts keeps the invariant and uses one id for each.
pub proof fn lemma_blasted(w: WorldView, queue: Seq<Blast>, k: nat)
    requires
        w.wf(),
        k <= queue.len(),
        w.next_id + k <= u64::MAX,
    ensures
        blasted(w, queue, k).wf(),
        blasted(w, queue, k).next_id == w.next_id + k,
    decreases k,
{
    if k > 0 {
        lemma_blasted(w, queue, (k - 1) as nat);
        lemma_spawned_wf(
            blasted(w, queue, (k - 1) as nat),
            explosion_parts(queue[k - 1].x, queue[k - 1].y, queue[k - 1].size, true),
        );
    }
}

impl World {
    /// The collider that reacts to `id` in this tick: the first in registry
    /// order, other than `id` itself, that `id` touches.
    pub fn find_impact(&self, id: u64) -> (found: Option<u64>)
        ensures
            found == impact(self@, id),
    {
        let target: CollisionTarget = match self.targets.get(id) {
            Some(t) => *t,
            None => {
                return None;
            },
        };
        let p: Position = match self.positions.get(id) {
            Some(p) => *p,
            None => {
                return None;
            },
        };
        let n: usize = self.registry.len();
        let mut j: usize = 0;
        while j < n
            invariant
                j <= n,
                n == self@.entities.len(),
                self@.targets.contains_key(id),
                self@.positions.contains_key(id),
                target == self@.targets[id],
                p == self@.positions[id],
                first_hit(self@, id, j as nat).is_none(),
            decreases n - j,
        {
            let e: Entity = self.registry.entity(j);
            if e.id != id {
                if let Some(c) = self.colliders.get(e.id) {
                    if let Some(cp) = self.positions.get(e.id) {
                        if touches(c.radius, cp.x, cp.y, target.radius, p.x, p.y) {
                            assert(hits(self@, id, e.id));
                            assert(first_hit(self@, id, (j + 1) as nat) == Some(e.id));
                            proof {
                                lemma_first_hit_stays(self@, id, (j + 1) as nat, n as nat);
                            }
                            return Some(e.id);
                        }
                    }
                }
            }
            assert(!hits(self@, id, e.id));
            j += 1;
        }
        None
    }

    /// Lets the collider `source` react to the target `id`, and queues the
    /// blasts that follow. Nothing happens unless both are placed and
    /// `source` is a collider.
    pub fn strike(&mut self, id: u64, source: u64, queue: &mut Vec<Blast>)
        ensures
            final(self)@ == struck(old(self)@, id, source),
            final(queue)@ == old(queue)@ + debris(old(self)@, id, source),
    {
        let c: ColliderSource = match self.colliders.get(source) {
            Some(c) => *c,
            None => {
                assert(queue@ =~= old(queue)@ + debris(old(self)@, id, source));
                return ;
            },
        };
        let p: Position = match self.positions.get(id) {
            Some(p) => *p,
            None => {
                assert(queue@ =~= old(queue)@ + debris(old(self)@, id, source));
                return ;
            },
        };
        let cp: Position = match self.positions.get(source) {
            Some(p) => *p,
            None => {
                assert(queue@ =~= old(queue)@ + debris(old(self)@, id, source));
                return ;
            },
        };
        match c.reaction {
            Reaction::Explosion { size, self_destructs } => {
                let own: Option<u32> = match self.colliders.get(id) {
                    Some(other) => match other.reaction {
                        Reaction::Explosion { size: s, self_destructs: d } => if d {
                            Some(s)
                        } else {
                            None
                        },
                        _ => None,
                    },
                    None => None,
                };
                assert(own == own_blast(self@, id));
                if let Some(s) = own {
                    queue.push(Blast { x: p.x, y: p.y, size: s });
                }
                if self_destructs {
                    queue.push(Blast { x: cp.x, y: cp.y, size });
                } else if own.is_none() {
                    queue.push(Blast { x: p.x, y: p.y, size });
                }
                assert(queue@ =~= old(queue)@ + debris(old(self)@, id, source));
                if self_destructs {
                    self.flag_destroy(source);
                }
                self.flag_destroy(id);
            },
            Reaction::FuelRefill { amount } => {
                let ship: Option<Ship> = match self.ships.get(id) {
                    Some(s) => Some(*s),
                    None => None,
                };
                if let Some(s) = ship {
                    let room: u64 = u64::MAX - s.fuel;
                    let fuel: u64 = if amount as u64 > room {
                        u64::MAX
                    } else {
                        s.fuel + amount as u64
                    };
                    self.ships.attach(
                        id,
                        Ship { thrust: s.thrust, empty_thrust: s.empty_thrust, fuel, ammo: s.ammo },
                    );
                    self.flag_destroy(source);
                    assert(self@ =~= struck(old(self)@, id, source));
                }
                assert(queue@ =~= old(queue)@ + debris(old(self)@, id, source));
            },
            Reaction::PortalTrigger => {
                if self.ships.contains(id) {
                    self.finished = true;
                }
                assert(queue@ =~= old(queue)@ + debris(old(self)@, id, source));
            },
            Reaction::Inert => {
                assert(queue@ =~= old(queue)@ + debris(old(self)@, id, source));
            },
        }
    }

    /// Tests every collision target against the colliders, lets the first
    /// collider that each touches react, and then sets off the blasts that
    /// were queued. No component is removed: what was hit is only flagged.
    pub fn step_collisions(&mut self)
        requires
            old(self).wf(),
            old(self)@.next_id + 2 * old(self)@.entities.len() <= u64::MAX,
        ensures
            final(self)@ == after_collisions(old(self)@),
            final(self).wf(),
    {
        let ghost start = self@;
        let n: usize = self.registry.len();
        let mut queue: Vec<Blast> = Vec::new();
        let mut i: usize = 0;
        while i < n
            invariant
                i <= n,
                n == start.entities.len(),
                start == old(self)@,
                self@ == collided(start, i as nat),
                queue@ == wreckage(start, i as nat),
            decreases n - i,
        {
            proof {
                lemma_collided_frame(start, i as nat);
            }
            let e: Entity = self.registry.entity(i);
            assert(e.id == start.entities[i as int].id);
            let found = self.find_impact(e.id);
            proof {
                lemma_first_hit_by_scene(start, self@, e.id, n as nat);
                lemma_first_hit(start, e.id, n as nat);
            }
            if let Some(source) = found {
                self.strike(e.id, source, &mut queue);
                proof {
                    lemma_debris_by_scene(start, collided(start, i as nat), e.id, source);
                }
            }
            i += 1;
        }
        proof {
            lemma_collided_frame(start, n as nat);
            lemma_wreckage_len(start, n as nat);
        }
        let ghost scanned = self@;
        let m: usize = queue.len();
        let mut k: usize = 0;
        while k < m
            invariant
                k <= m,
                m == queue@.len(),
                scanned.wf(),
                scanned.next_id + m <= u64::MAX,
                self@ == blasted(scanned, queue@, k as nat),
            decreases m - k,
        {
            proof {
                lemma_blasted(scanned, queue@, k as nat);
            }
            let b: Blast = queue[k];
            self.spawn_explosion(b.x, b.y, b.size, true);
            k += 1;
        }
        proof {
            lemma_blasted(scanned, queue@, m as nat);
        }
    }
}

/// Once a hit is found, testing more entities does not change it.
pub proof fn lemma_first_hit_stays(w: WorldView, id: u64, n: nat, m: nat)
    requires
        n <= m,
        first_hit(w, id, n).is_some(),
    ensures
        first_hit(w, id, m) == first_hit(w, id, n),
    decreases m,
{
    if n < m {
        lemma_first_hit_stays(w, id, n, (m - 1) as nat);
    }
}

/// Two states of the same scene queue the same blasts.
pub proof fn lemma_debris_by_scene(a: WorldView, b: WorldView, id: u64, source: u64)
    requires
        same_scene(a, b),
    ensures
        debris(a, id, source) == debris(b, id, source),
{
}


/// Setting off blasts takes nothing away: whatever a store held for an id,
/// it still holds it, unless the id was yet to be handed out.
pub proof fn lemma_blasted_keeps(w: WorldView, queue: Seq<Blast>, k: nat, id: u64)
    requires
        k <= queue.len(),
        w.next_id + k <= u64::MAX,
        id < w.next_id,
    ensures
        blasted(w, queue, k).next_id == w.next_id + k,
        holds_what(w, blasted(w, queue, k), id),
    decreases k,
{
    if k > 0 {
        lemma_blasted_keeps(w, queue, (k - 1) as nat, id);
    }
}

/// Whether `after` holds for `id` every component that `before` held for
/// it, unchanged but for what a ship has in its tank.
pub open spec fn holds_what(before: WorldView, after: WorldView, id: u64) -> bool {
    &&& before.positions.contains_key(id) ==> after.positions.contains_key(id)
        && after.positions[id] == before.positions[id]
    &&& before.gravities.contains_key(id) ==> after.gravities.contains_key(id)
        && after.gravities[id] == before.gravities[id]
    &&& before.dynamics.contains_key(id) ==> after.dynamics.contains_key(id)
        && after.dynamics[id] == before.dynamics[id]
    &&& before.colliders.contains_key(id) ==> after.colliders.contains_key(id)
        && after.colliders[id] == before.colliders[id]
    &&& before.targets.contains_key(id) ==> after.targets.contains_key(id) && after.targets[id]
        == before.targets[id]
    &&& before.trails.contains_key(id) ==> after.trails.contains_key(id) && after.trails[id]
        == before.trails[id]
    &&& before.predictables.contains_key(id) ==> after.predictables.contains_key(id)
        && after.predictables[id] == before.predictables[id]
    &&& before.ships.contains_key(id) ==> after.ships.contains_key(id)
    &&& before.explosions.contains_key(id) ==> after.explosions.contains_key(id)
        && after.explosions[id] == before.explosions[id]
    &&& before.rockets.contains_key(id) ==> after.rockets.contains_key(id) && after.rockets[id]
        == before.rockets[id]
    &&& before.turrets.contains_key(id) ==> after.turrets.contains_key(id) && after.turrets[id]
        == before.turrets[id]
}

/// Destruction is deferred: the collision step flags what was hit and
/// removes nothing. Every component of every entity, hit or not, is still
/// there after it, and every entity is still in the registry.
pub proof fn lemma_collisions_remove_nothing(w: WorldView, id: u64)
    requires
        w.wf(),
        w.next_id + 2 * w.entities.len() <= u64::MAX,
        id < w.next_id,
    ensures
        holds_what(w, after_collisions(w), id),
        crate::registry::listed(w.entities, id) ==> crate::registry::listed(
            after_collisions(w).entities,
            id,
        ),
{
    let n = w.entities.len();
    let c = collided(w, n);
    let q = wreckage(w, n);
    lemma_collided_frame(w, n);
    lemma_wreckage_len(w, n);
    lemma_blasted_keeps(c, q, q.len(), id);
    assert(c.ships.dom().contains(id) == w.ships.dom().contains(id));
    lemma_blasted_entities(c, q, q.len());
    if crate::registry::listed(w.entities, id) {
        let i = choose|i: int| 0 <= i < w.entities.len() && (#[trigger] w.entities[i]).id == id;
        assert(c.entities[i].id == id);
        assert(after_collisions(w).entities[i] == c.entities[i]);
    }
}

/// Setting off blasts leaves the entities that were there where they were.
pub proof fn lemma_blasted_entities(w: WorldView, queue: Seq<Blast>, k: nat)
    requires
        k <= queue.len(),
    ensures
        blasted(w, queue, k).entities.len() == w.entities.len() + k,
        forall|i: int|
            0 <= i < w.entities.len() ==> (#[trigger] blasted(w, queue, k).entities[i])
                == w.entities[i],
    decreases k,
{
    if k > 0 {
        lemma_blasted_entities(w, queue, (k - 1) as nat);
    }
}

} // verus!
