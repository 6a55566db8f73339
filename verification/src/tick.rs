//! One tick of the simulation: the systems, each run to its end before the
//! next begins, always in the same order, and the sweep last.

use crate::collision::{
    after_collisions, collided, lemma_blasted, lemma_collided_frame, lemma_wreckage_len, wreckage,
};
use crate::explosion::{blazed, lemma_blazed_frame};
use crate::model::WorldView;
use crate::physics::{lemma_moved_frame, moved};
use crate::predict::{lemma_predicted_frame, predicted};
use crate::rocket::{lemma_steered_frame, steered};
use crate::sweep::swept;
use crate::trail::{lemma_traced_frame, traced};
use crate::turret::turrets_fired;
use crate::world::World;
use vstd::prelude::*;

verus! {

/// The state after the systems that run before the turrets: movement,
/// collisions, forecasts, trails.
pub open spec fn before_turrets(w: WorldView, dt: int) -> WorldView {
    let a = moved(w, dt, w.entities.len());
    let b = after_collisions(a);
    let c = predicted(b, dt, b.entities.len());
    traced(c, c.entities.len())
}

/// The state after one tick of `dt` milliseconds: movement, collisions,
/// forecasts, trails, turrets, rockets, blasts, and then the sweep.
pub open spec fn ticked(w: WorldView, dt: int, shot_radius: u32) -> WorldView {
    let d = before_turrets(w, dt);
    let e = turrets_fired(d, dt, shot_radius);
    let f = steered(e, e.entities.len());
    let g = blazed(f, dt, f.entities.len());
    swept(g)
}

/// Whether the world has the ids that one tick may use: two for each
/// entity, for the blasts of its collision, and two for a turret's
/// projectile and its trail.
pub open spec fn has_room(w: WorldView) -> bool {
    w.next_id + 2 * w.entities.len() + 2 < u64::MAX
}

impl World {
    /// Whether the world has the ids that one tick may use.
    pub fn room_for_tick(&self) -> (b: bool)
        ensures
            b == has_room(self@),
    {
        let n: u128 = self.registry.len() as u128;
        let next: u128 = self.registry.next_id as u128;
        next + 2 * n + 2 < u64::MAX as u128
    }

    /// Advances the simulation by `dt` milliseconds. A projectile that a
    /// turret launches has the collision radius `shot_radius`.
    pub fn tick(&mut self, dt: u32, shot_radius: u32)
        requires
            old(self).wf(),
            has_room(old(self)@),
        ensures
            final(self)@ == ticked(old(self)@, dt as int, shot_radius),
            final(self).wf(),
    {
        let ghost w = self@;
        proof {
            lemma_moved_frame(w, dt as int, w.entities.len());
        }
        self.step_movement(dt);
        let ghost a = self@;
        proof {
            lemma_collided_frame(a, a.entities.len());
            lemma_wreckage_len(a, a.entities.len());
            lemma_blasted(
                collided(a, a.entities.len()),
                wreckage(a, a.entities.len()),
                wreckage(a, a.entities.len()).len(),
            );
        }
        self.step_collisions();
        let ghost b = self@;
        proof {
            lemma_predicted_frame(b, dt as int, b.entities.len());
        }
        self.step_predictions(dt);
        let ghost c = self@;
        proof {
            lemma_traced_frame(c, c.entities.len());
        }
        self.step_trails();
        self.step_turrets(dt, shot_radius);
        self.step_rockets();
        self.step_explosions(dt);
        self.sweep();
    }
}


/// The state as the sweep finds it: after every system of the tick but the
/// sweep.
pub open spec fn before_sweep(w: WorldView, dt: int, shot_radius: u32) -> WorldView {
    let d = before_turrets(w, dt);
    let e = turrets_fired(d, dt, shot_radius);
    let f = steered(e, e.entities.len());
    blazed(f, dt, f.entities.len())
}

/// Deferred destruction, over the whole tick: no system but the sweep
/// takes a component away. Whatever is flagged during the tick can still be
/// looked up by the systems that run after, until the sweep; its position
/// in particular is still there to be read.
pub proof fn lemma_components_outlive_systems(w: WorldView, dt: int, shot_radius: u32, id: u64)
    requires
        w.wf(),
        has_room(w),
        id < w.next_id,
    ensures
        before_sweep(w, dt, shot_radius).keeps(w, id),
        before_sweep(w, dt, shot_radius).next_id >= w.next_id,
{
    let a = moved(w, dt, w.entities.len());
    lemma_moved_frame(w, dt, w.entities.len());
    assert(a.positions.dom().contains(id) == w.positions.dom().contains(id));
    assert(a.dynamics.dom().contains(id) == w.dynamics.dom().contains(id));
    assert(a.keeps(w, id));
    crate::collision::lemma_collisions_remove_nothing(a, id);
    let b = after_collisions(a);
    lemma_collided_frame(a, a.entities.len());
    lemma_wreckage_len(a, a.entities.len());
    crate::collision::lemma_blasted_keeps(
        collided(a, a.entities.len()),
        wreckage(a, a.entities.len()),
        wreckage(a, a.entities.len()).len(),
        id,
    );
    assert(b.keeps(w, id));
    let c = predicted(b, dt, b.entities.len());
    lemma_predicted_frame(b, dt, b.entities.len());
    crate::predict::lemma_predicted_keeps(b, dt, b.entities.len());
    assert(c.predictables.dom().contains(id) == b.predictables.dom().contains(id));
    assert(c.keeps(w, id));
    let d = traced(c, c.entities.len());
    lemma_traced_frame(c, c.entities.len());
    assert(d.trails.dom().contains(id) == c.trails.dom().contains(id));
    assert(d.keeps(w, id));
    let e = turrets_fired(d, dt, shot_radius);
    crate::turret::lemma_turrets_fired_keeps(d, dt, shot_radius, id);
    assert(e.keeps(w, id));
    let f = steered(e, e.entities.len());
    lemma_steered_frame(e, e.entities.len());
    assert(f.positions.dom().contains(id) == e.positions.dom().contains(id));
    assert(f.dynamics.dom().contains(id) == e.dynamics.dom().contains(id));
    assert(f.rockets.dom().contains(id) == e.rockets.dom().contains(id));
    assert(f.keeps(w, id));
    let g = blazed(f, dt, f.entities.len());
    lemma_blazed_frame(f, dt, f.entities.len());
    assert(g.explosions.dom().contains(id) == f.explosions.dom().contains(id));
    assert(g.colliders.dom().contains(id) == f.colliders.dom().contains(id));
    assert(g.keeps(w, id));
}

/// After the tick nothing is held anywhere for an id that the sweep found
/// flagged, and the id is no longer live.
pub proof fn lemma_flagged_gone_after_tick(w: WorldView, dt: int, shot_radius: u32, id: u64)
    requires
        crate::registry::listed_pending(before_sweep(w, dt, shot_radius).entities, id),
    ensures
        ticked(w, dt, shot_radius).absent_everywhere(id),
        before_sweep(w, dt, shot_radius).wf() ==> !crate::registry::listed(
            ticked(w, dt, shot_radius).entities,
            id,
        ),
{
    crate::sweep::lemma_swept_removes(before_sweep(w, dt, shot_radius), id);
}

} // verus!
