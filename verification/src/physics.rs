//! The movement step: one explicit Euler step per tick under gravity and the
//! external acceleration.

use crate::components::{Dynamics, Position};
use crate::gravity::{field_at, gravity_at};
use crate::model::{lemma_wf_by_shape, WorldView};
use crate::registry::Entity;
use crate::scalar::{add_sat, clamp, scale, scaled};
use crate::world::World;
use vstd::prelude::*;

verus! {

/// The velocity `v` after the acceleration `a` has acted for `dt`
/// milliseconds.
pub open spec fn advanced(v: int, a: int, dt: int) -> int {
    clamp(v + scaled(a, dt))
}

/// The state after the entity `id` has taken its step of `dt` milliseconds:
/// its acceleration is the field at its place, itself left out, plus its
/// external acceleration; its velocity advances by it, and its position by
/// the new velocity. An entity without dynamics or without a position stays.
pub open spec fn integrated(w: WorldView, id: u64, dt: int) -> WorldView {
    if w.dynamics.contains_key(id) && w.positions.contains_key(id) {
        let d = w.dynamics[id];
        let p = w.positions[id];
        let g = field_at(w.entities, w.gravities, w.positions, p.x as int, p.y as int, Some(id));
        let ax = clamp(g.0 + d.external_accel_x);
        let ay = clamp(g.1 + d.external_accel_y);
        let vx = advanced(d.velocity_x as int, ax, dt);
        let vy = advanced(d.velocity_y as int, ay, dt);
        WorldView {
            dynamics: w.dynamics.insert(
                id,
                Dynamics { velocity_x: vx as i32, velocity_y: vy as i32, ..d },
            ),
            positions: w.positions.insert(
                id,
                Position {
                    x: advanced(p.x as int, vx, dt) as i32,
                    y: advanced(p.y as int, vy, dt) as i32,
                    ..p
                },
            ),
            ..w
        }
    } else {
        w
    }
}

/// The state after the first `n` entities of the registry have taken their
/// step, one after the other.
pub open spec fn moved(w: WorldView, dt: int, n: nat) -> WorldView
    decreases n,
{
    if n == 0 {
        w
    } else {
        integrated(moved(w, dt, (n - 1) as nat), w.entities[n - 1].id, dt)
    }
}

/// A step changes no entity, no flag and no component but positions and
/// dynamics, and those on the ids that had them.
pub proof fn lemma_moved_frame(w: WorldView, dt: int, n: nat)
    ensures
        moved(w, dt, n) == (WorldView {
            positions: moved(w, dt, n).positions,
            dynamics: moved(w, dt, n).dynamics,
            ..w
        }),
        moved(w, dt, n).positions.dom() == w.positions.dom(),
        moved(w, dt, n).dynamics.dom() == w.dynamics.dom(),
        w.same_shape(moved(w, dt, n)),
    decreases n,
{
    if n > 0 {
        lemma_moved_frame(w, dt, (n - 1) as nat);
        let m = moved(w, dt, (n - 1) as nat);
        let id = w.entities[n - 1].id;
        let r = integrated(m, id, dt);
        assert(r.positions.dom() =~= m.positions.dom());
        assert(r.dynamics.dom() =~= m.dynamics.dom());
    }
}

/// An entity that carries no dynamics is not moved.
pub proof fn lemma_moved_keeps_static(w: WorldView, dt: int, n: nat, id: u64)
    requires
        !w.dynamics.contains_key(id),
        w.positions.contains_key(id),
    ensures
        moved(w, dt, n).positions[id] == w.positions[id],
    decreases n,
{
    if n > 0 {
        lemma_moved_keeps_static(w, dt, (n - 1) as nat, id);
        lemma_moved_frame(w, dt, (n - 1) as nat);
    }
}

impl World {
    /// Lets every entity with dynamics take one Euler step of `dt`
    /// milliseconds, in registry order.
    pub fn step_movement(&mut self, dt: u32)
        requires
            old(self).wf(),
        ensures
            final(self)@ == moved(old(self)@, dt as int, old(self)@.entities.len()),
            final(self).wf(),
    {
        let n: usize = self.registry.len();
        let mut i: usize = 0;
        while i < n
            invariant
                i <= n,
                n == old(self)@.entities.len(),
                self@ == moved(old(self)@, dt as int, i as nat),
            decreases n - i,
        {
            proof {
                lemma_moved_frame(old(self)@, dt as int, i as nat);
            }
            let e: Entity = self.registry.entity(i);
            let found: Option<(Dynamics, Position)> = match self.dynamics.get(e.id) {
                Some(d) => match self.positions.get(e.id) {
                    Some(p) => Some((*d, *p)),
                    None => None,
                },
                None => None,
            };
            if let Some((d, p)) = found {
                let g = gravity_at(
                    &self.registry,
                    &self.gravities,
                    &self.positions,
                    p.x,
                    p.y,
                    Some(e.id),
                );
                let ax: i32 = add_sat(g.0, d.external_accel_x as i128);
                let ay: i32 = add_sat(g.1, d.external_accel_y as i128);
                let vx: i32 = add_sat(d.velocity_x, scale(ax, dt as i64));
                let vy: i32 = add_sat(d.velocity_y, scale(ay, dt as i64));
                let x: i32 = add_sat(p.x, scale(vx, dt as i64));
                let y: i32 = add_sat(p.y, scale(vy, dt as i64));
                let ghost before = self@;
                self.dynamics.attach(
                    e.id,
                    Dynamics {
                        velocity_x: vx,
                        velocity_y: vy,
                        external_accel_x: d.external_accel_x,
                        external_accel_y: d.external_accel_y,
                    },
                );
                self.positions.attach(e.id, Position { x, y, heading: p.heading });
                assert(self@ =~= integrated(before, e.id, dt as int));
            }
            i += 1;
        }
        proof {
            lemma_moved_frame(old(self)@, dt as int, n as nat);
            lemma_wf_by_shape(old(self)@, self@);
        }
    }
}

} // verus!
