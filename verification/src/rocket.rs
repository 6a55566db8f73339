//! The guidance step: each rocket turns toward its target, if it has one
//! that still exists, and thrusts against its heading.

use crate::aim::{heading_along, heading_of, thrust_against, thrust_of};
use crate::components::{Dynamics, Heading, Position, Rocket};
use crate::model::{lemma_wf_by_shape, WorldView};
use crate::registry::Entity;
use crate::scalar::delta;
use crate::world::World;
use vstd::prelude::*;

verus! {

/// The state with the external acceleration of `id`, if it has dynamics, set
/// to the thrust of a drive of strength `thrust` against the heading `h`.
pub open spec fn thrusting(w: WorldView, id: u64, h: Heading, thrust: int) -> WorldView {
    if w.dynamics.contains_key(id) {
        WorldView {
            dynamics: w.dynamics.insert(
                id,
                Dynamics {
                    external_accel_x: thrust_against(h, thrust).0 as i32,
                    external_accel_y: thrust_against(h, thrust).1 as i32,
                    ..w.dynamics[id]
                },
            ),
            ..w
        }
    } else {
        w
    }
}

/// The state after the rocket of the entity `id`, if it has one, was
/// guided. A rocket whose target has no position forgets its target, and
/// leaves its thrust as it was for this tick; it is not destroyed. One with
/// a target turns to it; one without keeps its heading; both then thrust.
pub open spec fn guided(w: WorldView, id: u64) -> WorldView {
    if !(w.rockets.contains_key(id) && w.positions.contains_key(id) && w.dynamics.contains_key(
        id,
    )) {
        w
    } else {
        let r = w.rockets[id];
        let at = w.positions[id];
        match r.target {
            Some(t) => if w.positions.contains_key(t) {
                let h = heading_along(at.x - w.positions[t].x, at.y - w.positions[t].y);
                thrusting(
                    WorldView {
                        positions: w.positions.insert(id, Position { heading: h, ..at }),
                        ..w
                    },
                    id,
                    h,
                    r.thrust as int,
                )
            } else {
                WorldView { rockets: w.rockets.insert(id, Rocket { target: None, ..r }), ..w }
            },
            None => thrusting(w, id, at.heading, r.thrust as int),
        }
    }
}

/// The state after the rockets among the first `n` entities were guided.
pub open spec fn steered(w: WorldView, n: nat) -> WorldView
    decreases n,
{
    if n == 0 {
        w
    } else {
        guided(steered(w, (n - 1) as nat), w.entities[n - 1].id)
    }
}

/// The guidance step keeps the entities, the shape of the state and the
/// invariant, and changes nothing but headings, external accelerations and
/// forgotten targets.
pub proof fn lemma_steered_frame(w: WorldView, n: nat)
    requires
        n <= w.entities.len(),
    ensures
        w.same_shape(steered(w, n)),
        w.wf() ==> steered(w, n).wf(),
        steered(w, n) == (WorldView {
            positions: steered(w, n).positions,
            dynamics: steered(w, n).dynamics,
            rockets: steered(w, n).rockets,
            ..w
        }),
    decreases n,
{
    if n > 0 {
        lemma_steered_frame(w, (n - 1) as nat);
        let prev = steered(w, (n - 1) as nat);
        let id = w.entities[n - 1].id;
        let next = guided(prev, id);
        assert(next.positions.dom() =~= prev.positions.dom());
        assert(next.dynamics.dom() =~= prev.dynamics.dom());
        assert(next.rockets.dom() =~= prev.rockets.dom());
        if w.wf() {
            lemma_wf_by_shape(prev, next);
        }
    }
}

impl World {
    /// Sets the external acceleration of `id`, if it has dynamics, to the
    /// thrust of a drive of strength `thrust` against the heading `h`.
    pub fn set_thrust(&mut self, id: u64, h: Heading, thrust: i32)
        ensures
            final(self)@ == thrusting(old(self)@, id, h, thrust as int),
    {
        let d: Dynamics = match self.dynamics.get(id) {
            Some(d) => *d,
            None => {
                return ;
            },
        };
        let a = thrust_of(h, thrust);
        self.dynamics.attach(
            id,
            Dynamics {
                velocity_x: d.velocity_x,
                velocity_y: d.velocity_y,
                external_accel_x: a.0,
                external_accel_y: a.1,
            },
        );
        assert(self@ =~= thrusting(old(self)@, id, h, thrust as int));
    }

    /// Guides the rocket of the entity `id`, if it has one.
    pub fn guide(&mut self, id: u64)
        ensures
            final(self)@ == guided(old(self)@, id),
    {
        let r: Rocket = match self.rockets.get(id) {
            Some(r) => *r,
            None => {
                return ;
            },
        };
        let at: Position = match self.positions.get(id) {
            Some(p) => *p,
            None => {
                return ;
            },
        };
        if !self.dynamics.contains(id) {
            return ;
        }
        match r.target {
            Some(t) => {
                let seen: Option<Position> = match self.positions.get(t) {
                    Some(p) => Some(*p),
                    None => None,
                };
                match seen {
                    Some(tp) => {
                        let h = heading_of(delta(at.x, tp.x), delta(at.y, tp.y));
                        self.positions.attach(id, Position { x: at.x, y: at.y, heading: h });
                        self.set_thrust(id, h, r.thrust);
                        assert(self@ =~= guided(old(self)@, id));
                    },
                    None => {
                        self.rockets.attach(id, Rocket { thrust: r.thrust, target: None });
                        assert(self@ =~= guided(old(self)@, id));
                    },
                }
            },
            None => {
                self.set_thrust(id, at.heading, r.thrust);
            },
        }
    }

    /// Guides every rocket, in registry order.
    pub fn step_rockets(&mut self)
        requires
            old(self).wf(),
        ensures
            final(self)@ == steered(old(self)@, old(self)@.entities.len()),
            final(self).wf(),
    {
        let n: usize = self.registry.len();
        let mut i: usize = 0;
        while i < n
            invariant
                i <= n,
                n == old(self)@.entities.len(),
                self@ == steered(old(self)@, i as nat),
            decreases n - i,
        {
            proof {
                lemma_steered_frame(old(self)@, i as nat);
            }
            let e: Entity = self.registry.entity(i);
            self.guide(e.id);
            i += 1;
        }
        proof {
            lemma_steered_frame(old(self)@, n as nat);
        }
    }
}

} // verus!
