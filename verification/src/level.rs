//! What the layout of a level rests on: the test that keeps a new thing
//! clear of the colliders that are already placed, the verdict on a
//! candidate place, and the numbers of things in a level.

use crate::model::WorldView;
use crate::registry::Entity;
use crate::scalar::{delta, length_sq, norm_sq};
use crate::world::World;
use vstd::prelude::*;

verus! {

/// Whether a circle of radius `radius` at `(x, y)` overlaps the collider
/// `id`: the square of the sum of the radii exceeds the squared distance of
/// the centers. Circles that only touch do not overlap.
pub open spec fn overlaps(w: WorldView, id: u64, x: int, y: int, radius: u32) -> bool {
    &&& w.colliders.contains_key(id)
    &&& w.positions.contains_key(id)
    &&& (w.colliders[id].radius + radius) * (w.colliders[id].radius + radius) > norm_sq(
        w.positions[id].x - x,
        w.positions[id].y - y,
    )
}

/// Whether a circle of radius `radius` at `(x, y)` overlaps the collider of
/// one of the first `n` entities.
pub open spec fn crowded(w: WorldView, x: int, y: int, radius: u32, n: nat) -> bool
    decreases n,
{
    n > 0 && (crowded(w, x, y, radius, (n - 1) as nat) || overlaps(
        w,
        w.entities[n - 1].id,
        x,
        y,
        radius,
    ))
}

/// The place is crowded exactly if some live collider overlaps the circle.
pub proof fn lemma_crowded(w: WorldView, x: int, y: int, radius: u32, n: nat)
    requires
        n <= w.entities.len(),
    ensures
        crowded(w, x, y, radius, n) <==> exists|j: int|
            0 <= j < n && overlaps(w, (#[trigger] w.entities[j]).id, x, y, radius),
    decreases n,
{
    if n > 0 {
        lemma_crowded(w, x, y, radius, (n - 1) as nat);
        if crowded(w, x, y, radius, n) {
            if crowded(w, x, y, radius, (n - 1) as nat) {
                let j = choose|j: int|
                    0 <= j < n - 1 && overlaps(w, (#[trigger] w.entities[j]).id, x, y, radius);
                assert(overlaps(w, w.entities[j].id, x, y, radius));
            } else {
                assert(overlaps(w, w.entities[n - 1].id, x, y, radius));
            }
        }
        if exists|j: int| 0 <= j < n && overlaps(w, (#[trigger] w.entities[j]).id, x, y, radius) {
            let j = choose|j: int|
                0 <= j < n && overlaps(w, (#[trigger] w.entities[j]).id, x, y, radius);
            if j < n - 1 {
                assert(overlaps(w, w.entities[j].id, x, y, radius));
            }
        }
    }
}

/// What to do with a candidate place.
#[derive(Clone, Copy, Debug, PartialEq, Eq, Structural)]
pub enum Verdict {
    /// The place is free: put the thing there.
    Accept,
    /// The place is taken: draw another, with so many tries left.
    Retry { tries_left: u32 },
    /// The place is taken and the tries are used up: placement has failed.
    GiveUp,
}

/// The verdict on a place that is free or not, with `tries` tries left,
/// this one included.
pub open spec fn verdict(free: bool, tries: u32) -> Verdict {
    if free {
        Verdict::Accept
    } else if tries > 1 {
        Verdict::Retry { tries_left: (tries - 1) as u32 }
    } else {
        Verdict::GiveUp
    }
}

/// The number of turrets in the level `level`: one, and two more with each
/// level.
pub open spec fn turrets_in(level: u32) -> int {
    1 + 2 * level
}

/// The number of fuel pickups in the level `level`: ninety in the first,
/// and fewer as the levels go on.
pub open spec fn pickups_in(level: u32) -> int {
    90int / (level + 1)
}

/// The number of locks in the level `level`: one more than the level.
pub open spec fn locks_in(level: u32) -> int {
    level + 1
}

/// The number of turrets in a level.
pub fn turret_count(level: u32) -> (n: u64)
    ensures
        n == turrets_in(level),
{
    1 + 2 * (level as u64)
}

/// The number of fuel pickups in a level.
pub fn pickup_count(level: u32) -> (n: u64)
    ensures
        n == pickups_in(level),
{
    90 / (level as u64 + 1)
}

/// The number of locks in a level.
pub fn lock_count(level: u32) -> (n: u64)
    ensures
        n == locks_in(level),
{
    level as u64 + 1
}

impl World {
    /// Whether a circle of radius `radius` at `(x, y)` is clear of every
    /// live collider.
    pub fn is_free(&self, x: i32, y: i32, radius: u32) -> (free: bool)
        ensures
            free == !crowded(self@, x as int, y as int, radius, self@.entities.len()),
    {
        let n: usize = self.registry.len();
        let mut any: bool = false;
        let mut i: usize = 0;
        while i < n
            invariant
                i <= n,
                n == self@.entities.len(),
                any == crowded(self@, x as int, y as int, radius, i as nat),
            decreases n - i,
        {
            let e: Entity = self.registry.entity(i);
            if let Some(c) = self.colliders.get(e.id) {
                if let Some(at) = self.positions.get(e.id) {
                    let sum: u128 = c.radius as u128 + radius as u128;
                    assert(sum * sum <= 0x2_0000_0000 * 0x2_0000_0000) by (nonlinear_arith)
                        requires
                            sum <= 0x2_0000_0000,
                    ;
                    let d2: u128 = length_sq(delta(at.x, x), delta(at.y, y));
                    if sum * sum > d2 {
                        any = true;
                    }
                }
            }
            i += 1;
        }
        !any
    }

    /// Judges a candidate place for a thing of radius `radius`, with
    /// `tries` tries left, this one included.
    pub fn judge(&self, x: i32, y: i32, radius: u32, tries: u32) -> (v: Verdict)
        ensures
            v == verdict(
                !crowded(self@, x as int, y as int, radius, self@.entities.len()),
                tries,
            ),
    {
        if self.is_free(x, y, radius) {
            Verdict::Accept
        } else if tries > 1 {
            Verdict::Retry { tries_left: tries - 1 }
        } else {
            Verdict::GiveUp
        }
    }
}

} // verus!
