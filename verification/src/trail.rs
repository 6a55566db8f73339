//! The trail step: each trail samples the position of its target into a
//! bounded buffer, newest point first.

use crate::components::{Point, Position, Trail};
use crate::model::{lemma_wf_by_shape, TrailView, WorldView};
use crate::registry::{lemma_flagged_keeps, Entity};
use crate::scalar::{abs_wide, delta, magnitude};
use crate::world::World;
use vstd::prelude::*;

verus! {

/// Whether `(x, y)` is more than `spacing` away from `a` on either axis.
pub open spec fn apart(a: Point, x: int, y: int, spacing: u32) -> bool {
    magnitude(a.x - x) > spacing || magnitude(a.y - y) > spacing
}

/// Whether sampling `(x, y)` gives the trail a new point, rather than move
/// its newest: the buffer is short, or the target has moved away from the
/// newest point but one.
pub open spec fn extends(t: TrailView, x: int, y: int) -> bool {
    t.points.len() < 3 || apart(t.points[1], x, y, t.min_spacing)
}

/// The trail after it has sampled `(x, y)`. A new point goes in front, and
/// the oldest leaves once the buffer is over its bound; otherwise the newest
/// point is overwritten.
pub open spec fn sampled(t: TrailView, x: i32, y: i32) -> TrailView {
    let point = Point { x, y };
    if extends(t, x as int, y as int) {
        let grown = t.points.insert(0, point);
        TrailView {
            points: if grown.len() > t.max_len {
                grown.drop_last()
            } else {
                grown
            },
            ..t
        }
    } else {
        TrailView { points: t.points.update(0, point), ..t }
    }
}

/// The state after the trail of the entity `id`, if it has one, has sampled
/// its target; a trail whose target has no position flags itself.
pub open spec fn followed(w: WorldView, id: u64) -> WorldView {
    if !w.trails.contains_key(id) {
        w
    } else if w.positions.contains_key(w.trails[id].target) {
        let at = w.positions[w.trails[id].target];
        WorldView { trails: w.trails.insert(id, sampled(w.trails[id], at.x, at.y)), ..w }
    } else {
        w.flagged(id)
    }
}

/// The state after the trails among the first `n` entities have sampled.
pub open spec fn traced(w: WorldView, n: nat) -> WorldView
    decreases n,
{
    if n == 0 {
        w
    } else {
        followed(traced(w, (n - 1) as nat), w.entities[n - 1].id)
    }
}

/// Whether the buffer of a trail is within its bound.
pub open spec fn bounded(t: TrailView) -> bool {
    t.points.len() <= t.max_len
}

/// Whether each stored point is apart from the next older one, the newest
/// point aside, which still moves.
pub open spec fn spaced(t: TrailView) -> bool {
    forall|i: int|
        1 <= i < t.points.len() - 1 ==> apart(
            #[trigger] t.points[i],
            t.points[i + 1].x as int,
            t.points[i + 1].y as int,
            t.min_spacing,
        )
}

/// Sampling never takes a trail over its bound, and a trail over its bound
/// does not grow.
pub proof fn lemma_sampled_bounded(t: TrailView, x: i32, y: i32)
    ensures
        bounded(t) ==> bounded(sampled(t, x, y)),
        sampled(t, x, y).points.len() <= t.points.len() || sampled(t, x, y).points.len()
            <= t.max_len,
        sampled(t, x, y).max_len == t.max_len,
        sampled(t, x, y).min_spacing == t.min_spacing,
        sampled(t, x, y).target == t.target,
{
}

/// Sampling keeps the stored points apart, if the point that stops being
/// the newest is apart from the one before it. Where the newest point only
/// moves, nothing more is asked.
pub proof fn lemma_sampled_spaced(t: TrailView, x: i32, y: i32)
    requires
        spaced(t),
        extends(t, x as int, y as int) && t.points.len() >= 2 ==> apart(
            t.points[0],
            t.points[1].x as int,
            t.points[1].y as int,
            t.min_spacing,
        ),
    ensures
        spaced(sampled(t, x, y)),
{
    let s = sampled(t, x, y);
    assert forall|i: int| 1 <= i < s.points.len() - 1 implies apart(
        #[trigger] s.points[i],
        s.points[i + 1].x as int,
        s.points[i + 1].y as int,
        s.min_spacing,
    ) by {
        if extends(t, x as int, y as int) {
            assert(s.points[i] == t.points[i - 1]);
            assert(s.points[i + 1] == t.points[i]);
            if i >= 2 {
                assert(apart(
                    t.points[i - 1],
                    t.points[i].x as int,
                    t.points[i].y as int,
                    t.min_spacing,
                ));
            }
        } else {
            assert(s.points[i] == t.points[i]);
            assert(s.points[i + 1] == t.points[i + 1]);
        }
    }
}

/// A new point is only stored away from the newest point but one: after a
/// sample that extended a buffer of three points or more, the new point and
/// the point two places behind it are apart.
pub proof fn lemma_sampled_away(t: TrailView, x: i32, y: i32)
    requires
        t.points.len() >= 3,
        t.max_len >= 3,
        extends(t, x as int, y as int),
    ensures
        sampled(t, x, y).points[0] == (Point { x, y }),
        apart(sampled(t, x, y).points[2], x as int, y as int, t.min_spacing),
{
}

/// The trail step keeps the shape of the state and the invariant, and
/// changes nothing but trails and flags.
pub proof fn lemma_traced_frame(w: WorldView, n: nat)
    requires
        n <= w.entities.len(),
    ensures
        w.same_shape(traced(w, n)),
        w.wf() ==> traced(w, n).wf(),
        traced(w, n).trails.dom() == w.trails.dom(),
        traced(w, n) == (WorldView {
            entities: traced(w, n).entities,
            trails: traced(w, n).trails,
            ..w
        }),
    decreases n,
{
    if n > 0 {
        lemma_traced_frame(w, (n - 1) as nat);
        let prev = traced(w, (n - 1) as nat);
        let id = w.entities[n - 1].id;
        lemma_flagged_keeps(prev.entities, id);
        assert(followed(prev, id).trails.dom() =~= prev.trails.dom());
        if w.wf() {
            lemma_wf_by_shape(prev, followed(prev, id));
        }
    }
}

/// After the trail step every trail that was within its bound still is.
pub proof fn lemma_traced_bounded(w: WorldView, n: nat, id: u64)
    requires
        n <= w.entities.len(),
        w.trails.contains_key(id),
        bounded(w.trails[id]),
    ensures
        traced(w, n).trails.contains_key(id),
        bounded(traced(w, n).trails[id]),
    decreases n,
{
    if n > 0 {
        lemma_traced_bounded(w, (n - 1) as nat, id);
        let prev = traced(w, (n - 1) as nat);
        let turn = w.entities[n - 1].id;
        if turn == id && prev.positions.contains_key(prev.trails[id].target) {
            let at = prev.positions[prev.trails[id].target];
            lemma_sampled_bounded(prev.trails[id], at.x, at.y);
        }
    }
}

/// Whether `(x, y)` is more than `spacing` away from `a` on either axis.
pub fn is_apart(a: Point, x: i32, y: i32, spacing: u32) -> (b: bool)
    ensures
        b == apart(a, x as int, y as int, spacing),
{
    let dx: u128 = abs_wide(delta(a.x, x));
    let dy: u128 = abs_wide(delta(a.y, y));
    dx > spacing as u128 || dy > spacing as u128
}

/// Samples `(x, y)` into the trail.
pub fn sample(trail: &mut Trail, x: i32, y: i32)
    ensures
        final(trail)@ == sampled(old(trail)@, x, y),
{
    let point = Point { x, y };
    if trail.points.len() < 3 || is_apart(trail.points[1], x, y, trail.min_spacing) {
        trail.points.insert(0, point);
        if trail.points.len() > trail.max_len {
            trail.points.pop();
        }
        assert(trail@ =~= sampled(old(trail)@, x, y));
    } else {
        trail.points.set(0, point);
        assert(trail@ =~= sampled(old(trail)@, x, y));
    }
}

impl World {
    /// Lets the trail of the entity `id`, if it has one, sample its target.
    pub fn follow(&mut self, id: u64)
        ensures
            final(self)@ == followed(old(self)@, id),
    {
        let mut trail: Trail = match self.trails.remove(id) {
            Some(t) => t,
            None => {
                assert(self@ =~= old(self)@);
                return ;
            },
        };
        let at: Option<Position> = match self.positions.get(trail.target) {
            Some(p) => Some(*p),
            None => None,
        };
        match at {
            Some(p) => {
                sample(&mut trail, p.x, p.y);
                self.trails.attach(id, trail);
                assert(self@ =~= followed(old(self)@, id));
            },
            None => {
                self.trails.attach(id, trail);
                self.flag_destroy(id);
                assert(self@ =~= followed(old(self)@, id));
            },
        }
    }

    /// Lets every trail sample its target, in registry order.
    pub fn step_trails(&mut self)
        requires
            old(self).wf(),
        ensures
            final(self)@ == traced(old(self)@, old(self)@.entities.len()),
            final(self).wf(),
    {
        let n: usize = self.registry.len();
        let mut i: usize = 0;
        while i < n
            invariant
                i <= n,
                n == old(self)@.entities.len(),
                self@ == traced(old(self)@, i as nat),
            decreases n - i,
        {
            proof {
                lemma_traced_frame(old(self)@, i as nat);
            }
            let e: Entity = self.registry.entity(i);
            self.follow(e.id);
            i += 1;
        }
        proof {
            lemma_traced_frame(old(self)@, n as nat);
        }
    }
}

} // verus!
