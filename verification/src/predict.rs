//! The forecast of a path. A probe starts from the live position and
//! velocity of the target and falls through the same field as the target
//! itself, in steps of the forecast's own length, one slot of the buffer for
//! each point it reaches.

use crate::collision::{touches, touching};
use crate::components::{ColliderSource, Dynamics, Gravity, Point, Position, Predictable};
use crate::gravity::{field_at, gravity_at};
use crate::model::{lemma_wf_by_shape, PredictableView, WorldView};
use crate::physics::advanced;
use crate::registry::{lemma_flagged_keeps, Entity, Registry};
use crate::scalar::{add_sat, scale};
use crate::store::Store;
use crate::world::World;
use vstd::prelude::*;

verus! {

/// A point mass on its way: where it is and how fast it goes.
#[derive(Clone, Copy, Debug, PartialEq, Eq, Structural)]
pub struct Probe {
    pub x: i32,
    pub y: i32,
    pub velocity_x: i32,
    pub velocity_y: i32,
}

/// What a forecast reads of the world.
pub struct Scene {
    pub entities: Seq<Entity>,
    pub gravities: Map<u64, Gravity>,
    pub positions: Map<u64, Position>,
    pub colliders: Map<u64, ColliderSource>,
}

/// A forecast under way.
pub struct Run {
    /// The buffer, with a point in each slot that was reached.
    pub path: Seq<Point>,
    /// The number of slots that were written.
    pub valid_len: nat,
    /// The probe, at the point that the next slot will take.
    pub probe: Probe,
    /// Whether the probe has entered a blocking collider.
    pub hit: bool,
    /// Whether the forecast has stopped.
    pub done: bool,
}

/// The scene of a state.
pub open spec fn scene_of(w: WorldView) -> Scene {
    Scene {
        entities: w.entities,
        gravities: w.gravities,
        positions: w.positions,
        colliders: w.colliders,
    }
}

/// The velocity of the probe after one step under the field, the pull of
/// `target` itself left out.
pub open spec fn sped(s: Scene, target: u64, step: int, p: Probe) -> (int, int) {
    let g = field_at(s.entities, s.gravities, s.positions, p.x as int, p.y as int, Some(target));
    (advanced(p.velocity_x as int, g.0, step), advanced(p.velocity_y as int, g.1, step))
}

/// Whether the collider `id` blocks forecasts and a circle of radius
/// `radius` at `(x, y)` touches it.
pub open spec fn blocks(
    colliders: Map<u64, ColliderSource>,
    positions: Map<u64, Position>,
    id: u64,
    radius: u32,
    x: int,
    y: int,
) -> bool {
    &&& colliders.contains_key(id)
    &&& colliders[id].blocks_prediction
    &&& positions.contains_key(id)
    &&& touching(
        colliders[id].radius,
        positions[id].x as int,
        positions[id].y as int,
        radius,
        x,
        y,
    )
}

/// Whether one of the first `n` entities blocks a circle of radius `radius`
/// at `(x, y)`.
pub open spec fn blocked(
    entities: Seq<Entity>,
    colliders: Map<u64, ColliderSource>,
    positions: Map<u64, Position>,
    radius: u32,
    x: int,
    y: int,
    n: nat,
) -> bool
    decreases n,
{
    n > 0 && (blocked(entities, colliders, positions, radius, x, y, (n - 1) as nat) || blocks(
        colliders,
        positions,
        entities[n - 1].id,
        radius,
        x,
        y,
    ))
}

/// The forecast after `k` slots were tried. Each turn writes the point that
/// the probe has reached into the next slot, and only then advances it. The
/// forecast stops after the slot that holds the first point inside a
/// blocking collider, if `radius` gives the probe a size; and in one of the
/// first two turns if the probe is then at rest on both axes.
pub open spec fn run(
    s: Scene,
    target: u64,
    radius: Option<u32>,
    step: int,
    start: Probe,
    buffer: Seq<Point>,
    k: nat,
) -> Run
    decreases k,
{
    if k == 0 {
        Run { path: buffer, valid_len: 0, probe: start, hit: false, done: false }
    } else {
        let r = run(s, target, radius, step, start, buffer, (k - 1) as nat);
        if r.done {
            r
        } else {
            let path = r.path.update(k - 1, Point { x: r.probe.x, y: r.probe.y });
            let v = sped(s, target, step, r.probe);
            if r.hit {
                Run { path, valid_len: k, probe: r.probe, hit: true, done: true }
            } else if k <= 2 && v.0 == 0 && v.1 == 0 {
                Run { path, valid_len: k, probe: r.probe, hit: false, done: true }
            } else {
                let x = advanced(r.probe.x as int, v.0, step);
                let y = advanced(r.probe.y as int, v.1, step);
                Run {
                    path,
                    valid_len: k,
                    probe: Probe {
                        x: x as i32,
                        y: y as i32,
                        velocity_x: v.0 as i32,
                        velocity_y: v.1 as i32,
                    },
                    hit: match radius {
                        Some(size) => blocked(
                            s.entities,
                            s.colliders,
                            s.positions,
                            size,
                            x,
                            y,
                            s.entities.len(),
                        ),
                        None => false,
                    },
                    done: false,
                }
            }
        }
    }
}

/// The forecast `p` after its clock has run for `dt` milliseconds.
pub open spec fn waited(p: PredictableView, dt: int) -> int {
    crate::scalar::clamp(p.until_refresh - dt)
}

/// The size that the probe of a forecast has: that of its target as a
/// collision target, if the forecast minds colliders and the target is one.
pub open spec fn probe_size(w: WorldView, p: PredictableView) -> Option<u32> {
    if p.collidable && w.targets.contains_key(p.target) {
        Some(w.targets[p.target].radius)
    } else {
        None
    }
}

/// The probe at the live position and velocity of the target.
pub open spec fn probe_at(position: Position, dynamics: Dynamics) -> Probe {
    Probe {
        x: position.x,
        y: position.y,
        velocity_x: dynamics.velocity_x,
        velocity_y: dynamics.velocity_y,
    }
}

/// The state after the forecast of the entity `id` had its turn. Its clock
/// runs down by `dt`; while time is left on it nothing else happens. Then
/// the clock is wound up again, and the path is forecast anew if the target
/// still has a position and a velocity; if not, the forecast has outlived
/// its subject and flags itself.
pub open spec fn forecasted(w: WorldView, id: u64, dt: int) -> WorldView {
    if !w.predictables.contains_key(id) {
        w
    } else {
        let p = w.predictables[id];
        if waited(p, dt) > 0 {
            WorldView {
                predictables: w.predictables.insert(
                    id,
                    PredictableView { until_refresh: waited(p, dt) as i32, ..p },
                ),
                ..w
            }
        } else if w.positions.contains_key(p.target) && w.dynamics.contains_key(p.target) {
            let r = run(
                scene_of(w),
                p.target,
                probe_size(w, p),
                p.step as int,
                probe_at(w.positions[p.target], w.dynamics[p.target]),
                p.path,
                p.path.len(),
            );
            WorldView {
                predictables: w.predictables.insert(
                    id,
                    PredictableView {
                        until_refresh: p.refresh_rate,
                        path: r.path,
                        valid_len: r.valid_len as usize,
                        ..p
                    },
                ),
                ..w
            }
        } else {
            (WorldView {
                predictables: w.predictables.insert(
                    id,
                    PredictableView { until_refresh: p.refresh_rate, ..p },
                ),
                ..w
            }).flagged(id)
        }
    }
}

/// The state after the forecasts among the first `n` entities had their
/// turn.
pub open spec fn predicted(w: WorldView, dt: int, n: nat) -> WorldView
    decreases n,
{
    if n == 0 {
        w
    } else {
        forecasted(predicted(w, dt, (n - 1) as nat), w.entities[n - 1].id, dt)
    }
}

/// A forecast keeps the length of its buffer, writes no more slots than it
/// tried, and once stopped stays as it is.
pub proof fn lemma_run_shape(
    s: Scene,
    target: u64,
    radius: Option<u32>,
    step: int,
    start: Probe,
    buffer: Seq<Point>,
    k: nat,
)
    requires
        k <= buffer.len(),
    ensures
        run(s, target, radius, step, start, buffer, k).path.len() == buffer.len(),
        run(s, target, radius, step, start, buffer, k).valid_len <= k,
        !run(s, target, radius, step, start, buffer, k).done ==> run(
            s,
            target,
            radius,
            step,
            start,
            buffer,
            k,
        ).valid_len == k,
    decreases k,
{
    if k > 0 {
        lemma_run_shape(s, target, radius, step, start, buffer, (k - 1) as nat);
    }
}

/// A forecast that has stopped is not changed by further turns.
pub proof fn lemma_run_done(
    s: Scene,
    target: u64,
    radius: Option<u32>,
    step: int,
    start: Probe,
    buffer: Seq<Point>,
    k: nat,
    m: nat,
)
    requires
        k <= m,
        run(s, target, radius, step, start, buffer, k).done,
    ensures
        run(s, target, radius, step, start, buffer, m) == run(
            s,
            target,
            radius,
            step,
            start,
            buffer,
            k,
        ),
    decreases m,
{
    if k < m {
        lemma_run_done(s, target, radius, step, start, buffer, k, (m - 1) as nat);
    }
}

/// Truncation: if after `k` turns the probe has entered a blocking
/// collider, the forecast ends with the next slot, which holds the point
/// inside the collider, however many slots the buffer has.
pub proof fn lemma_run_truncates(
    s: Scene,
    target: u64,
    radius: Option<u32>,
    step: int,
    start: Probe,
    buffer: Seq<Point>,
    k: nat,
    m: nat,
)
    requires
        k < m <= buffer.len(),
        run(s, target, radius, step, start, buffer, k).hit,
        !run(s, target, radius, step, start, buffer, k).done,
    ensures
        run(s, target, radius, step, start, buffer, m).valid_len == k + 1,
        run(s, target, radius, step, start, buffer, m).path[k as int] == (Point {
            x: run(s, target, radius, step, start, buffer, k).probe.x,
            y: run(s, target, radius, step, start, buffer, k).probe.y,
        }),
{
    lemma_run_shape(s, target, radius, step, start, buffer, k);
    let next = run(s, target, radius, step, start, buffer, k + 1);
    assert(next.done && next.valid_len == k + 1);
    lemma_run_done(s, target, radius, step, start, buffer, k + 1, m);
}

/// A turn of a forecast keeps the shape of the state and the invariant.
pub proof fn lemma_forecasted_frame(w: WorldView, id: u64, dt: int)
    ensures
        w.same_shape(forecasted(w, id, dt)),
        w.wf() ==> forecasted(w, id, dt).wf(),
        forecasted(w, id, dt).predictables.dom() == w.predictables.dom(),
        forecasted(w, id, dt) == (WorldView {
            entities: forecasted(w, id, dt).entities,
            predictables: forecasted(w, id, dt).predictables,
            ..w
        }),
{
    let f = forecasted(w, id, dt);
    lemma_flagged_keeps(w.entities, id);
    assert(f.predictables.dom() =~= w.predictables.dom());
    if w.wf() {
        lemma_wf_by_shape(w, f);
    }
}

/// The turns of the forecasts keep the shape of the state and the invariant.
pub proof fn lemma_predicted_frame(w: WorldView, dt: int, n: nat)
    requires
        n <= w.entities.len(),
    ensures
        w.same_shape(predicted(w, dt, n)),
        w.wf() ==> predicted(w, dt, n).wf(),
        predicted(w, dt, n) == (WorldView {
            entities: predicted(w, dt, n).entities,
            predictables: predicted(w, dt, n).predictables,
            ..w
        }),
    decreases n,
{
    if n > 0 {
        lemma_predicted_frame(w, dt, (n - 1) as nat);
        lemma_forecasted_frame(predicted(w, dt, (n - 1) as nat), w.entities[n - 1].id, dt);
    }
}

/// Whether a circle of radius `radius` at `(x, y)` touches a collider that
/// blocks forecasts.
pub fn path_blocked(
    registry: &Registry,
    colliders: &Store<ColliderSource>,
    positions: &Store<Position>,
    radius: u32,
    x: i32,
    y: i32,
) -> (b: bool)
    ensures
        b == blocked(
            registry@,
            colliders@,
            positions@,
            radius,
            x as int,
            y as int,
            registry@.len(),
        ),
{
    let n: usize = registry.len();
    let mut any: bool = false;
    let mut i: usize = 0;
    while i < n
        invariant
            i <= n,
            n == registry@.len(),
            any == blocked(registry@, colliders@, positions@, radius, x as int, y as int, i as nat),
        decreases n - i,
    {
        let e: Entity = registry.entity(i);
        if let Some(c) = colliders.get(e.id) {
            if c.blocks_prediction {
                if let Some(cp) = positions.get(e.id) {
                    if touches(c.radius, cp.x, cp.y, radius, x, y) {
                        any = true;
                    }
                }
            }
        }
        i += 1;
    }
    any
}

impl World {
    /// Forecasts the path of `target` into `path`, from `start`, and returns
    /// the number of slots that hold a point of it.
    pub fn forecast(
        &self,
        target: u64,
        radius: Option<u32>,
        step: i32,
        start: Probe,
        path: &mut Vec<Point>,
    ) -> (valid_len: usize)
        ensures
            final(path)@ == run(
                scene_of(self@),
                target,
                radius,
                step as int,
                start,
                old(path)@,
                old(path)@.len(),
            ).path,
            valid_len == run(
                scene_of(self@),
                target,
                radius,
                step as int,
                start,
                old(path)@,
                old(path)@.len(),
            ).valid_len,
    {
        let ghost s = scene_of(self@);
        let ghost buffer = path@;
        let n: usize = path.len();
        let mut probe: Probe = start;
        let mut hit: bool = false;
        let mut done: bool = false;
        let mut valid_len: usize = 0;
        let mut k: usize = 0;
        while k < n && !done
            invariant
                k <= n,
                n == buffer.len(),
                s == scene_of(self@),
                path@.len() == n,
                run(s, target, radius, step as int, start, buffer, k as nat) == (Run {
                    path: path@,
                    valid_len: valid_len as nat,
                    probe,
                    hit,
                    done,
                }),
                valid_len <= k,
            decreases n - k,
        {
            path.set(k, Point { x: probe.x, y: probe.y });
            valid_len = k + 1;
            let g = gravity_at(
                &self.registry,
                &self.gravities,
                &self.positions,
                probe.x,
                probe.y,
                Some(target),
            );
            let vx: i32 = add_sat(probe.velocity_x, scale(g.0, step as i64));
            let vy: i32 = add_sat(probe.velocity_y, scale(g.1, step as i64));
            if hit {
                done = true;
            } else if k < 2 && vx == 0 && vy == 0 {
                done = true;
            } else {
                let x: i32 = add_sat(probe.x, scale(vx, step as i64));
                let y: i32 = add_sat(probe.y, scale(vy, step as i64));
                probe = Probe { x, y, velocity_x: vx, velocity_y: vy };
                hit = match radius {
                    Some(size) => path_blocked(
                        &self.registry,
                        &self.colliders,
                        &self.positions,
                        size,
                        x,
                        y,
                    ),
                    None => false,
                };
            }
            k += 1;
        }
        proof {
            if k < n {
                lemma_run_done(s, target, radius, step as int, start, buffer, k as nat, n as nat);
            }
        }
        valid_len
    }

    /// Gives the forecast of the entity `id`, if it has one, its turn.
    pub fn refresh_forecast(&mut self, id: u64, dt: u32)
        ensures
            final(self)@ == forecasted(old(self)@, id, dt as int),
    {
        let mut p: Predictable = match self.predictables.remove(id) {
            Some(p) => p,
            None => {
                assert(self@ =~= old(self)@);
                return ;
            },
        };
        let ghost before = p@;
        let left: i32 = add_sat(p.until_refresh, -(dt as i128));
        if left > 0 {
            p.until_refresh = left;
            self.predictables.attach(id, p);
            assert(self@ =~= forecasted(old(self)@, id, dt as int));
            return ;
        }
        p.until_refresh = p.refresh_rate;
        let live: Option<(Position, Dynamics)> = match self.positions.get(p.target) {
            Some(at) => match self.dynamics.get(p.target) {
                Some(d) => Some((*at, *d)),
                None => None,
            },
            None => None,
        };
        match live {
            Some((at, d)) => {
                let radius: Option<u32> = if p.collidable {
                    match self.targets.get(p.target) {
                        Some(t) => Some(t.radius),
                        None => None,
                    }
                } else {
                    None
                };
                let start = Probe {
                    x: at.x,
                    y: at.y,
                    velocity_x: d.velocity_x,
                    velocity_y: d.velocity_y,
                };
                assert(scene_of(self@) == scene_of(old(self)@));
                let valid_len = self.forecast(p.target, radius, p.step, start, &mut p.path);
                p.valid_len = valid_len;
                self.predictables.attach(id, p);
                assert(self@ =~= forecasted(old(self)@, id, dt as int));
            },
            None => {
                self.predictables.attach(id, p);
                self.flag_destroy(id);
                assert(self@ =~= forecasted(old(self)@, id, dt as int));
            },
        }
    }

    /// Gives every forecast its turn, in registry order.
    pub fn step_predictions(&mut self, dt: u32)
        requires
            old(self).wf(),
        ensures
            final(self)@ == predicted(old(self)@, dt as int, old(self)@.entities.len()),
            final(self).wf(),
    {
        let n: usize = self.registry.len();
        let mut i: usize = 0;
        while i < n
            invariant
                i <= n,
                n == old(self)@.entities.len(),
                self@ == predicted(old(self)@, dt as int, i as nat),
            decreases n - i,
        {
            proof {
                lemma_predicted_frame(old(self)@, dt as int, i as nat);
            }
            let e: Entity = self.registry.entity(i);
            self.refresh_forecast(e.id, dt);
            i += 1;
        }
        proof {
            lemma_predicted_frame(old(self)@, dt as int, n as nat);
        }
    }
}


/// Whether two scenes hold the same ids in the same order, and the same
/// sources, positions and colliders.
pub open spec fn same_field(a: Scene, b: Scene) -> bool {
    &&& crate::registry::same_ids(a.entities, b.entities)
    &&& a.gravities == b.gravities
    &&& a.positions == b.positions
    &&& a.colliders == b.colliders
}

/// Whether a probe is blocked depends on the ids, not on the flags.
pub proof fn lemma_blocked_by_ids(
    a: Seq<Entity>,
    b: Seq<Entity>,
    colliders: Map<u64, ColliderSource>,
    positions: Map<u64, Position>,
    radius: u32,
    x: int,
    y: int,
    n: nat,
)
    requires
        crate::registry::same_ids(a, b),
        n <= a.len(),
    ensures
        blocked(a, colliders, positions, radius, x, y, n) == blocked(
            b,
            colliders,
            positions,
            radius,
            x,
            y,
            n,
        ),
    decreases n,
{
    if n > 0 {
        lemma_blocked_by_ids(a, b, colliders, positions, radius, x, y, (n - 1) as nat);
        assert(a[n - 1].id == b[n - 1].id);
    }
}

/// A forecast is a function of the field, the colliders and the start
/// alone: two forecasts from the same position and velocity through the
/// same field give the same points and the same valid length.
pub proof fn lemma_run_by_field(
    a: Scene,
    b: Scene,
    target: u64,
    radius: Option<u32>,
    step: int,
    start: Probe,
    buffer: Seq<Point>,
    k: nat,
)
    requires
        same_field(a, b),
    ensures
        run(a, target, radius, step, start, buffer, k) == run(
            b,
            target,
            radius,
            step,
            start,
            buffer,
            k,
        ),
    decreases k,
{
    if k > 0 {
        lemma_run_by_field(a, b, target, radius, step, start, buffer, (k - 1) as nat);
        let r = run(a, target, radius, step, start, buffer, (k - 1) as nat);
        crate::gravity::lemma_pull_sum_by_ids(
            a.entities,
            b.entities,
            a.gravities,
            a.positions,
            r.probe.x as int,
            r.probe.y as int,
            Some(target),
            a.entities.len(),
        );
        let v = sped(a, target, step, r.probe);
        assert(v == sped(b, target, step, r.probe));
        match radius {
            Some(size) => {
                lemma_blocked_by_ids(
                    a.entities,
                    b.entities,
                    a.colliders,
                    a.positions,
                    size,
                    advanced(r.probe.x as int, v.0, step),
                    advanced(r.probe.y as int, v.1, step),
                    a.entities.len(),
                );
            },
            None => {},
        }
    }
}

/// The slots that a forecast has written hold the points that the probe
/// reached, and the slots behind them are as they were.
pub proof fn lemma_run_path(
    s: Scene,
    target: u64,
    radius: Option<u32>,
    step: int,
    start: Probe,
    buffer: Seq<Point>,
    k: nat,
    j: int,
)
    requires
        k <= buffer.len(),
        0 <= j < buffer.len(),
    ensures
        j >= run(s, target, radius, step, start, buffer, k).valid_len ==> run(
            s,
            target,
            radius,
            step,
            start,
            buffer,
            k,
        ).path[j] == buffer[j],
        j < run(s, target, radius, step, start, buffer, k).valid_len ==> run(
            s,
            target,
            radius,
            step,
            start,
            buffer,
            k,
        ).path[j] == (Point {
            x: run(s, target, radius, step, start, buffer, j as nat).probe.x,
            y: run(s, target, radius, step, start, buffer, j as nat).probe.y,
        }) && !run(s, target, radius, step, start, buffer, j as nat).done,
    decreases k,
{
    if k > 0 {
        lemma_run_path(s, target, radius, step, start, buffer, (k - 1) as nat, j);
        lemma_run_shape(s, target, radius, step, start, buffer, (k - 1) as nat);
    }
}

/// The turns of the forecasts add no forecast and take none away.
pub proof fn lemma_predicted_keeps(w: WorldView, dt: int, n: nat)
    requires
        n <= w.entities.len(),
    ensures
        predicted(w, dt, n).predictables.dom() == w.predictables.dom(),
    decreases n,
{
    if n > 0 {
        lemma_predicted_keeps(w, dt, (n - 1) as nat);
        lemma_forecasted_frame(predicted(w, dt, (n - 1) as nat), w.entities[n - 1].id, dt);
    }
}

} // verus!
