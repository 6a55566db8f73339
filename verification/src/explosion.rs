//! The blast step: each blast grows, holds, fades and expires, by nothing
//! but the time that has passed against its three thresholds.

use crate::components::{ColliderSource, Explosion};
use crate::model::{lemma_wf_by_shape, WorldView};
use crate::registry::{lemma_flagged_keeps, Entity};
use crate::scalar::{add_sat, clamp, isqrt, root};
use crate::world::World;
use vstd::prelude::*;

verus! {

/// The phases of a blast, in their order.
#[derive(Clone, Copy, Debug, PartialEq, Eq, Structural)]
pub enum Phase {
    Growing,
    Holding,
    Fading,
    Expired,
}

/// The phase of a blast.
pub open spec fn phase(e: Explosion) -> Phase {
    if e.elapsed <= e.t_grow {
        Phase::Growing
    } else if e.elapsed <= e.t_stay {
        Phase::Holding
    } else if e.elapsed <= e.t_fade {
        Phase::Fading
    } else {
        Phase::Expired
    }
}

/// The place of a phase in their order.
pub open spec fn rank(p: Phase) -> int {
    match p {
        Phase::Growing => 0,
        Phase::Holding => 1,
        Phase::Fading => 2,
        Phase::Expired => 3,
    }
}

/// The size of a growing blast in thousandths of its full size: the square
/// root of the part of the growing time that has passed.
pub open spec fn grow_scale(elapsed: int, t_grow: int) -> int {
    if elapsed <= 0 {
        0
    } else {
        root((elapsed * 1_000_000) / t_grow)
    }
}

/// The size of a fading blast in thousandths of its full size: what is left
/// of the fading time.
pub open spec fn fade_scale(elapsed: int, t_stay: int, t_fade: int) -> int {
    1000 - ((elapsed - t_stay) * 1000) / (t_fade - t_stay)
}

/// The radius of a blast of full size `grow_size` at `scale` thousandths.
pub open spec fn radius_at(grow_size: u32, scale: int) -> int {
    (grow_size * scale) / 1000
}

/// The blast after `dt` more milliseconds. While it holds and once it has
/// expired its size stays as it was.
pub open spec fn aged(e: Explosion, dt: int) -> Explosion {
    let later = Explosion { elapsed: clamp(e.elapsed + dt) as i32, ..e };
    match phase(later) {
        Phase::Growing => Explosion {
            scale: grow_scale(later.elapsed as int, e.t_grow as int) as u32,
            ..later
        },
        Phase::Fading => Explosion {
            scale: fade_scale(later.elapsed as int, e.t_stay as int, e.t_fade as int) as u32,
            ..later
        },
        _ => later,
    }
}

/// The state after the blast of the entity `id`, if it has one, has aged by
/// `dt` milliseconds. The radius of its collider, if it has one, follows its
/// size while it grows and fades. An expired blast flags itself.
pub open spec fn burned(w: WorldView, id: u64, dt: int) -> WorldView {
    if !w.explosions.contains_key(id) {
        w
    } else {
        let e = aged(w.explosions[id], dt);
        let lit = WorldView { explosions: w.explosions.insert(id, e), ..w };
        match phase(e) {
            Phase::Holding => lit,
            Phase::Expired => lit.flagged(id),
            _ => if w.colliders.contains_key(id) {
                WorldView {
                    colliders: w.colliders.insert(
                        id,
                        ColliderSource {
                            radius: radius_at(e.grow_size, e.scale as int) as u32,
                            ..w.colliders[id]
                        },
                    ),
                    ..lit
                }
            } else {
                lit
            },
        }
    }
}

/// The state after the blasts among the first `n` entities have aged.
pub open spec fn blazed(w: WorldView, dt: int, n: nat) -> WorldView
    decreases n,
{
    if n == 0 {
        w
    } else {
        burned(blazed(w, dt, (n - 1) as nat), w.entities[n - 1].id, dt)
    }
}

/// A blast never goes back to an earlier phase, and an expired one stays
/// expired.
pub proof fn lemma_phase_one_way(e: Explosion, dt: int)
    requires
        0 <= dt,
    ensures
        rank(phase(aged(e, dt))) >= rank(phase(e)),
        phase(e) == Phase::Expired ==> phase(aged(e, dt)) == Phase::Expired,
        aged(e, dt).t_grow == e.t_grow,
        aged(e, dt).t_stay == e.t_stay,
        aged(e, dt).t_fade == e.t_fade,
        aged(e, dt).grow_size == e.grow_size,
{
}

/// A growing blast is no larger than its full size.
pub proof fn lemma_grow_scale_bound(elapsed: int, t_grow: int)
    requires
        elapsed <= t_grow,
    ensures
        0 <= grow_scale(elapsed, t_grow) <= 1000,
        elapsed > 0 ==> 0 <= (elapsed * 1_000_000) / t_grow <= 1_000_000,
        elapsed > 0 ==> crate::scalar::is_root(
            grow_scale(elapsed, t_grow),
            (elapsed * 1_000_000) / t_grow,
        ),
{
    if elapsed > 0 {
        let q = (elapsed * 1_000_000) / t_grow;
        vstd::arithmetic::div_mod::lemma_div_is_ordered(
            elapsed * 1_000_000,
            t_grow * 1_000_000,
            t_grow,
        );
        vstd::arithmetic::div_mod::lemma_div_multiples_vanish(1_000_000, t_grow);
        assert(t_grow * 1_000_000 == 1_000_000 * t_grow);
        vstd::arithmetic::div_mod::lemma_div_pos_is_pos(elapsed * 1_000_000, t_grow);
        crate::scalar::lemma_root_exists(q as nat);
        let r = root(q);
        if r > 1000 {
            assert(r * r > 1_000_000) by (nonlinear_arith)
                requires
                    r >= 1001,
            ;
        }
    }
}

/// A fading blast is no larger than its full size.
pub proof fn lemma_fade_scale_bound(elapsed: int, t_stay: int, t_fade: int)
    requires
        t_stay < elapsed <= t_fade,
    ensures
        0 <= fade_scale(elapsed, t_stay, t_fade) <= 1000,
{
    let span = t_fade - t_stay;
    let gone = elapsed - t_stay;
    vstd::arithmetic::div_mod::lemma_div_is_ordered(gone * 1000, span * 1000, span);
    vstd::arithmetic::div_mod::lemma_div_multiples_vanish(1000, span);
    assert(span * 1000 == 1000 * span);
    vstd::arithmetic::div_mod::lemma_div_pos_is_pos(gone * 1000, span);
}

/// At a thousand thousandths at most, the radius is the full size at most.
pub proof fn lemma_radius_bound(grow_size: u32, scale: int)
    requires
        0 <= scale <= 1000,
    ensures
        0 <= radius_at(grow_size, scale) <= grow_size,
{
    assert(0 <= grow_size * scale <= grow_size * 1000) by (nonlinear_arith)
        requires
            0 <= scale <= 1000,
            0 <= grow_size,
    ;
    vstd::arithmetic::div_mod::lemma_div_is_ordered(grow_size * scale, grow_size * 1000, 1000);
    vstd::arithmetic::div_mod::lemma_div_multiples_vanish(grow_size as int, 1000);
    vstd::arithmetic::div_mod::lemma_div_pos_is_pos(grow_size * scale, 1000);
    assert(grow_size * 1000 == 1000 * grow_size);
}

/// The blast step keeps the shape of the state and the invariant, and
/// changes nothing but blasts, the radii of their colliders, and flags.
pub proof fn lemma_blazed_frame(w: WorldView, dt: int, n: nat)
    requires
        n <= w.entities.len(),
    ensures
        w.same_shape(blazed(w, dt, n)),
        w.wf() ==> blazed(w, dt, n).wf(),
        blazed(w, dt, n) == (WorldView {
            entities: blazed(w, dt, n).entities,
            explosions: blazed(w, dt, n).explosions,
            colliders: blazed(w, dt, n).colliders,
            ..w
        }),
    decreases n,
{
    if n > 0 {
        lemma_blazed_frame(w, dt, (n - 1) as nat);
        let prev = blazed(w, dt, (n - 1) as nat);
        let id = w.entities[n - 1].id;
        let next = burned(prev, id, dt);
        lemma_flagged_keeps(prev.entities, id);
        assert(next.explosions.dom() =~= prev.explosions.dom());
        assert(next.colliders.dom() =~= prev.colliders.dom());
        if w.wf() {
            lemma_wf_by_shape(prev, next);
        }
    }
}

/// The blast after `dt` more milliseconds, computed.
pub fn age(e: Explosion, dt: u32) -> (later: Explosion)
    ensures
        later == aged(e, dt as int),
        phase(later) == Phase::Growing || phase(later) == Phase::Fading ==> later.scale <= 1000,
{
    let elapsed: i32 = add_sat(e.elapsed, dt as i128);
    let mut later = Explosion {
        grow_size: e.grow_size,
        t_grow: e.t_grow,
        t_stay: e.t_stay,
        t_fade: e.t_fade,
        elapsed,
        scale: e.scale,
    };
    if elapsed <= e.t_grow {
        proof {
            lemma_grow_scale_bound(elapsed as int, e.t_grow as int);
        }
        if elapsed <= 0 {
            later.scale = 0;
        } else {
            let q: u128 = (elapsed as u128) * 1_000_000 / (e.t_grow as u128);
            let r: u64 = isqrt(q);
            later.scale = r as u32;
        }
    } else if elapsed <= e.t_stay {
    } else if elapsed <= e.t_fade {
        proof {
            lemma_fade_scale_bound(elapsed as int, e.t_stay as int, e.t_fade as int);
        }
        let span: i64 = e.t_fade as i64 - e.t_stay as i64;
        let gone: i64 = elapsed as i64 - e.t_stay as i64;
        let part: i64 = gone * 1000 / span;
        later.scale = (1000 - part) as u32;
    }
    later
}

impl World {
    /// Lets the blast of the entity `id`, if it has one, age by `dt`
    /// milliseconds.
    pub fn burn(&mut self, id: u64, dt: u32)
        ensures
            final(self)@ == burned(old(self)@, id, dt as int),
    {
        let e: Explosion = match self.explosions.get(id) {
            Some(e) => *e,
            None => {
                return ;
            },
        };
        let later = age(e, dt);
        self.explosions.attach(id, later);
        if later.elapsed <= later.t_grow || (later.elapsed > later.t_stay && later.elapsed
            <= later.t_fade) {
            let found: Option<ColliderSource> = match self.colliders.get(id) {
                Some(c) => Some(*c),
                None => None,
            };
            if let Some(c) = found {
                proof {
                    lemma_radius_bound(later.grow_size, later.scale as int);
                }
                let radius: u64 = (later.grow_size as u64) * (later.scale as u64) / 1000;
                self.colliders.attach(
                    id,
                    ColliderSource {
                        radius: radius as u32,
                        reaction: c.reaction,
                        blocks_prediction: c.blocks_prediction,
                    },
                );
            }
            assert(self@ =~= burned(old(self)@, id, dt as int));
        } else if later.elapsed <= later.t_stay {
            assert(self@ =~= burned(old(self)@, id, dt as int));
        } else {
            self.flag_destroy(id);
            assert(self@ =~= burned(old(self)@, id, dt as int));
        }
    }

    /// Lets every blast age by `dt` milliseconds, in registry order.
    pub fn step_explosions(&mut self, dt: u32)
        requires
            old(self).wf(),
        ensures
            final(self)@ == blazed(old(self)@, dt as int, old(self)@.entities.len()),
            final(self).wf(),
    {
        let n: usize = self.registry.len();
        let mut i: usize = 0;
        while i < n
            invariant
                i <= n,
                n == old(self)@.entities.len(),
                self@ == blazed(old(self)@, dt as int, i as nat),
            decreases n - i,
        {
            proof {
                lemma_blazed_frame(old(self)@, dt as int, i as nat);
            }
            let e: Entity = self.registry.entity(i);
            self.burn(e.id, dt);
            i += 1;
        }
        proof {
            lemma_blazed_frame(old(self)@, dt as int, n as nat);
        }
    }
}

} // verus!
