//! The turret round. Turrets do not run at the tick rate: time is gathered
//! until a round is due. In a round each turret's cooldown runs down, and
//! the first turret that is ready, within range of the player and in clear
//! sight of it, launches a homing projectile. One projectile is launched in
//! a round at most.

use crate::aim::{heading_along, heading_of, thrust_against, thrust_of};
use crate::components::{ColliderSource, Position, Turret};
use crate::model::{lemma_wf_by_shape, WorldView};
use crate::registry::{Entity, Registry};
use crate::scalar::{add_sat, clamp, delta, length_sq, norm_sq};
use crate::spawn::{launched, Launch};
use crate::store::Store;
use crate::world::World;
use vstd::prelude::*;

verus! {

/// The time between two rounds, in milliseconds.
pub const ROUND: i32 = 1000;

/// The square of the range of a turret.
pub const RANGE_SQ: u128 = 64_000_000_000_000;

/// The thrust, the blast, the distance from the turret and the speed at
/// which a turret's projectile starts.
pub const SHOT_THRUST: i32 = 180_000;

pub const SHOT_BLAST: u32 = 270_000;

pub const SHOT_DISTANCE: i32 = 60_000;

pub const SHOT_SPEED: i32 = 300_000;

/// Whether the circle of radius `r` around `(cx, cy)` cuts the segment from
/// `(ax, ay)` to `(bx, by)`: whether the point of the segment that is
/// nearest to the center is less than `r` away from it.
pub open spec fn cuts(ax: int, ay: int, bx: int, by: int, cx: int, cy: int, r: u32) -> bool {
    let dx = bx - ax;
    let dy = by - ay;
    let ux = cx - ax;
    let uy = cy - ay;
    let dot = ux * dx + uy * dy;
    if dot <= 0 {
        norm_sq(ux, uy) < r * r
    } else if dot >= norm_sq(dx, dy) {
        norm_sq(cx - bx, cy - by) < r * r
    } else {
        (ux * dy - uy * dx) * (ux * dy - uy * dx) < r * r * norm_sq(dx, dy)
    }
}

/// Whether the collider `id` blocks the sight along the segment.
pub open spec fn obstructs(
    colliders: Map<u64, ColliderSource>,
    positions: Map<u64, Position>,
    id: u64,
    ax: int,
    ay: int,
    bx: int,
    by: int,
) -> bool {
    &&& colliders.contains_key(id)
    &&& colliders[id].blocks_prediction
    &&& positions.contains_key(id)
    &&& cuts(ax, ay, bx, by, positions[id].x as int, positions[id].y as int, colliders[id].radius)
}

/// Whether one of the first `n` entities blocks the sight along the segment.
pub open spec fn obstructed(
    entities: Seq<Entity>,
    colliders: Map<u64, ColliderSource>,
    positions: Map<u64, Position>,
    ax: int,
    ay: int,
    bx: int,
    by: int,
    n: nat,
) -> bool
    decreases n,
{
    n > 0 && (obstructed(entities, colliders, positions, ax, ay, bx, by, (n - 1) as nat)
        || obstructs(colliders, positions, entities[n - 1].id, ax, ay, bx, by))
}

/// Whether a turret at `at` may fire at the player at `player`: the player
/// is within range and nothing blocks the sight of it.
pub open spec fn has_shot(w: WorldView, at: Position, player: Position) -> bool {
    &&& norm_sq(at.x - player.x, at.y - player.y) < RANGE_SQ
    &&& !obstructed(
        w.entities,
        w.colliders,
        w.positions,
        player.x as int,
        player.y as int,
        at.x as int,
        at.y as int,
        w.entities.len(),
    )
}

/// The projectile that a turret at `at` launches at the player `target` at
/// `player`: it starts a little way off the turret toward the player, flies
/// toward it, and homes in on it.
pub open spec fn aimed(at: Position, player: Position, target: u64) -> Launch {
    let h = heading_along(at.x - player.x, at.y - player.y);
    let off = thrust_against(h, SHOT_DISTANCE as int);
    let v = thrust_against(h, SHOT_SPEED as int);
    Launch {
        position: Position {
            x: clamp(at.x + off.0) as i32,
            y: clamp(at.y + off.1) as i32,
            heading: h,
        },
        velocity_x: v.0 as i32,
        velocity_y: v.1 as i32,
        thrust: SHOT_THRUST,
        target: Some(target),
        blast: SHOT_BLAST,
    }
}

/// A round under way: the turrets, and the projectile to launch once one
/// has fired.
pub struct Volley {
    pub turrets: Map<u64, Turret>,
    pub shot: Option<Launch>,
}

/// The round after the first `n` entities had their turn, `elapsed`
/// milliseconds after the round before. Once a turret has fired, the others
/// are left as they are.
pub open spec fn volley(w: WorldView, elapsed: int, player: u64, n: nat) -> Volley
    decreases n,
{
    if n == 0 {
        Volley { turrets: w.turrets, shot: None }
    } else {
        let v = volley(w, elapsed, player, (n - 1) as nat);
        let id = w.entities[n - 1].id;
        if v.shot.is_some() || !v.turrets.contains_key(id) || !w.positions.contains_key(id) {
            v
        } else {
            let t = v.turrets[id];
            let left = clamp(t.until_next_shot - elapsed);
            if left <= 0 && has_shot(w, w.positions[id], w.positions[player]) {
                Volley {
                    turrets: v.turrets.insert(id, Turret { until_next_shot: t.fire_rate, ..t }),
                    shot: Some(aimed(w.positions[id], w.positions[player], player)),
                }
            } else {
                Volley {
                    turrets: v.turrets.insert(id, Turret { until_next_shot: left as i32, ..t }),
                    shot: None,
                }
            }
        }
    }
}

/// The state after the turret step of a tick of `dt` milliseconds. No round
/// is held until more than the time of a round has gathered, nor while
/// there is no player with a position.
pub open spec fn turrets_fired(w: WorldView, dt: int, shot_radius: u32) -> WorldView {
    let clock = clamp(w.turret_clock + dt);
    if clock <= ROUND {
        WorldView { turret_clock: clock as i32, ..w }
    } else {
        let rested = WorldView { turret_clock: 0, ..w };
        if w.player.is_some() && w.positions.contains_key(w.player.unwrap()) {
            let v = volley(rested, clock, w.player.unwrap(), w.entities.len());
            let armed = WorldView { turrets: v.turrets, ..rested };
            match v.shot {
                Some(launch) => launched(armed, launch, shot_radius),
                None => armed,
            }
        } else {
            rested
        }
    }
}

/// A round changes no turret but in its cooldown, and adds none.
pub proof fn lemma_volley_frame(w: WorldView, elapsed: int, player: u64, n: nat)
    ensures
        volley(w, elapsed, player, n).turrets.dom() == w.turrets.dom(),
    decreases n,
{
    if n > 0 {
        lemma_volley_frame(w, elapsed, player, (n - 1) as nat);
        let v = volley(w, elapsed, player, (n - 1) as nat);
        assert(volley(w, elapsed, player, n).turrets.dom() =~= v.turrets.dom());
    }
}

/// Once a turret has fired, the round stays as it is.
pub proof fn lemma_volley_done(w: WorldView, elapsed: int, player: u64, n: nat, m: nat)
    requires
        n <= m,
        volley(w, elapsed, player, n).shot.is_some(),
    ensures
        volley(w, elapsed, player, m) == volley(w, elapsed, player, n),
    decreases m,
{
    if n < m {
        lemma_volley_done(w, elapsed, player, n, (m - 1) as nat);
    }
}

/// The product of two numbers below 2^66, as two digits to the base 2^66.
fn mul_wide(a: u128, b: u128) -> (p: (u128, u128))
    requires
        a < 0x4_0000_0000_0000_0000u128,
        b < 0x4_0000_0000_0000_0000u128,
    ensures
        p.0 * 0x4_0000_0000_0000_0000 + p.1 == a * b,
        p.1 < 0x4_0000_0000_0000_0000u128,
{
    let a1: u128 = a / 0x2_0000_0000u128;
    let a0: u128 = a % 0x2_0000_0000u128;
    let b1: u128 = b / 0x2_0000_0000u128;
    let b0: u128 = b % 0x2_0000_0000u128;
    assert(a1 * b1 <= 0x1_ffff_ffff * 0x1_ffff_ffff && a1 * b0 <= 0x1_ffff_ffff * 0x1_ffff_ffff
        && a0 * b1 <= 0x1_ffff_ffff * 0x1_ffff_ffff && a0 * b0 <= 0x1_ffff_ffff * 0x1_ffff_ffff)
        by (nonlinear_arith)
        requires
            a1 <= 0x1_ffff_ffff,
            a0 <= 0x1_ffff_ffff,
            b1 <= 0x1_ffff_ffff,
            b0 <= 0x1_ffff_ffff,
    ;
    let high: u128 = a1 * b1;
    let mid: u128 = a1 * b0 + a0 * b1;
    let low: u128 = a0 * b0;
    let m1: u128 = mid / 0x2_0000_0000u128;
    let m0: u128 = mid % 0x2_0000_0000u128;
    let rest: u128 = m0 * 0x2_0000_0000u128 + low;
    assert(a * b == high * 0x4_0000_0000_0000_0000 + mid * 0x2_0000_0000 + low)
        by (nonlinear_arith)
        requires
            a == a1 * 0x2_0000_0000 + a0,
            b == b1 * 0x2_0000_0000 + b0,
            high == a1 * b1,
            mid == a1 * b0 + a0 * b1,
            low == a0 * b0,
    ;
    (high + m1 + rest / 0x4_0000_0000_0000_0000u128, rest % 0x4_0000_0000_0000_0000u128)
}

/// Whether a circle cuts a segment.
pub fn cuts_segment(ax: i32, ay: i32, bx: i32, by: i32, cx: i32, cy: i32, r: u32) -> (b: bool)
    ensures
        b == cuts(ax as int, ay as int, bx as int, by as int, cx as int, cy as int, r),
{
    let dx: i128 = delta(bx, ax) as i128;
    let dy: i128 = delta(by, ay) as i128;
    let ux: i128 = delta(cx, ax) as i128;
    let uy: i128 = delta(cy, ay) as i128;
    proof {
        lemma_product_bound(ux as int, dx as int);
        lemma_product_bound(uy as int, dy as int);
        lemma_product_bound(ux as int, dy as int);
        lemma_product_bound(uy as int, dx as int);
    }
    let wide_r: u128 = r as u128;
    assert(wide_r * wide_r <= 0xffff_ffff * 0xffff_ffff) by (nonlinear_arith)
        requires
            wide_r <= 0xffff_ffff,
    ;
    let rr: u128 = wide_r * wide_r;
    let dot: i128 = ux * dx + uy * dy;
    let len2: u128 = length_sq(delta(bx, ax), delta(by, ay));
    if dot <= 0 {
        length_sq(delta(cx, ax), delta(cy, ay)) < rr
    } else if dot as u128 >= len2 {
        length_sq(delta(cx, bx), delta(cy, by)) < rr
    } else {
        let cross: i128 = ux * dy - uy * dx;
        let m: u128 = if cross < 0 {
            (-cross) as u128
        } else {
            cross as u128
        };
        assert(m * m == cross * cross) by (nonlinear_arith)
            requires
                m == cross || m == -cross,
        ;
        let left = mul_wide(m, m);
        let right = mul_wide(rr, len2);
        left.0 < right.0 || (left.0 == right.0 && left.1 < right.1)
    }
}

/// The product of two coordinate differences is below 2^64 in magnitude.
proof fn lemma_product_bound(a: int, b: int)
    requires
        -0x1_0000_0000 < a < 0x1_0000_0000,
        -0x1_0000_0000 < b < 0x1_0000_0000,
    ensures
        -0x1_0000_0000_0000_0000 < a * b < 0x1_0000_0000_0000_0000,
{
    assert(-0x1_0000_0000_0000_0000 < a * b < 0x1_0000_0000_0000_0000) by (nonlinear_arith)
        requires
            -0x1_0000_0000 < a < 0x1_0000_0000,
            -0x1_0000_0000 < b < 0x1_0000_0000,
    ;
}

/// Whether a blocking collider cuts the segment from `(ax, ay)` to
/// `(bx, by)`.
pub fn sight_blocked(
    registry: &Registry,
    colliders: &Store<ColliderSource>,
    positions: &Store<Position>,
    ax: i32,
    ay: i32,
    bx: i32,
    by: i32,
) -> (b: bool)
    ensures
        b == obstructed(
            registry@,
            colliders@,
            positions@,
            ax as int,
            ay as int,
            bx as int,
            by as int,
            registry@.len(),
        ),
{
    let n: usize = registry.len();
    let mut any: bool = false;
    let mut i: usize = 0;
    while i < n
        invariant
            i <= n,
            n == registry@.len(),
            any == obstructed(
                registry@,
                colliders@,
                positions@,
                ax as int,
                ay as int,
                bx as int,
                by as int,
                i as nat,
            ),
        decreases n - i,
    {
        let e: Entity = registry.entity(i);
        if let Some(c) = colliders.get(e.id) {
            if c.blocks_prediction {
                if let Some(cp) = positions.get(e.id) {
                    if cuts_segment(ax, ay, bx, by, cp.x, cp.y, c.radius) {
                        any = true;
                    }
                }
            }
        }
        i += 1;
    }
    any
}

/// The projectile that a turret launches at the player, computed.
pub fn aim_at(at: Position, player: Position, target: u64) -> (launch: Launch)
    ensures
        launch == aimed(at, player, target),
{
    let h = heading_of(delta(at.x, player.x), delta(at.y, player.y));
    let off = thrust_of(h, SHOT_DISTANCE);
    let v = thrust_of(h, SHOT_SPEED);
    Launch {
        position: Position {
            x: add_sat(at.x, off.0 as i128),
            y: add_sat(at.y, off.1 as i128),
            heading: h,
        },
        velocity_x: v.0,
        velocity_y: v.1,
        thrust: SHOT_THRUST,
        target: Some(target),
        blast: SHOT_BLAST,
    }
}

impl World {
    /// Whether a turret at `at` may fire at the player at `player`.
    pub fn can_shoot(&self, at: Position, player: Position) -> (b: bool)
        ensures
            b == has_shot(self@, at, player),
    {
        let d2: u128 = length_sq(delta(at.x, player.x), delta(at.y, player.y));
        if d2 >= RANGE_SQ {
            return false;
        }
        !sight_blocked(
            &self.registry,
            &self.colliders,
            &self.positions,
            player.x,
            player.y,
            at.x,
            at.y,
        )
    }

    /// Runs the turret step of a tick of `dt` milliseconds. A projectile
    /// that is launched has the collision radius `shot_radius`.
    pub fn step_turrets(&mut self, dt: u32, shot_radius: u32)
        requires
            old(self).wf(),
            old(self)@.next_id < u64::MAX - 1,
        ensures
            final(self)@ == turrets_fired(old(self)@, dt as int, shot_radius),
            final(self).wf(),
    {
        let clock: i32 = add_sat(self.turret_clock, dt as i128);
        if clock <= ROUND {
            self.turret_clock = clock;
            proof {
                crate::registry::lemma_same_ids_refl(old(self)@.entities);
                lemma_wf_by_shape(old(self)@, self@);
            }
            return ;
        }
        self.turret_clock = 0;
        let ghost rested = self@;
        proof {
            crate::registry::lemma_same_ids_refl(old(self)@.entities);
            lemma_wf_by_shape(old(self)@, rested);
        }
        let player: u64 = match self.player {
            Some(p) => p,
            None => {
                return ;
            },
        };
        let target: Position = match self.positions.get(player) {
            Some(p) => *p,
            None => {
                return ;
            },
        };
        let n: usize = self.registry.len();
        let mut shot: Option<Launch> = None;
        let mut i: usize = 0;
        while i < n && shot.is_none()
            invariant
                i <= n,
                n == rested.entities.len(),
                rested.positions.contains_key(player),
                target == rested.positions[player],
                self@ == (WorldView {
                    turrets: volley(rested, clock as int, player, i as nat).turrets,
                    ..rested
                }),
                shot == volley(rested, clock as int, player, i as nat).shot,
            decreases n - i,
        {
            let e: Entity = self.registry.entity(i);
            let found: Option<(Turret, Position)> = match self.turrets.get(e.id) {
                Some(t) => match self.positions.get(e.id) {
                    Some(p) => Some((*t, *p)),
                    None => None,
                },
                None => None,
            };
            if let Some((t, at)) = found {
                let left: i32 = add_sat(t.until_next_shot, -(clock as i128));
                let fires: bool = left <= 0 && self.can_shoot(at, target);
                if fires {
                    self.turrets.attach(
                        e.id,
                        Turret { fire_rate: t.fire_rate, until_next_shot: t.fire_rate },
                    );
                    shot = Some(aim_at(at, target, player));
                } else {
                    self.turrets.attach(
                        e.id,
                        Turret { fire_rate: t.fire_rate, until_next_shot: left },
                    );
                }
                assert(self@ =~= (WorldView {
                    turrets: volley(rested, clock as int, player, (i + 1) as nat).turrets,
                    ..rested
                }));
            }
            i += 1;
        }
        proof {
            if i < n {
                lemma_volley_done(rested, clock as int, player, i as nat, n as nat);
            }
            lemma_volley_frame(rested, clock as int, player, n as nat);
            crate::registry::lemma_same_ids_refl(rested.entities);
            lemma_wf_by_shape(rested, self@);
        }
        if let Some(launch) = shot {
            self.spawn_nuke(launch, shot_radius);
        }
    }
}

/// The turret step takes no component away, and hands out ids only upward.
pub proof fn lemma_turrets_fired_keeps(w: WorldView, dt: int, shot_radius: u32, id: u64)
    requires
        w.next_id < u64::MAX - 1,
    ensures
        turrets_fired(w, dt, shot_radius).keeps(w, id),
        turrets_fired(w, dt, shot_radius).next_id >= w.next_id,
{
    let clock = clamp(w.turret_clock + dt);
    if clock > ROUND && w.player.is_some() && w.positions.contains_key(w.player.unwrap()) {
        let rested = WorldView { turret_clock: 0, ..w };
        lemma_volley_frame(rested, clock, w.player.unwrap(), w.entities.len());
        let v = volley(rested, clock, w.player.unwrap(), w.entities.len());
        assert(v.turrets.dom().contains(id) == w.turrets.dom().contains(id));
    }
}

} // verus!
