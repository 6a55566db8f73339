//! The makers of entities: each registers a fresh entity and attaches what
//! that sort of thing is made of. Radii that depend on a shape are given by
//! the caller.

use crate::components::{
    ColliderSource, CollisionTarget, Dynamics, Explosion, Gravity, Heading, Point, Position,
    Predictable, Reaction, Rocket, Ship, Trail, Turret,
};
use crate::model::{
    lemma_spawned_wf, lemma_wf_by_shape, origin, Parts, PredictableView, TrailView, WorldView,
};
use crate::world::World;
use vstd::prelude::*;

verus! {

/// The blast that a star sets off in what falls into it.
pub const STAR_BLAST: u32 = 1_500_000;

/// The mass of the portal.
pub const PORTAL_MASS: u64 = 6_000_000;

/// The fuel in one pickup.
pub const FUEL_PER_PICKUP: u32 = 450_000;

/// The cooldown of a turret, in milliseconds.
pub const TURRET_FIRE_RATE: i32 = 2100;

/// The number of points that a trail keeps.
pub const TRAIL_LENGTH: usize = 120;

/// The spacing under which a trail only moves its newest point.
pub const TRAIL_SPACING: u32 = 30_000;

/// The width and the colour of the trail behind a ship.
pub const SHIP_TRAIL_WIDTH: u32 = 3600;

pub const SHIP_TRAIL_COLOR: u32 = 0xFFCF_E6B0;

/// The width and the colour of the trail behind a projectile.
pub const NUKE_TRAIL_WIDTH: u32 = 2000;

pub const NUKE_TRAIL_COLOR: u32 = 0xFF00_0099;

/// The number of slots, the step in milliseconds and the colour of a forecast.
pub const FORECAST_SLOTS: usize = 45;

pub const FORECAST_STEP: i32 = 270;

pub const FORECAST_COLOR: u32 = 0x99BF_FFB0;

/// The direction along the first axis, which stands for the angle zero.
pub fn east() -> (h: Heading)
    ensures
        h == origin().heading,
{
    Heading { x: 1000, y: 0 }
}

/// The mass of a star of radius `size`: one and a half times the cube of the
/// radius in world units, at most what a mass can hold.
pub open spec fn star_mass(size: u32) -> u64 {
    let m = (3 * (size * size * size)) / 2_000_000_000;
    if m > u64::MAX {
        u64::MAX
    } else {
        m as u64
    }
}

/// The squared reach of a star of mass `mass` that does not pull everywhere:
/// where its pull has fallen to 0.45, at most what a reach can hold.
pub open spec fn star_reach_sq(mass: u64) -> u64 {
    let d = (mass * 100_000_000) / 45;
    if d > u64::MAX {
        u64::MAX
    } else {
        d as u64
    }
}

/// What a star is made of.
pub open spec fn star_parts(x: i32, y: i32, size: u32, always_pull: bool) -> Parts {
    Parts {
        gravity: Some(
            Gravity {
                mass: star_mass(size),
                reach_sq: if always_pull {
                    None
                } else {
                    Some(star_reach_sq(star_mass(size)))
                },
            },
        ),
        collider: Some(
            ColliderSource {
                radius: size,
                reaction: Reaction::Explosion { size: STAR_BLAST, self_destructs: false },
                blocks_prediction: true,
            },
        ),
        ..Parts::only(Position { x, y, heading: origin().heading })
    }
}

/// What the portal is made of: it pulls everywhere, and does nothing yet to
/// what enters it.
pub open spec fn portal_parts(position: Position, radius: u32) -> Parts {
    Parts {
        gravity: Some(Gravity { mass: PORTAL_MASS, reach_sq: None }),
        collider: Some(
            ColliderSource { radius, reaction: Reaction::Inert, blocks_prediction: false },
        ),
        ..Parts::only(position)
    }
}

/// What a lock is made of.
pub open spec fn lock_parts(position: Position, radius: u32) -> Parts {
    Parts { target: Some(CollisionTarget { radius }), ..Parts::only(position) }
}

/// What a turret is made of. It is ready to fire.
pub open spec fn turret_parts(position: Position, radius: u32) -> Parts {
    Parts {
        target: Some(CollisionTarget { radius }),
        turret: Some(Turret { fire_rate: TURRET_FIRE_RATE, until_next_shot: 0 }),
        ..Parts::only(position)
    }
}

/// What a fuel pickup is made of.
pub open spec fn fuel_parts(x: i32, y: i32, radius: u32) -> Parts {
    Parts {
        collider: Some(
            ColliderSource {
                radius,
                reaction: Reaction::FuelRefill { amount: FUEL_PER_PICKUP },
                blocks_prediction: false,
            },
        ),
        target: Some(CollisionTarget { radius }),
        ..Parts::only(Position { x, y, heading: origin().heading })
    }
}

/// What a ship is made of. It starts at rest.
pub open spec fn ship_parts(x: i32, y: i32, radius: u32, ship: Ship) -> Parts {
    Parts {
        dynamics: Some(
            Dynamics { velocity_x: 0, velocity_y: 0, external_accel_x: 0, external_accel_y: 0 },
        ),
        target: Some(CollisionTarget { radius }),
        ship: Some(ship),
        ..Parts::only(Position { x, y, heading: origin().heading })
    }
}

/// The three thresholds of a blast of size `size`, in milliseconds: it grows
/// for 1.8 ms per unit of size, holds for 1.2 ms and fades for 0.9 ms.
pub open spec fn blast_times(size: u32) -> (int, int, int) {
    let grow = (size * 18) / 10_000;
    let stay = grow + (size * 12) / 10_000;
    let fade = stay + (size * 9) / 10_000;
    (grow, stay, fade)
}

/// What a blast is made of. One that can be run into starts as a collider of
/// radius zero that sets off blasts of two thirds of its size.
pub open spec fn explosion_parts(x: i32, y: i32, size: u32, collidable: bool) -> Parts {
    Parts {
        explosion: Some(
            Explosion {
                grow_size: size,
                t_grow: blast_times(size).0 as i32,
                t_stay: blast_times(size).1 as i32,
                t_fade: blast_times(size).2 as i32,
                elapsed: 0,
                scale: 0,
            },
        ),
        collider: if collidable {
            Some(
                ColliderSource {
                    radius: 0,
                    reaction: Reaction::Explosion {
                        size: ((size * 2) / 3) as u32,
                        self_destructs: false,
                    },
                    blocks_prediction: false,
                },
            )
        } else {
            None
        },
        ..Parts::only(Position { x, y, heading: origin().heading })
    }
}

/// What a projectile is to be made of.
#[derive(Clone, Copy, Debug, PartialEq, Eq, Structural)]
pub struct Launch {
    pub position: Position,
    pub velocity_x: i32,
    pub velocity_y: i32,
    pub thrust: i32,
    pub target: Option<u64>,
    pub blast: u32,
}

/// What a projectile is made of: it goes off in whatever it hits, and takes
/// itself along. Without thrust it has no drive.
pub open spec fn nuke_parts(launch: Launch, radius: u32) -> Parts {
    Parts {
        dynamics: Some(
            Dynamics {
                velocity_x: launch.velocity_x,
                velocity_y: launch.velocity_y,
                external_accel_x: 0,
                external_accel_y: 0,
            },
        ),
        target: Some(CollisionTarget { radius }),
        rocket: if launch.thrust != 0 {
            Some(Rocket { thrust: launch.thrust, target: launch.target })
        } else {
            None
        },
        collider: Some(
            ColliderSource {
                radius,
                reaction: Reaction::Explosion { size: launch.blast, self_destructs: true },
                blocks_prediction: false,
            },
        ),
        ..Parts::only(launch.position)
    }
}

/// An empty trail behind `target`.
pub open spec fn fresh_trail(target: u64, width: u32, color: u32) -> TrailView {
    TrailView {
        target,
        points: Seq::empty(),
        max_len: TRAIL_LENGTH,
        width,
        color,
        min_spacing: TRAIL_SPACING,
    }
}

/// A forecast for `target` that is due at once and has no valid point yet.
pub open spec fn fresh_forecast(target: u64) -> PredictableView {
    PredictableView {
        target,
        path: Seq::new(FORECAST_SLOTS as nat, |i: int| Point { x: 0, y: 0 }),
        step: FORECAST_STEP,
        refresh_rate: 0,
        until_refresh: 0,
        valid_len: 0,
        collidable: true,
        color: FORECAST_COLOR,
    }
}

/// A trail or a forecast added to a state keeps the invariant.
pub proof fn lemma_follower_wf(w: WorldView, t: TrailView, p: PredictableView)
    requires
        w.wf(),
        w.next_id < u64::MAX,
    ensures
        w.trailed(t).wf(),
        w.forecasting(p).wf(),
{
    let s = w.spawned(Parts::only(origin()));
    lemma_spawned_wf(w, Parts::only(origin()));
    crate::registry::lemma_same_ids_refl(s.entities);
    lemma_wf_by_shape(s, w.trailed(t));
    lemma_wf_by_shape(s, w.forecasting(p));
}

/// The thresholds of a blast, computed.
pub fn blast_thresholds(size: u32) -> (t: (i32, i32, i32))
    ensures
        (t.0 as int, t.1 as int, t.2 as int) == blast_times(size),
        0 <= t.0 <= t.1 <= t.2,
{
    let wide: u64 = size as u64;
    let grow: u64 = wide * 18 / 10_000;
    let stay: u64 = grow + wide * 12 / 10_000;
    let fade: u64 = stay + wide * 9 / 10_000;
    (grow as i32, stay as i32, fade as i32)
}

impl World {
    /// Adds a trail behind `target`, as an entity of its own.
    pub fn add_trail(&mut self, target: u64, width: u32, color: u32) -> (id: u64)
        requires
            old(self)@.next_id < u64::MAX,
        ensures
            id == old(self)@.next_id,
            final(self)@ == old(self)@.trailed(fresh_trail(target, width, color)),
            old(self).wf() ==> final(self).wf(),
    {
        let id = self.spawn(Parts::at(Position { x: 0, y: 0, heading: east() }));
        let trail = Trail {
            target,
            points: Vec::new(),
            max_len: TRAIL_LENGTH,
            width,
            color,
            min_spacing: TRAIL_SPACING,
        };
        assert(trail@ =~= fresh_trail(target, width, color));
        self.trails.attach(id, trail);
        proof {
            assert(self@ =~= old(self)@.trailed(fresh_trail(target, width, color)));
            if old(self).wf() {
                lemma_follower_wf(old(self)@, fresh_trail(target, width, color), fresh_forecast(0));
            }
        }
        id
    }

    /// Adds a forecast of the path of `target`, as an entity of its own.
    pub fn add_prediction(&mut self, target: u64) -> (id: u64)
        requires
            old(self)@.next_id < u64::MAX,
        ensures
            id == old(self)@.next_id,
            final(self)@ == old(self)@.forecasting(fresh_forecast(target)),
            old(self).wf() ==> final(self).wf(),
    {
        let id = self.spawn(Parts::at(Position { x: 0, y: 0, heading: east() }));
        let mut path: Vec<Point> = Vec::new();
        let mut k: usize = 0;
        while k < FORECAST_SLOTS
            invariant
                k <= FORECAST_SLOTS,
                path@.len() == k,
                forall|j: int| 0 <= j < k ==> path@[j] == (Point { x: 0, y: 0 }),
            decreases FORECAST_SLOTS - k,
        {
            path.push(Point { x: 0, y: 0 });
            k += 1;
        }
        let forecast = Predictable {
            target,
            path,
            step: FORECAST_STEP,
            refresh_rate: 0,
            until_refresh: 0,
            valid_len: 0,
            collidable: true,
            color: FORECAST_COLOR,
        };
        assert(forecast@ =~= fresh_forecast(target));
        self.predictables.attach(id, forecast);
        proof {
            assert(self@ =~= old(self)@.forecasting(fresh_forecast(target)));
            if old(self).wf() {
                lemma_follower_wf(old(self)@, fresh_trail(0, 0, 0), fresh_forecast(target));
            }
        }
        id
    }

    /// Adds the portal, shut, and remembers it as the portal.
    pub fn add_portal(&mut self, position: Position, radius: u32) -> (id: u64)
        requires
            old(self)@.next_id < u64::MAX,
        ensures
            id == old(self)@.next_id,
            final(self)@ == (WorldView {
                portal: Some(id),
                ..old(self)@.spawned(portal_parts(position, radius))
            }),
            old(self).wf() ==> final(self).wf(),
    {
        let parts = Parts {
            gravity: Some(Gravity { mass: PORTAL_MASS, reach_sq: None }),
            collider: Some(
                ColliderSource { radius, reaction: Reaction::Inert, blocks_prediction: false },
            ),
            ..Parts::at(position)
        };
        let id = self.spawn(parts);
        self.portal = Some(id);
        id
    }

    /// Adds a lock, and counts it among those that keep the portal shut.
    pub fn add_lock(&mut self, position: Position, radius: u32) -> (id: u64)
        requires
            old(self)@.next_id < u64::MAX,
        ensures
            id == old(self)@.next_id,
            final(self)@ == (WorldView {
                locks: old(self)@.locks.push(id),
                ..old(self)@.spawned(lock_parts(position, radius))
            }),
            old(self).wf() ==> final(self).wf(),
    {
        let parts = Parts { target: Some(CollisionTarget { radius }), ..Parts::at(position) };
        let id = self.spawn(parts);
        self.locks.push(id);
        id
    }

    /// Adds a turret.
    pub fn add_turret(&mut self, position: Position, radius: u32) -> (id: u64)
        requires
            old(self)@.next_id < u64::MAX,
        ensures
            id == old(self)@.next_id,
            final(self)@ == old(self)@.spawned(turret_parts(position, radius)),
            old(self).wf() ==> final(self).wf(),
    {
        let parts = Parts {
            target: Some(CollisionTarget { radius }),
            turret: Some(Turret { fire_rate: TURRET_FIRE_RATE, until_next_shot: 0 }),
            ..Parts::at(position)
        };
        self.spawn(parts)
    }

    /// Adds a fuel pickup.
    pub fn add_fuel_powerup(&mut self, x: i32, y: i32, radius: u32) -> (id: u64)
        requires
            old(self)@.next_id < u64::MAX,
        ensures
            id == old(self)@.next_id,
            final(self)@ == old(self)@.spawned(fuel_parts(x, y, radius)),
            old(self).wf() ==> final(self).wf(),
    {
        let parts = Parts {
            collider: Some(
                ColliderSource {
                    radius,
                    reaction: Reaction::FuelRefill { amount: FUEL_PER_PICKUP },
                    blocks_prediction: false,
                },
            ),
            target: Some(CollisionTarget { radius }),
            ..Parts::at(Position { x, y, heading: east() })
        };
        self.spawn(parts)
    }

    /// Adds a star of radius `size`. One that does not pull everywhere pulls
    /// as far as its pull is worth feeling.
    pub fn add_star(&mut self, x: i32, y: i32, size: u32, always_pull: bool) -> (id: u64)
        requires
            old(self)@.next_id < u64::MAX,
        ensures
            id == old(self)@.next_id,
            final(self)@ == old(self)@.spawned(star_parts(x, y, size, always_pull)),
            old(self).wf() ==> final(self).wf(),
    {
        let wide: u128 = size as u128;
        assert(wide * wide <= 0xffff_ffff * 0xffff_ffff) by (nonlinear_arith)
            requires
                wide <= 0xffff_ffff,
        ;
        assert(wide * wide * wide <= 0xffff_ffff * 0xffff_ffff * 0xffff_ffff) by (nonlinear_arith)
            requires
                wide * wide <= 0xffff_ffff * 0xffff_ffff,
                wide <= 0xffff_ffff,
        ;
        let cube: u128 = wide * wide * wide;
        let m: u128 = 3 * cube / 2_000_000_000;
        let mass: u64 = if m > u64::MAX as u128 {
            u64::MAX
        } else {
            m as u64
        };
        let d: u128 = (mass as u128) * 100_000_000 / 45;
        let reach: u64 = if d > u64::MAX as u128 {
            u64::MAX
        } else {
            d as u64
        };
        let parts = Parts {
            gravity: Some(
                Gravity {
                    mass,
                    reach_sq: if always_pull {
                        None
                    } else {
                        Some(reach)
                    },
                },
            ),
            collider: Some(
                ColliderSource {
                    radius: size,
                    reaction: Reaction::Explosion { size: STAR_BLAST, self_destructs: false },
                    blocks_prediction: true,
                },
            ),
            ..Parts::at(Position { x, y, heading: east() })
        };
        self.spawn(parts)
    }

    /// Adds a ship at rest, and a trail behind it. The ship takes the next
    /// id and its trail the one after.
    pub fn add_ship(&mut self, x: i32, y: i32, radius: u32, ship: Ship) -> (id: u64)
        requires
            old(self)@.next_id < u64::MAX - 1,
        ensures
            id == old(self)@.next_id,
            final(self)@ == old(self)@.spawned(ship_parts(x, y, radius, ship)).trailed(
                fresh_trail(id, SHIP_TRAIL_WIDTH, SHIP_TRAIL_COLOR),
            ),
            old(self).wf() ==> final(self).wf(),
    {
        let parts = Parts {
            dynamics: Some(
                Dynamics { velocity_x: 0, velocity_y: 0, external_accel_x: 0, external_accel_y: 0 },
            ),
            target: Some(CollisionTarget { radius }),
            ship: Some(ship),
            ..Parts::at(Position { x, y, heading: east() })
        };
        let id = self.spawn(parts);
        self.add_trail(id, SHIP_TRAIL_WIDTH, SHIP_TRAIL_COLOR);
        id
    }

    /// Sets off a blast of size `size` at `(x, y)`.
    pub fn spawn_explosion(&mut self, x: i32, y: i32, size: u32, collidable: bool) -> (id: u64)
        requires
            old(self)@.next_id < u64::MAX,
        ensures
            id == old(self)@.next_id,
            final(self)@ == old(self)@.spawned(explosion_parts(x, y, size, collidable)),
            old(self).wf() ==> final(self).wf(),
    {
        let t = blast_thresholds(size);
        let wide: u64 = size as u64;
        let parts = Parts {
            explosion: Some(
                Explosion {
                    grow_size: size,
                    t_grow: t.0,
                    t_stay: t.1,
                    t_fade: t.2,
                    elapsed: 0,
                    scale: 0,
                },
            ),
            collider: if collidable {
                Some(
                    ColliderSource {
                        radius: 0,
                        reaction: Reaction::Explosion {
                            size: (wide * 2 / 3) as u32,
                            self_destructs: false,
                        },
                        blocks_prediction: false,
                    },
                )
            } else {
                None
            },
            ..Parts::at(Position { x, y, heading: east() })
        };
        self.spawn(parts)
    }

    /// Launches a projectile of collision radius `radius`, and a trail
    /// behind it. The projectile takes the next id and its trail the one
    /// after.
    pub fn spawn_nuke(&mut self, launch: Launch, radius: u32) -> (id: u64)
        requires
            old(self)@.next_id < u64::MAX - 1,
        ensures
            id == old(self)@.next_id,
            final(self)@ == launched(old(self)@, launch, radius),
            old(self).wf() ==> final(self).wf(),
    {
        let parts = Parts {
            dynamics: Some(
                Dynamics {
                    velocity_x: launch.velocity_x,
                    velocity_y: launch.velocity_y,
                    external_accel_x: 0,
                    external_accel_y: 0,
                },
            ),
            target: Some(CollisionTarget { radius }),
            rocket: if launch.thrust != 0 {
                Some(Rocket { thrust: launch.thrust, target: launch.target })
            } else {
                None
            },
            collider: Some(
                ColliderSource {
                    radius,
                    reaction: Reaction::Explosion { size: launch.blast, self_destructs: true },
                    blocks_prediction: false,
                },
            ),
            ..Parts::at(launch.position)
        };
        let id = self.spawn(parts);
        self.add_trail(id, NUKE_TRAIL_WIDTH, NUKE_TRAIL_COLOR);
        id
    }
}

/// The state after a projectile was launched: the projectile, then its trail.
pub open spec fn launched(w: WorldView, launch: Launch, radius: u32) -> WorldView {
    w.spawned(nuke_parts(launch, radius)).trailed(
        fresh_trail(w.next_id, NUKE_TRAIL_WIDTH, NUKE_TRAIL_COLOR),
    )
}

} // verus!
