//! The component records. Each is plain data attached to an entity id and
//! kept in a store of its own kind; none owns another.

use vstd::prelude::*;

verus! {

/// A point of the plane.
#[derive(Clone, Copy, Debug, PartialEq, Eq, Structural)]
pub struct Point {
    pub x: i32,
    pub y: i32,
}

/// A direction, as a vector of length one unit (a thousand steps), up to
/// rounding. It stands for the angle of a pose.
#[derive(Clone, Copy, Debug, PartialEq, Eq, Structural)]
pub struct Heading {
    pub x: i32,
    pub y: i32,
}

/// World-space pose.
#[derive(Clone, Copy, Debug, PartialEq, Eq, Structural)]
pub struct Position {
    pub x: i32,
    pub y: i32,
    pub heading: Heading,
}

/// Marks a force source. `reach_sq` bounds the squared distance up to which
/// it pulls; `None` is an unbounded reach.
#[derive(Clone, Copy, Debug, PartialEq, Eq, Structural)]
pub struct Gravity {
    pub mass: u64,
    pub reach_sq: Option<u64>,
}

/// Marks a force-integrable entity. The external acceleration is written by
/// thrust and guidance and consumed by the movement step.
#[derive(Clone, Copy, Debug, PartialEq, Eq, Structural)]
pub struct Dynamics {
    pub velocity_x: i32,
    pub velocity_y: i32,
    pub external_accel_x: i32,
    pub external_accel_y: i32,
}

/// What a collider does to whatever runs into it.
#[derive(Clone, Copy, Debug, PartialEq, Eq, Structural)]
pub enum Reaction {
    Inert,
    Explosion { size: u32, self_destructs: bool },
    FuelRefill { amount: u32 },
    PortalTrigger,
}

/// Marks an entity that others can collide into.
#[derive(Clone, Copy, Debug, PartialEq, Eq, Structural)]
pub struct ColliderSource {
    pub radius: u32,
    pub reaction: Reaction,
    pub blocks_prediction: bool,
}

/// Marks an entity that is tested against every collider.
#[derive(Clone, Copy, Debug, PartialEq, Eq, Structural)]
pub struct CollisionTarget {
    pub radius: u32,
}

/// A player-controlled craft.
#[derive(Clone, Copy, Debug, PartialEq, Eq, Structural)]
pub struct Ship {
    pub thrust: i32,
    pub empty_thrust: i32,
    pub fuel: u64,
    pub ammo: u32,
}

/// A homing projectile's drive.
#[derive(Clone, Copy, Debug, PartialEq, Eq, Structural)]
pub struct Rocket {
    pub thrust: i32,
    pub target: Option<u64>,
}

/// A launcher with a cooldown, in milliseconds.
#[derive(Clone, Copy, Debug, PartialEq, Eq, Structural)]
pub struct Turret {
    pub fire_rate: i32,
    pub until_next_shot: i32,
}

/// A blast that grows, holds and fades. The three thresholds and the elapsed
/// time are in milliseconds; `scale` is the current size in thousandths of
/// `grow_size`.
#[derive(Clone, Copy, Debug, PartialEq, Eq, Structural)]
pub struct Explosion {
    pub grow_size: u32,
    pub t_grow: i32,
    pub t_stay: i32,
    pub t_fade: i32,
    pub elapsed: i32,
    pub scale: u32,
}

/// A forecast of the path of `target`. The first `valid_len` slots of `path`
/// hold the points of the last forecast.
#[derive(Debug)]
pub struct Predictable {
    pub target: u64,
    pub path: Vec<Point>,
    pub step: i32,
    pub refresh_rate: i32,
    pub until_refresh: i32,
    pub valid_len: usize,
    pub collidable: bool,
    pub color: u32,
}

/// A bounded breadcrumb buffer behind `target`, newest point first.
#[derive(Debug)]
pub struct Trail {
    pub target: u64,
    pub points: Vec<Point>,
    pub max_len: usize,
    pub width: u32,
    pub color: u32,
    pub min_spacing: u32,
}

} // verus!
