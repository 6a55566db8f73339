//! The player's controls: where the ship points, whether it thrusts, and
//! whether it releases a projectile.

use crate::aim::{heading_along, heading_of, thrust_against, thrust_of};
use crate::components::{Dynamics, Position, Ship};
use crate::model::{lemma_wf_by_shape, WorldView};
use crate::scalar::{abs_wide, add_sat, clamp, delta, magnitude, scaled};
use crate::spawn::{launched, Launch};
use crate::world::World;
use vstd::prelude::*;

verus! {

/// The thrust, the blast, the distance from the ship and the speed relative
/// to the ship at which the player's projectile starts.
pub const NUKE_THRUST: i32 = 15_000;

pub const NUKE_BLAST: u32 = 900_000;

pub const NUKE_DISTANCE: i32 = 18_000;

pub const NUKE_SPEED: i32 = 750_000;

/// What the player asks of the ship in one tick.
#[derive(Clone, Copy, Debug, PartialEq, Eq, Structural)]
pub struct Controls {
    /// The point that the ship turns its back to: it thrusts toward it.
    pub aim_x: i32,
    pub aim_y: i32,
    pub thrust: bool,
    pub fire: bool,
}

/// Whether the world has a player that can be steered: a player with a
/// position, dynamics and a ship.
pub open spec fn steerable(w: WorldView) -> bool {
    &&& w.player.is_some()
    &&& w.positions.contains_key(w.player.unwrap())
    &&& w.dynamics.contains_key(w.player.unwrap())
    &&& w.ships.contains_key(w.player.unwrap())
}

/// The heading that the controls give a ship at `at`.
pub open spec fn turned(at: Position, c: Controls) -> crate::components::Heading {
    heading_along(at.x - c.aim_x, at.y - c.aim_y)
}

/// The acceleration that the controls give the ship: full thrust while
/// there is fuel, the reserve thrust without, none unless asked for.
pub open spec fn drive(ship: Ship, at: Position, c: Controls) -> (int, int) {
    if c.thrust {
        thrust_against(
            turned(at, c),
            if ship.fuel > 0 {
                ship.thrust as int
            } else {
                ship.empty_thrust as int
            },
        )
    } else {
        (0, 0)
    }
}

/// The fuel left after `dt` milliseconds under the acceleration `a`: the
/// magnitude of the sum of its components is burnt per second, down to an
/// empty tank.
pub open spec fn fuel_left(fuel: u64, a: (int, int), dt: int) -> u64 {
    let burnt = scaled(magnitude(a.0 + a.1), dt);
    if burnt >= fuel {
        0
    } else {
        (fuel - burnt) as u64
    }
}

/// Whether the controls release a projectile.
pub open spec fn fires(ship: Ship, c: Controls) -> bool {
    c.fire && ship.ammo > 0
}

/// The projectile that the ship releases: it starts a little way off the
/// ship, on the side that the ship thrusts toward, with the velocity of the
/// ship and its own speed on top, and has no target.
pub open spec fn released(at: Position, d: Dynamics, c: Controls) -> Launch {
    let h = turned(at, c);
    let off = thrust_against(h, NUKE_DISTANCE as int);
    let v = thrust_against(h, NUKE_SPEED as int);
    Launch {
        position: Position {
            x: clamp(at.x + off.0) as i32,
            y: clamp(at.y + off.1) as i32,
            heading: h,
        },
        velocity_x: clamp(d.velocity_x + v.0) as i32,
        velocity_y: clamp(d.velocity_y + v.1) as i32,
        thrust: NUKE_THRUST,
        target: None,
        blast: NUKE_BLAST,
    }
}

/// The state after the controls were applied for a tick of `dt`
/// milliseconds. A world without a steerable player is left as it is.
pub open spec fn controlled(w: WorldView, c: Controls, dt: int, shot_radius: u32) -> WorldView {
    if !steerable(w) {
        w
    } else {
        let id = w.player.unwrap();
        let at = w.positions[id];
        let d = w.dynamics[id];
        let ship = w.ships[id];
        let a = drive(ship, at, c);
        let steered = WorldView {
            positions: w.positions.insert(id, Position { heading: turned(at, c), ..at }),
            dynamics: w.dynamics.insert(
                id,
                Dynamics { external_accel_x: a.0 as i32, external_accel_y: a.1 as i32, ..d },
            ),
            ships: w.ships.insert(
                id,
                Ship {
                    fuel: fuel_left(ship.fuel, a, dt),
                    ammo: if fires(ship, c) {
                        (ship.ammo - 1) as u32
                    } else {
                        ship.ammo
                    },
                    ..ship
                },
            ),
            ..w
        };
        if fires(ship, c) {
            launched(steered, released(at, d, c), shot_radius)
        } else {
            steered
        }
    }
}

impl World {
    /// Applies the player's controls for a tick of `dt` milliseconds, and
    /// says whether a projectile was released. A projectile has the
    /// collision radius `shot_radius`.
    pub fn apply_controls(&mut self, c: Controls, dt: u32, shot_radius: u32) -> (fired: bool)
        requires
            old(self)@.next_id < u64::MAX - 1,
        ensures
            final(self)@ == controlled(old(self)@, c, dt as int, shot_radius),
            fired == (steerable(old(self)@) && fires(
                old(self)@.ships[old(self)@.player.unwrap()],
                c,
            )),
            old(self).wf() ==> final(self).wf(),
    {
        let id: u64 = match self.player {
            Some(p) => p,
            None => {
                return false;
            },
        };
        let at: Position = match self.positions.get(id) {
            Some(p) => *p,
            None => {
                return false;
            },
        };
        let d: Dynamics = match self.dynamics.get(id) {
            Some(d) => *d,
            None => {
                return false;
            },
        };
        let ship: Ship = match self.ships.get(id) {
            Some(s) => *s,
            None => {
                return false;
            },
        };
        let h = heading_of(delta(at.x, c.aim_x), delta(at.y, c.aim_y));
        let a: (i32, i32) = if c.thrust {
            thrust_of(
                h,
                if ship.fuel > 0 {
                    ship.thrust
                } else {
                    ship.empty_thrust
                },
            )
        } else {
            (0, 0)
        };
        let sum: i64 = a.0 as i64 + a.1 as i64;
        let size: u128 = abs_wide(sum);
        let span: u128 = dt as u128;
        assert(0 <= size * span <= 0x1_0000_0000 * 0x1_0000_0000) by (nonlinear_arith)
            requires
                0 <= size <= 0x1_0000_0000,
                0 <= span <= 0x1_0000_0000,
        ;
        let burnt: u128 = size * span / 1000;
        let fuel: u64 = if burnt >= ship.fuel as u128 {
            0
        } else {
            ship.fuel - burnt as u64
        };
        let fired: bool = c.fire && ship.ammo > 0;
        self.positions.attach(id, Position { x: at.x, y: at.y, heading: h });
        self.dynamics.attach(
            id,
            Dynamics {
                velocity_x: d.velocity_x,
                velocity_y: d.velocity_y,
                external_accel_x: a.0,
                external_accel_y: a.1,
            },
        );
        self.ships.attach(
            id,
            Ship {
                thrust: ship.thrust,
                empty_thrust: ship.empty_thrust,
                fuel,
                ammo: if fired {
                    ship.ammo - 1
                } else {
                    ship.ammo
                },
            },
        );
        proof {
            assert(self@.positions.dom() =~= old(self)@.positions.dom());
            assert(self@.dynamics.dom() =~= old(self)@.dynamics.dom());
            assert(self@.ships.dom() =~= old(self)@.ships.dom());
            crate::registry::lemma_same_ids_refl(old(self)@.entities);
            if old(self).wf() {
                lemma_wf_by_shape(old(self)@, self@);
            }
        }
        if fired {
            let off = thrust_of(h, NUKE_DISTANCE);
            let v = thrust_of(h, NUKE_SPEED);
            let launch = Launch {
                position: Position {
                    x: add_sat(at.x, off.0 as i128),
                    y: add_sat(at.y, off.1 as i128),
                    heading: h,
                },
                velocity_x: add_sat(d.velocity_x, v.0 as i128),
                velocity_y: add_sat(d.velocity_y, v.1 as i128),
                thrust: NUKE_THRUST,
                target: None,
                blast: NUKE_BLAST,
            };
            self.spawn_nuke(launch, shot_radius);
        }
        fired
    }
}

} // verus!
