use rusty_raid::collision::{touches, Blast};
use rusty_raid::components::{
    ColliderSource, CollisionTarget, Heading, Position, Reaction, Ship,
};
use rusty_raid::model::Parts;
use rusty_raid::world::World;

fn pose(x: i32, y: i32) -> Position {
    Position { x, y, heading: Heading { x: 1000, y: 0 } }
}

fn collider(w: &mut World, x: i32, y: i32, radius: u32, reaction: Reaction) -> u64 {
    w.spawn(Parts {
        collider: Some(ColliderSource { radius, reaction, blocks_prediction: false }),
        ..Parts::at(pose(x, y))
    })
}

fn target(w: &mut World, x: i32, y: i32, radius: u32) -> u64 {
    w.spawn(Parts { target: Some(CollisionTarget { radius }), ..Parts::at(pose(x, y)) })
}

fn ship(w: &mut World, x: i32, y: i32, radius: u32, fuel: u64) -> u64 {
    w.spawn(Parts {
        target: Some(CollisionTarget { radius }),
        ship: Some(Ship { thrust: 69_000, empty_thrust: 12_000, fuel, ammo: 15 }),
        ..Parts::at(pose(x, y))
    })
}

#[test]
fn collision_threshold_is_inclusive() {
    // Radii 3 and 2, centers 5 apart: the sum squared equals the distance
    // squared.
    assert!(touches(3000, 0, 0, 2000, 3000, 4000));
    assert!(touches(3000, 0, 0, 2000, 5000, 0));
    assert!(!touches(3000, 0, 0, 2000, 5001, 0));
    assert!(!touches(3000, 0, 0, 1999, 3000, 4000));
}

#[test]
fn circles_that_overlap_touch() {
    assert!(touches(10, 0, 0, 10, 5, 5));
    assert!(touches(0, 7, 7, 0, 7, 7));
    assert!(touches(1, 0, 0, 0, 0, 1));
}

#[test]
fn circles_far_apart_do_not_touch() {
    assert!(!touches(0, 0, 0, 0, 0, 1));
    assert!(!touches(u32::MAX, i32::MIN, i32::MIN, 0, i32::MAX, i32::MAX));
    assert!(touches(u32::MAX, i32::MIN, 0, u32::MAX, i32::MAX, 0));
}

#[test]
fn find_impact_is_the_first_collider_in_registry_order() {
    let mut w = World::new();
    let far = collider(&mut w, 1000, 0, 10, Reaction::Inert);
    let a = collider(&mut w, 5, 0, 10, Reaction::Inert);
    let b = collider(&mut w, 0, 5, 10, Reaction::Inert);
    let t = target(&mut w, 0, 0, 1);
    assert_eq!(w.find_impact(t), Some(a));
    assert_eq!(w.find_impact(far), None);
    assert_eq!(w.find_impact(b), None);
}

#[test]
fn find_impact_leaves_out_the_target_itself() {
    let mut w = World::new();
    let id = w.spawn(Parts {
        collider: Some(ColliderSource {
            radius: 10,
            reaction: Reaction::Inert,
            blocks_prediction: false,
        }),
        target: Some(CollisionTarget { radius: 10 }),
        ..Parts::at(pose(0, 0))
    });
    assert_eq!(w.find_impact(id), None);
}

#[test]
fn explosion_flags_the_target_and_queues_a_blast_where_it_is() {
    let mut w = World::new();
    let star =
        collider(&mut w, 318_000, 0, 300_000, Reaction::Explosion {
            size: 1_500_000,
            self_destructs: false,
        });
    let s = ship(&mut w, 0, 0, 18_000, 0);
    w.step_collisions();
    assert!(w.registry.flagged_for_destroy(s));
    assert!(!w.registry.flagged_for_destroy(star));
    // The blast is a new entity at the target's place.
    let blast = 3;
    assert_eq!(w.registry.len(), 3);
    assert_eq!(*w.positions.get(blast).unwrap(), pose(0, 0));
    let e = *w.explosions.get(blast).unwrap();
    assert_eq!(e.grow_size, 1_500_000);
    assert_eq!((e.t_grow, e.t_stay, e.t_fade), (2700, 4500, 5850));
    assert_eq!((e.elapsed, e.scale), (0, 0));
    assert_eq!(
        *w.colliders.get(blast).unwrap(),
        ColliderSource {
            radius: 0,
            reaction: Reaction::Explosion { size: 1_000_000, self_destructs: false },
            blocks_prediction: false,
        }
    );
    assert!(w.is_well_formed());
}

#[test]
fn deferred_destruction_keeps_the_components_of_what_was_hit() {
    let mut w = World::new();
    collider(&mut w, 0, 0, 300_000, Reaction::Explosion { size: 1_500_000, self_destructs: false });
    let s = ship(&mut w, 100_000, 0, 18_000, 77);
    w.step_collisions();
    assert!(w.registry.flagged_for_destroy(s));
    assert_eq!(*w.positions.get(s).unwrap(), pose(100_000, 0));
    assert_eq!(w.ships.get(s).unwrap().fuel, 77);
    assert!(w.targets.contains(s));
    assert!(w.registry.contains(s));
}

#[test]
fn projectile_that_hits_takes_itself_along() {
    // A ship runs into a projectile: the projectile's blast goes off where
    // the projectile is, and both are flagged, whichever stands first.
    let mut w = World::new();
    let s = ship(&mut w, 0, 0, 18_000, 0);
    let nuke = w.spawn(Parts {
        collider: Some(ColliderSource {
            radius: 5000,
            reaction: Reaction::Explosion { size: 900_000, self_destructs: true },
            blocks_prediction: false,
        }),
        target: Some(CollisionTarget { radius: 5000 }),
        ..Parts::at(pose(20_000, 0))
    });
    w.step_collisions();
    assert!(w.registry.flagged_for_destroy(s));
    assert!(w.registry.flagged_for_destroy(nuke));
    assert_eq!(w.registry.len(), 3);
    assert_eq!(*w.positions.get(3).unwrap(), pose(20_000, 0));
    assert_eq!(w.explosions.get(3).unwrap().grow_size, 900_000);
}

#[test]
fn projectile_that_is_hit_blasts_with_its_own_size() {
    // A projectile runs into a star: its own blast goes off, not the star's.
    let mut w = World::new();
    let star =
        collider(&mut w, 0, 0, 300_000, Reaction::Explosion {
            size: 1_500_000,
            self_destructs: false,
        });
    let nuke = w.spawn(Parts {
        collider: Some(ColliderSource {
            radius: 5000,
            reaction: Reaction::Explosion { size: 900_000, self_destructs: true },
            blocks_prediction: false,
        }),
        target: Some(CollisionTarget { radius: 5000 }),
        ..Parts::at(pose(300_000, 0))
    });
    w.step_collisions();
    assert!(w.registry.flagged_for_destroy(nuke));
    assert!(!w.registry.flagged_for_destroy(star));
    assert_eq!(w.registry.len(), 3);
    assert_eq!(*w.positions.get(3).unwrap(), pose(300_000, 0));
    assert_eq!(w.explosions.get(3).unwrap().grow_size, 900_000);
}

#[test]
fn two_projectiles_that_meet_both_blast() {
    let mut w = World::new();
    let make = |w: &mut World, x: i32, size: u32| {
        w.spawn(Parts {
            collider: Some(ColliderSource {
                radius: 5000,
                reaction: Reaction::Explosion { size, self_destructs: true },
                blocks_prediction: false,
            }),
            target: Some(CollisionTarget { radius: 5000 }),
            ..Parts::at(pose(x, 0))
        })
    };
    let a = make(&mut w, 0, 100_000);
    let b = make(&mut w, 1000, 200_000);
    w.step_collisions();
    assert!(w.registry.flagged_for_destroy(a));
    assert!(w.registry.flagged_for_destroy(b));
    // Target a: its own blast at a, then b's at b. Target b: its own at b,
    // then a's at a.
    assert_eq!(w.registry.len(), 6);
    let seen: Vec<(i32, u32)> = (3..7)
        .map(|id| (w.positions.get(id).unwrap().x, w.explosions.get(id).unwrap().grow_size))
        .collect();
    assert_eq!(seen, vec![(0, 100_000), (1000, 200_000), (1000, 200_000), (0, 100_000)]);
}

#[test]
fn strike_queues_in_order() {
    let mut w = World::new();
    let star =
        collider(&mut w, 0, 0, 300_000, Reaction::Explosion {
            size: 1_500_000,
            self_destructs: false,
        });
    let t = target(&mut w, 5, 6, 1);
    let mut queue = vec![Blast { x: 1, y: 1, size: 1 }];
    w.strike(t, star, &mut queue);
    assert_eq!(
        queue,
        vec![Blast { x: 1, y: 1, size: 1 }, Blast { x: 5, y: 6, size: 1_500_000 }]
    );
    assert!(w.registry.flagged_for_destroy(t));
}

#[test]
fn strike_needs_a_placed_collider_and_a_placed_target() {
    let mut w = World::new();
    let t = target(&mut w, 5, 6, 1);
    let mut queue: Vec<Blast> = Vec::new();
    w.strike(t, 99, &mut queue);
    w.strike(99, t, &mut queue);
    assert_eq!(queue, Vec::<Blast>::new());
    assert!(!w.registry.flagged_for_destroy(t));
    let c = collider(&mut w, 0, 0, 1, Reaction::Explosion { size: 5, self_destructs: true });
    w.strike(99, c, &mut queue);
    assert_eq!(queue, Vec::<Blast>::new());
    assert!(!w.registry.flagged_for_destroy(c));
}

#[test]
fn fuel_goes_to_a_ship_and_the_pickup_is_flagged() {
    let mut w = World::new();
    let pickup = collider(&mut w, 0, 0, 100_000, Reaction::FuelRefill { amount: 450_000 });
    let s = ship(&mut w, 50_000, 0, 18_000, 1_200_000);
    w.step_collisions();
    assert_eq!(w.ships.get(s).unwrap().fuel, 1_650_000);
    assert!(w.registry.flagged_for_destroy(pickup));
    assert!(!w.registry.flagged_for_destroy(s));
    assert_eq!(w.registry.len(), 2);
}

#[test]
fn fuel_is_not_for_what_is_no_ship() {
    let mut w = World::new();
    let pickup = collider(&mut w, 0, 0, 100_000, Reaction::FuelRefill { amount: 450_000 });
    let t = target(&mut w, 50_000, 0, 18_000);
    w.step_collisions();
    assert!(!w.registry.flagged_for_destroy(pickup));
    assert!(!w.registry.flagged_for_destroy(t));
}

#[test]
fn fuel_tops_out_at_a_full_tank() {
    let mut w = World::new();
    collider(&mut w, 0, 0, 100_000, Reaction::FuelRefill { amount: 450_000 });
    let s = ship(&mut w, 50_000, 0, 18_000, u64::MAX - 5);
    w.step_collisions();
    assert_eq!(w.ships.get(s).unwrap().fuel, u64::MAX);
}

#[test]
fn open_portal_takes_a_ship() {
    let mut w = World::new();
    let portal = collider(&mut w, 0, 0, 300_000, Reaction::PortalTrigger);
    let s = ship(&mut w, 50_000, 0, 18_000, 0);
    assert!(!w.finished);
    w.step_collisions();
    assert!(w.finished);
    assert!(!w.registry.flagged_for_destroy(s));
    assert!(!w.registry.flagged_for_destroy(portal));
    assert_eq!(w.registry.len(), 2);
}

#[test]
fn open_portal_takes_nothing_but_a_ship() {
    let mut w = World::new();
    collider(&mut w, 0, 0, 300_000, Reaction::PortalTrigger);
    target(&mut w, 50_000, 0, 18_000);
    w.step_collisions();
    assert!(!w.finished);
}

#[test]
fn shut_portal_does_nothing() {
    let mut w = World::new();
    let portal = collider(&mut w, 0, 0, 300_000, Reaction::Inert);
    let s = ship(&mut w, 50_000, 0, 18_000, 3);
    w.step_collisions();
    assert!(!w.finished);
    assert!(!w.registry.flagged_for_destroy(s));
    assert!(!w.registry.flagged_for_destroy(portal));
    assert_eq!(w.ships.get(s).unwrap().fuel, 3);
    assert_eq!(w.registry.len(), 2);
}

#[test]
fn only_the_first_collider_reacts() {
    let mut w = World::new();
    collider(&mut w, 0, 0, 100_000, Reaction::Inert);
    let pickup = collider(&mut w, 0, 0, 100_000, Reaction::FuelRefill { amount: 450_000 });
    let s = ship(&mut w, 50_000, 0, 18_000, 0);
    w.step_collisions();
    assert_eq!(w.ships.get(s).unwrap().fuel, 0);
    assert!(!w.registry.flagged_for_destroy(pickup));
}

#[test]
fn no_collision_changes_nothing() {
    let mut w = World::new();
    collider(&mut w, 0, 0, 100, Reaction::Explosion { size: 5, self_destructs: true });
    let t = target(&mut w, 1000, 0, 100);
    w.step_collisions();
    assert!(!w.registry.flagged_for_destroy(t));
    assert_eq!(w.registry.len(), 2);
}
