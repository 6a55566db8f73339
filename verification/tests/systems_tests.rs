use rusty_raid::components::{
    ColliderSource, CollisionTarget, Dynamics, Explosion, Heading, Position, Reaction, Rocket,
    Ship,
};
use rusty_raid::controls::Controls;
use rusty_raid::explosion::age;
use rusty_raid::model::Parts;
use rusty_raid::spawn::Launch;
use rusty_raid::turret::{aim_at, cuts_segment, sight_blocked};
use rusty_raid::world::World;

fn pose(x: i32, y: i32) -> Position {
    Position { x, y, heading: Heading { x: 1000, y: 0 } }
}

fn still() -> Dynamics {
    Dynamics { velocity_x: 0, velocity_y: 0, external_accel_x: 0, external_accel_y: 0 }
}

fn player_ship(w: &mut World, x: i32, y: i32, fuel: u64, ammo: u32) -> u64 {
    let id = w.add_ship(
        x,
        y,
        18_000,
        Ship { thrust: 69_000, empty_thrust: 12_000, fuel, ammo },
    );
    w.make_player(id);
    id
}

fn star(w: &mut World, x: i32, y: i32, radius: u32) -> u64 {
    w.spawn(Parts {
        collider: Some(ColliderSource {
            radius,
            reaction: Reaction::Explosion { size: 1_500_000, self_destructs: false },
            blocks_prediction: true,
        }),
        ..Parts::at(pose(x, y))
    })
}

fn blast(size: u32, t: (i32, i32, i32), elapsed: i32, scale: u32) -> Explosion {
    Explosion { grow_size: size, t_grow: t.0, t_stay: t.1, t_fade: t.2, elapsed, scale }
}

// Blasts

#[test]
fn blast_grows_with_the_root_of_time() {
    let e = blast(1_500_000, (2700, 4500, 5850), 0, 0);
    assert_eq!(age(e, 675).scale, 500);
    assert_eq!(age(e, 675).elapsed, 675);
    assert_eq!(age(e, 2700).scale, 1000);
    assert_eq!(age(e, 1).scale, 19);
    assert_eq!(age(e, 0).scale, 0);
    assert_eq!(age(e, 27).scale, 100);
}

#[test]
fn blast_holds_its_size() {
    let e = blast(1_500_000, (2700, 4500, 5850), 2700, 1000);
    assert_eq!(age(e, 1), blast(1_500_000, (2700, 4500, 5850), 2701, 1000));
    assert_eq!(age(e, 1800), blast(1_500_000, (2700, 4500, 5850), 4500, 1000));
}

#[test]
fn blast_fades_with_time() {
    let e = blast(1_500_000, (2700, 4500, 5850), 4500, 1000);
    assert_eq!(age(e, 1).scale, 1000);
    assert_eq!(age(e, 500).scale, 630);
    assert_eq!(age(e, 675).scale, 500);
    assert_eq!(age(e, 1350).scale, 0);
}

#[test]
fn blast_that_has_expired_keeps_its_size() {
    let e = blast(1_500_000, (2700, 4500, 5850), 5850, 0);
    assert_eq!(age(e, 1), blast(1_500_000, (2700, 4500, 5850), 5851, 0));
    let late = blast(1_500_000, (2700, 4500, 5850), i32::MAX, 17);
    assert_eq!(age(late, u32::MAX), late);
}

#[test]
fn blast_without_a_growing_time_does_not_grow() {
    let e = blast(1000, (0, 10, 20), 0, 0);
    assert_eq!(age(e, 0).scale, 0);
    assert_eq!(age(e, 1), blast(1000, (0, 10, 20), 1, 0));
}

#[test]
fn blast_drives_its_collider() {
    let mut w = World::new();
    let id = w.spawn_explosion(5, 6, 1_500_000, true);
    w.step_explosions(675);
    assert_eq!(w.explosions.get(id).unwrap().scale, 500);
    assert_eq!(w.colliders.get(id).unwrap().radius, 750_000);
    assert_eq!(
        w.colliders.get(id).unwrap().reaction,
        Reaction::Explosion { size: 1_000_000, self_destructs: false }
    );
    w.step_explosions(2025);
    assert_eq!(w.colliders.get(id).unwrap().radius, 1_500_000);
    w.step_explosions(1000);
    assert_eq!(w.colliders.get(id).unwrap().radius, 1_500_000);
    w.step_explosions(1300);
    // Fading: 500 of 1350 ms gone.
    assert_eq!(w.explosions.get(id).unwrap().scale, 630);
    assert_eq!(w.colliders.get(id).unwrap().radius, 945_000);
    assert!(!w.registry.flagged_for_destroy(id));
    w.step_explosions(850);
    assert_eq!(w.explosions.get(id).unwrap().scale, 0);
    assert_eq!(w.colliders.get(id).unwrap().radius, 0);
    assert!(!w.registry.flagged_for_destroy(id));
    w.step_explosions(1);
    assert!(w.registry.flagged_for_destroy(id));
    assert!(w.explosions.contains(id));
    w.sweep();
    assert!(!w.explosions.contains(id));
}

#[test]
fn blast_without_a_collider_ages_alone() {
    let mut w = World::new();
    let id = w.spawn_explosion(5, 6, 1_500_000, false);
    assert!(!w.colliders.contains(id));
    w.step_explosions(675);
    assert_eq!(w.explosions.get(id).unwrap().scale, 500);
    assert!(!w.colliders.contains(id));
}

#[test]
fn blast_phases_never_go_back() {
    let mut e = blast(1_500_000, (2700, 4500, 5850), 0, 0);
    let mut last = 0;
    for _ in 0..800 {
        e = age(e, 9);
        let rank = if e.elapsed <= e.t_grow {
            0
        } else if e.elapsed <= e.t_stay {
            1
        } else if e.elapsed <= e.t_fade {
            2
        } else {
            3
        };
        assert!(rank >= last);
        last = rank;
    }
    assert_eq!(last, 3);
}

// Rockets

#[test]
fn rocket_turns_to_its_target_and_thrusts_toward_it() {
    let mut w = World::new();
    let target = w.spawn(Parts::at(pose(3_000_000, 4_000_000)));
    let r = w.spawn(Parts {
        dynamics: Some(still()),
        rocket: Some(Rocket { thrust: 180_000, target: Some(target) }),
        ..Parts::at(pose(0, 0))
    });
    w.step_rockets();
    assert_eq!(w.positions.get(r).unwrap().heading, Heading { x: -600, y: -800 });
    let d = *w.dynamics.get(r).unwrap();
    assert_eq!((d.external_accel_x, d.external_accel_y), (108_000, 144_000));
    assert_eq!((d.velocity_x, d.velocity_y), (0, 0));
    assert_eq!(w.rockets.get(r).unwrap().target, Some(target));
}

#[test]
fn rocket_without_a_target_keeps_its_heading() {
    let mut w = World::new();
    let r = w.spawn(Parts {
        dynamics: Some(still()),
        rocket: Some(Rocket { thrust: 15_000, target: None }),
        ..Parts::at(Position { x: 0, y: 0, heading: Heading { x: 0, y: 1000 } })
    });
    w.step_rockets();
    assert_eq!(w.positions.get(r).unwrap().heading, Heading { x: 0, y: 1000 });
    let d = *w.dynamics.get(r).unwrap();
    assert_eq!((d.external_accel_x, d.external_accel_y), (0, -15_000));
}

#[test]
fn rocket_that_loses_its_target_forgets_it_and_lives_on() {
    let mut w = World::new();
    let target = w.spawn(Parts::at(pose(3_000_000, 4_000_000)));
    let r = w.spawn(Parts {
        dynamics: Some(still()),
        rocket: Some(Rocket { thrust: 180_000, target: Some(target) }),
        ..Parts::at(pose(0, 0))
    });
    w.step_rockets();
    w.flag_destroy(target);
    w.sweep();
    w.step_rockets();
    assert_eq!(w.rockets.get(r).unwrap().target, None);
    assert!(!w.registry.flagged_for_destroy(r));
    // In the tick in which it loses its target its thrust is as it was.
    let d = *w.dynamics.get(r).unwrap();
    assert_eq!((d.external_accel_x, d.external_accel_y), (108_000, 144_000));
    // From then on it keeps its last heading.
    w.step_rockets();
    assert_eq!(w.positions.get(r).unwrap().heading, Heading { x: -600, y: -800 });
    let d = *w.dynamics.get(r).unwrap();
    assert_eq!((d.external_accel_x, d.external_accel_y), (108_000, 144_000));
}

#[test]
fn rocket_follows_a_flagged_target_until_the_sweep() {
    let mut w = World::new();
    let target = w.spawn(Parts::at(pose(0, -5)));
    let r = w.spawn(Parts {
        dynamics: Some(still()),
        rocket: Some(Rocket { thrust: 1000, target: Some(target) }),
        ..Parts::at(pose(0, 0))
    });
    w.flag_destroy(target);
    w.step_rockets();
    assert_eq!(w.rockets.get(r).unwrap().target, Some(target));
    assert_eq!(w.positions.get(r).unwrap().heading, Heading { x: 0, y: 1000 });
}

#[test]
fn rocket_without_dynamics_is_left_alone() {
    let mut w = World::new();
    let r = w.spawn(Parts {
        rocket: Some(Rocket { thrust: 1000, target: Some(99) }),
        ..Parts::at(pose(0, 0))
    });
    w.step_rockets();
    assert_eq!(w.rockets.get(r).unwrap().target, Some(99));
    assert!(w.is_well_formed());
}

// Turrets

#[test]
fn segment_cut_between_its_ends() {
    assert!(cuts_segment(0, 0, 10, 0, 5, 3, 4));
    assert!(!cuts_segment(0, 0, 10, 0, 5, 3, 3));
    assert!(!cuts_segment(0, 0, 10, 0, 5, -3, 3));
    assert!(cuts_segment(0, 0, 10, 0, 5, 0, 1));
    assert!(!cuts_segment(0, 0, 10, 0, 5, 0, 0));
}

#[test]
fn segment_cut_at_its_ends() {
    assert!(cuts_segment(0, 0, 10, 0, -3, 0, 4));
    assert!(cuts_segment(0, 0, 10, 0, 13, 0, 4));
    assert!(cuts_segment(0, 0, 10, 0, 0, 0, 1));
}

#[test]
fn segment_is_not_the_whole_line() {
    assert!(!cuts_segment(0, 0, 10, 0, -5, 0, 4));
    assert!(!cuts_segment(0, 0, 10, 0, 15, 0, 4));
    assert!(!cuts_segment(0, 0, 10, 0, -4, 0, 4));
}

#[test]
fn segment_of_no_length_is_a_point() {
    assert!(cuts_segment(5, 5, 5, 5, 5, 8, 4));
    assert!(!cuts_segment(5, 5, 5, 5, 5, 9, 4));
}

#[test]
fn segment_on_a_slant() {
    // From (0,0) to (8,6), center (1,7): cross 50, squared 2500 against
    // r^2 * 100.
    assert!(!cuts_segment(0, 0, 8_000, 6_000, 1_000, 7_000, 5_000));
    assert!(cuts_segment(0, 0, 8_000, 6_000, 1_000, 7_000, 5_001));
}

#[test]
fn segment_across_the_whole_world() {
    // The diagonal of the world passes the point (0, 3) at 3 / sqrt 2.
    assert!(!cuts_segment(i32::MIN, i32::MIN, i32::MAX, i32::MAX, 0, 3, 2));
    assert!(cuts_segment(i32::MIN, i32::MIN, i32::MAX, i32::MAX, 0, 3, 3));
    assert!(cuts_segment(i32::MIN, i32::MIN, i32::MAX, i32::MAX, 0, 0, 1));
    assert!(!cuts_segment(i32::MIN, i32::MIN, i32::MAX, i32::MAX, 0, 0, 0));
    // A corner off the diagonal is (2^32 - 1) / sqrt 2 away from it.
    assert!(!cuts_segment(
        i32::MIN,
        i32::MIN,
        i32::MAX,
        i32::MAX,
        i32::MIN,
        i32::MAX,
        3_037_000_499
    ));
    assert!(cuts_segment(
        i32::MIN,
        i32::MIN,
        i32::MAX,
        i32::MAX,
        i32::MIN,
        i32::MAX,
        3_037_000_500
    ));
    assert!(cuts_segment(i32::MIN, 0, i32::MAX, 0, 0, i32::MAX, 2147483648));
    assert!(!cuts_segment(i32::MIN, 0, i32::MAX, 0, 0, i32::MAX, 2147483647));
}

#[test]
fn sight_is_blocked_by_blocking_colliders_only() {
    let mut w = World::new();
    w.spawn(Parts {
        collider: Some(ColliderSource {
            radius: 100,
            reaction: Reaction::Inert,
            blocks_prediction: false,
        }),
        ..Parts::at(pose(500, 0))
    });
    assert!(!sight_blocked(&w.registry, &w.colliders, &w.positions, 0, 0, 1000, 0));
    star(&mut w, 500, 150, 100);
    assert!(!sight_blocked(&w.registry, &w.colliders, &w.positions, 0, 0, 1000, 0));
    star(&mut w, 500, -99, 100);
    assert!(sight_blocked(&w.registry, &w.colliders, &w.positions, 0, 0, 1000, 0));
}

#[test]
fn turret_aims_at_the_player() {
    let launch = aim_at(pose(0, 0), pose(3_000_000, 4_000_000), 7);
    assert_eq!(
        launch,
        Launch {
            position: Position { x: 36_000, y: 48_000, heading: Heading { x: -600, y: -800 } },
            velocity_x: 180_000,
            velocity_y: 240_000,
            thrust: 180_000,
            target: Some(7),
            blast: 270_000,
        }
    );
}

#[test]
fn turret_fires_when_a_round_is_due() {
    let mut w = World::new();
    let p = player_ship(&mut w, 3_000_000, 4_000_000, 1_200_000, 15);
    let t = w.add_turret(pose(0, 0), 120_000);
    w.step_turrets(1000, 5000);
    // A round is due when more than its time has gathered.
    assert_eq!(w.turret_clock, 1000);
    assert_eq!(w.registry.len(), 3);
    assert_eq!(w.turrets.get(t).unwrap().until_next_shot, 0);
    w.step_turrets(1, 5000);
    assert_eq!(w.turret_clock, 0);
    assert_eq!(w.turrets.get(t).unwrap().until_next_shot, 2100);
    // The projectile and its trail.
    assert_eq!(w.registry.len(), 5);
    let nuke = 4;
    assert_eq!(
        *w.positions.get(nuke).unwrap(),
        Position { x: 36_000, y: 48_000, heading: Heading { x: -600, y: -800 } }
    );
    let d = *w.dynamics.get(nuke).unwrap();
    assert_eq!((d.velocity_x, d.velocity_y), (180_000, 240_000));
    assert_eq!(*w.rockets.get(nuke).unwrap(), Rocket { thrust: 180_000, target: Some(p) });
    assert_eq!(*w.targets.get(nuke).unwrap(), CollisionTarget { radius: 5000 });
    assert_eq!(
        *w.colliders.get(nuke).unwrap(),
        ColliderSource {
            radius: 5000,
            reaction: Reaction::Explosion { size: 270_000, self_destructs: true },
            blocks_prediction: false,
        }
    );
    assert_eq!(w.trails.get(5).unwrap().target, nuke);
    assert_eq!(w.trails.get(5).unwrap().width, 2000);
    assert!(w.is_well_formed());
}

#[test]
fn turret_cools_down_between_shots() {
    let mut w = World::new();
    player_ship(&mut w, 3_000_000, 4_000_000, 1_200_000, 15);
    let t = w.add_turret(pose(0, 0), 120_000);
    w.step_turrets(1001, 5000);
    assert_eq!(w.registry.len(), 5);
    w.step_turrets(1001, 5000);
    assert_eq!(w.turrets.get(t).unwrap().until_next_shot, 1099);
    assert_eq!(w.registry.len(), 5);
    w.step_turrets(1001, 5000);
    assert_eq!(w.turrets.get(t).unwrap().until_next_shot, 98);
    w.step_turrets(1001, 5000);
    assert_eq!(w.turrets.get(t).unwrap().until_next_shot, 2100);
    assert_eq!(w.registry.len(), 7);
}

#[test]
fn turret_does_not_fire_out_of_range() {
    let mut w = World::new();
    player_ship(&mut w, 8_000_000, 0, 1_200_000, 15);
    let t = w.add_turret(pose(0, 0), 120_000);
    w.step_turrets(1001, 5000);
    assert_eq!(w.registry.len(), 3);
    assert_eq!(w.turrets.get(t).unwrap().until_next_shot, -1001);
}

#[test]
fn turret_fires_just_within_range() {
    let mut w = World::new();
    player_ship(&mut w, 7_999_999, 0, 1_200_000, 15);
    w.add_turret(pose(0, 0), 120_000);
    w.step_turrets(1001, 5000);
    assert_eq!(w.registry.len(), 5);
}

#[test]
fn turret_does_not_fire_through_a_star() {
    let mut w = World::new();
    player_ship(&mut w, 3_000_000, 4_000_000, 1_200_000, 15);
    let t = w.add_turret(pose(0, 0), 120_000);
    star(&mut w, 1_500_000, 2_000_000, 300_000);
    w.step_turrets(1001, 5000);
    assert_eq!(w.registry.len(), 4);
    assert_eq!(w.turrets.get(t).unwrap().until_next_shot, -1001);
}

#[test]
fn turret_fires_past_a_star_beside_the_line() {
    let mut w = World::new();
    player_ship(&mut w, 3_000_000, 4_000_000, 1_200_000, 15);
    w.add_turret(pose(0, 0), 120_000);
    star(&mut w, 4_000_000, -3_000_000, 300_000);
    star(&mut w, -600_000, -800_000, 300_000);
    w.step_turrets(1001, 5000);
    assert_eq!(w.registry.len(), 7);
}

#[test]
fn only_one_turret_fires_in_a_round() {
    let mut w = World::new();
    player_ship(&mut w, 3_000_000, 4_000_000, 1_200_000, 15);
    let a = w.add_turret(pose(0, 0), 120_000);
    let b = w.add_turret(pose(1_000_000, 0), 120_000);
    w.step_turrets(1001, 5000);
    assert_eq!(w.registry.len(), 6);
    assert_eq!(w.turrets.get(a).unwrap().until_next_shot, 2100);
    // The others are left as they are.
    assert_eq!(w.turrets.get(b).unwrap().until_next_shot, 0);
    w.step_turrets(1001, 5000);
    assert_eq!(w.turrets.get(a).unwrap().until_next_shot, 1099);
    assert_eq!(w.turrets.get(b).unwrap().until_next_shot, 2100);
    assert_eq!(w.registry.len(), 8);
}

#[test]
fn turrets_rest_without_a_player() {
    let mut w = World::new();
    let t = w.add_turret(pose(0, 0), 120_000);
    w.step_turrets(1001, 5000);
    assert_eq!(w.turret_clock, 0);
    assert_eq!(w.registry.len(), 1);
    assert_eq!(w.turrets.get(t).unwrap().until_next_shot, 0);
}

#[test]
fn turret_clock_gathers_time() {
    let mut w = World::new();
    w.step_turrets(400, 5000);
    w.step_turrets(400, 5000);
    assert_eq!(w.turret_clock, 800);
    w.step_turrets(400, 5000);
    assert_eq!(w.turret_clock, 0);
}

// Controls

#[test]
fn controls_turn_the_ship_and_thrust_toward_the_aim() {
    let mut w = World::new();
    let p = player_ship(&mut w, 0, 0, 1_200_000, 15);
    let c = Controls { aim_x: 3000, aim_y: 4000, thrust: true, fire: false };
    assert!(!w.apply_controls(c, 1000, 5000));
    assert_eq!(w.positions.get(p).unwrap().heading, Heading { x: -600, y: -800 });
    let d = *w.dynamics.get(p).unwrap();
    assert_eq!((d.external_accel_x, d.external_accel_y), (41_400, 55_200));
    // Fuel burns by the magnitude of the sum of the components.
    assert_eq!(w.ships.get(p).unwrap().fuel, 1_200_000 - 96_600);
    assert_eq!(w.ships.get(p).unwrap().ammo, 15);
}

#[test]
fn controls_without_thrust_clear_the_acceleration() {
    let mut w = World::new();
    let p = player_ship(&mut w, 0, 0, 1_200_000, 15);
    w.apply_controls(Controls { aim_x: 3000, aim_y: 4000, thrust: true, fire: false }, 16, 5000);
    w.apply_controls(Controls { aim_x: 0, aim_y: 5, thrust: false, fire: false }, 16, 5000);
    let d = *w.dynamics.get(p).unwrap();
    assert_eq!((d.external_accel_x, d.external_accel_y), (0, 0));
    assert_eq!(w.positions.get(p).unwrap().heading, Heading { x: 0, y: -1000 });
    assert_eq!(w.ships.get(p).unwrap().fuel, 1_200_000 - 1545);
}

#[test]
fn controls_fall_back_on_the_reserve_thrust() {
    let mut w = World::new();
    let p = player_ship(&mut w, 0, 0, 0, 15);
    w.apply_controls(Controls { aim_x: 1, aim_y: 0, thrust: true, fire: false }, 16, 5000);
    let d = *w.dynamics.get(p).unwrap();
    assert_eq!((d.external_accel_x, d.external_accel_y), (12_000, 0));
    assert_eq!(w.ships.get(p).unwrap().fuel, 0);
}

#[test]
fn controls_burn_the_tank_down_to_empty() {
    let mut w = World::new();
    let p = player_ship(&mut w, 0, 0, 100, 15);
    w.apply_controls(Controls { aim_x: 1, aim_y: 0, thrust: true, fire: false }, 16, 5000);
    assert_eq!(w.ships.get(p).unwrap().fuel, 0);
}

#[test]
fn controls_release_a_projectile() {
    let mut w = World::new();
    let p = player_ship(&mut w, 1000, 2000, 1_200_000, 2);
    let mut d = *w.dynamics.get(p).unwrap();
    d.velocity_x = 10_000;
    d.velocity_y = -20_000;
    w.dynamics.attach(p, d);
    let c = Controls { aim_x: 1000 + 3000, aim_y: 2000 + 4000, thrust: false, fire: true };
    assert!(w.apply_controls(c, 16, 5000));
    assert_eq!(w.ships.get(p).unwrap().ammo, 1);
    let nuke = 3;
    assert_eq!(
        *w.positions.get(nuke).unwrap(),
        Position { x: 1000 + 10_800, y: 2000 + 14_400, heading: Heading { x: -600, y: -800 } }
    );
    let n = *w.dynamics.get(nuke).unwrap();
    assert_eq!((n.velocity_x, n.velocity_y), (10_000 + 450_000, -20_000 + 600_000));
    assert_eq!(*w.rockets.get(nuke).unwrap(), Rocket { thrust: 15_000, target: None });
    assert_eq!(
        w.colliders.get(nuke).unwrap().reaction,
        Reaction::Explosion { size: 900_000, self_destructs: true }
    );
    assert_eq!(w.trails.get(4).unwrap().target, nuke);
    assert!(w.apply_controls(c, 16, 5000));
    assert_eq!(w.ships.get(p).unwrap().ammo, 0);
    assert!(!w.apply_controls(c, 16, 5000));
    assert_eq!(w.ships.get(p).unwrap().ammo, 0);
    assert_eq!(w.registry.len(), 6);
    assert!(w.is_well_formed());
}

#[test]
fn controls_without_a_player_do_nothing() {
    let mut w = World::new();
    let c = Controls { aim_x: 1, aim_y: 1, thrust: true, fire: true };
    assert!(!w.apply_controls(c, 16, 5000));
    assert_eq!(w.registry.len(), 0);
    let id = w.spawn(Parts::at(pose(0, 0)));
    w.make_player(id);
    assert!(!w.apply_controls(c, 16, 5000));
    assert_eq!(*w.positions.get(id).unwrap(), pose(0, 0));
    assert_eq!(w.registry.len(), 1);
}

#[test]
fn set_thrust_of_what_has_no_dynamics_does_nothing() {
    let mut w = World::new();
    let id = w.spawn(Parts::at(pose(0, 0)));
    w.set_thrust(id, Heading { x: 0, y: -1000 }, 500);
    w.set_thrust(99, Heading { x: 0, y: -1000 }, 500);
    assert_eq!(w.dynamics.len(), 0);
}

#[test]
fn set_thrust_writes_the_external_acceleration() {
    let mut w = World::new();
    let id = w.spawn(Parts {
        dynamics: Some(Dynamics {
            velocity_x: 1,
            velocity_y: 2,
            external_accel_x: 3,
            external_accel_y: 4,
        }),
        ..Parts::at(pose(0, 0))
    });
    w.set_thrust(id, Heading { x: 0, y: -1000 }, 500);
    assert_eq!(
        *w.dynamics.get(id).unwrap(),
        Dynamics { velocity_x: 1, velocity_y: 2, external_accel_x: 0, external_accel_y: 500 }
    );
}
