use rusty_raid::components::{
    ColliderSource, CollisionTarget, Dynamics, Gravity, Heading, Point, Position, Reaction,
};
use rusty_raid::model::Parts;
use rusty_raid::predict::{path_blocked, Probe};
use rusty_raid::world::World;

fn pose(x: i32, y: i32) -> Position {
    Position { x, y, heading: Heading { x: 1000, y: 0 } }
}

fn craft(w: &mut World, x: i32, y: i32, vx: i32, vy: i32, radius: u32) -> u64 {
    w.spawn(Parts {
        dynamics: Some(Dynamics {
            velocity_x: vx,
            velocity_y: vy,
            external_accel_x: 0,
            external_accel_y: 0,
        }),
        target: Some(CollisionTarget { radius }),
        ..Parts::at(pose(x, y))
    })
}

fn wall(w: &mut World, x: i32, y: i32, radius: u32, blocks: bool) -> u64 {
    w.spawn(Parts {
        collider: Some(ColliderSource {
            radius,
            reaction: Reaction::Inert,
            blocks_prediction: blocks,
        }),
        ..Parts::at(pose(x, y))
    })
}

fn points(w: &World, forecast: u64) -> Vec<Point> {
    let p = w.predictables.get(forecast).unwrap();
    p.path[..p.valid_len].to_vec()
}

#[test]
fn forecast_of_a_straight_flight() {
    let mut w = World::new();
    let c = craft(&mut w, 0, 0, 100_000, -50_000, 18_000);
    let f = w.add_prediction(c);
    w.step_predictions(16);
    let p = w.predictables.get(f).unwrap();
    assert_eq!(p.valid_len, 45);
    assert_eq!(p.path.len(), 45);
    for (k, pt) in p.path.iter().enumerate() {
        assert_eq!(*pt, Point { x: 27_000 * k as i32, y: -13_500 * k as i32 });
    }
    assert!(!w.registry.flagged_for_destroy(f));
}

#[test]
fn forecast_starts_at_the_live_position() {
    let mut w = World::new();
    let c = craft(&mut w, 123, -456, 1000, 1000, 1);
    let f = w.add_prediction(c);
    w.step_predictions(0);
    assert_eq!(points(&w, f)[0], Point { x: 123, y: -456 });
}

#[test]
fn forecast_falls_through_the_field() {
    let mut w = World::new();
    w.spawn(Parts {
        gravity: Some(Gravity { mass: 40_500_000, reach_sq: None }),
        ..Parts::at(pose(0, 0))
    });
    let c = craft(&mut w, 1_000_000, 0, 0, 0, 18_000);
    let f = w.add_prediction(c);
    w.step_predictions(16);
    let pts = points(&w, f);
    assert_eq!(pts[0], Point { x: 1_000_000, y: 0 });
    // v = -40.5 * 0.27 = -10.935; x = 1000 - 10.935 * 0.27 = 997.048.
    assert_eq!(pts[1], Point { x: 997_048, y: 0 });
    assert_eq!(pts.len(), 45);
}

#[test]
fn forecast_uses_its_own_step_not_the_tick() {
    let mut a = World::new();
    let ca = craft(&mut a, 0, 0, 100_000, 0, 1);
    let fa = a.add_prediction(ca);
    a.step_predictions(1);
    let mut b = World::new();
    let cb = craft(&mut b, 0, 0, 100_000, 0, 1);
    let fb = b.add_prediction(cb);
    b.step_predictions(5000);
    assert_eq!(points(&a, fa), points(&b, fb));
}

#[test]
fn forecast_is_deterministic() {
    let build = || {
        let mut w = World::new();
        w.spawn(Parts {
            gravity: Some(Gravity { mass: 40_500_000, reach_sq: None }),
            ..Parts::at(pose(0, 0))
        });
        w.spawn(Parts {
            gravity: Some(Gravity { mass: 9_000_000, reach_sq: Some(4_000_000_000_000) }),
            ..Parts::at(pose(700_000, 900_000))
        });
        let c = craft(&mut w, 1_000_000, 0, -20_000, 150_000, 18_000);
        let f = w.add_prediction(c);
        (w, f)
    };
    let (mut a, fa) = build();
    let (mut b, fb) = build();
    a.step_predictions(16);
    b.step_predictions(16);
    assert_eq!(points(&a, fa), points(&b, fb));
    // A second run over the same forecast gives the same points again.
    let first = points(&a, fa);
    a.step_predictions(16);
    assert_eq!(points(&a, fa), first);
}

#[test]
fn forecast_does_not_mind_flags() {
    let build = || {
        let mut w = World::new();
        let s = w.spawn(Parts {
            gravity: Some(Gravity { mass: 40_500_000, reach_sq: None }),
            ..Parts::at(pose(0, 0))
        });
        let c = craft(&mut w, 1_000_000, 0, 0, 150_000, 18_000);
        let f = w.add_prediction(c);
        (w, s, f)
    };
    let (mut a, _, fa) = build();
    let (mut b, sb, fb) = build();
    b.flag_destroy(sb);
    a.step_predictions(16);
    b.step_predictions(16);
    assert_eq!(points(&a, fa), points(&b, fb));
}

#[test]
fn forecast_is_truncated_where_it_enters_a_blocking_collider() {
    let mut w = World::new();
    let c = craft(&mut w, 0, 0, 100_000, 0, 18_000);
    wall(&mut w, 500_000, 0, 100_000, true);
    let f = w.add_prediction(c);
    w.step_predictions(16);
    // The probe is within 118 of the wall from x = 382 on: it gets there with
    // its 15th step, at x = 405. That point is the last one.
    let pts = points(&w, f);
    assert_eq!(pts.len(), 16);
    assert_eq!(pts[14], Point { x: 378_000, y: 0 });
    assert_eq!(pts[15], Point { x: 405_000, y: 0 });
    // The slots behind the valid ones are as they were.
    let p = w.predictables.get(f).unwrap();
    assert_eq!(p.path[16], Point { x: 0, y: 0 });
}

#[test]
fn forecast_is_truncated_at_exactly_touching() {
    let mut w = World::new();
    let c = craft(&mut w, 0, 0, 100_000, 0, 18_000);
    // The wall's edge is 118 short of its center: touching at x = 27.
    wall(&mut w, 145_000, 0, 100_000, true);
    let f = w.add_prediction(c);
    w.step_predictions(16);
    assert_eq!(points(&w, f), vec![Point { x: 0, y: 0 }, Point { x: 27_000, y: 0 }]);
}

#[test]
fn forecast_passes_a_collider_that_does_not_block() {
    let mut w = World::new();
    let c = craft(&mut w, 0, 0, 100_000, 0, 18_000);
    wall(&mut w, 500_000, 0, 100_000, false);
    let f = w.add_prediction(c);
    w.step_predictions(16);
    assert_eq!(points(&w, f).len(), 45);
}

#[test]
fn forecast_that_does_not_mind_colliders_passes_them() {
    let mut w = World::new();
    let c = craft(&mut w, 0, 0, 100_000, 0, 18_000);
    wall(&mut w, 500_000, 0, 100_000, true);
    let f = w.add_prediction(c);
    let mut p = w.predictables.remove(f).unwrap();
    p.collidable = false;
    w.predictables.attach(f, p);
    w.step_predictions(16);
    assert_eq!(points(&w, f).len(), 45);
}

#[test]
fn forecast_of_a_target_without_a_size_passes_colliders() {
    let mut w = World::new();
    let c = w.spawn(Parts {
        dynamics: Some(Dynamics {
            velocity_x: 100_000,
            velocity_y: 0,
            external_accel_x: 0,
            external_accel_y: 0,
        }),
        ..Parts::at(pose(0, 0))
    });
    wall(&mut w, 500_000, 0, 100_000, true);
    let f = w.add_prediction(c);
    w.step_predictions(16);
    assert_eq!(points(&w, f).len(), 45);
}

#[test]
fn forecast_of_a_target_at_rest_stops_at_once() {
    let mut w = World::new();
    let c = craft(&mut w, 5, 6, 0, 0, 18_000);
    let f = w.add_prediction(c);
    w.step_predictions(16);
    assert_eq!(points(&w, f), vec![Point { x: 5, y: 6 }]);
}

#[test]
fn forecast_goes_on_when_only_one_axis_is_at_rest() {
    let mut w = World::new();
    let c = craft(&mut w, 0, 0, 0, 1000, 18_000);
    let f = w.add_prediction(c);
    w.step_predictions(16);
    assert_eq!(points(&w, f).len(), 45);
}

#[test]
fn forecast_stops_in_the_second_turn_if_the_probe_has_come_to_rest() {
    // The pull slows the probe from 53.616 to 26.616 in the first turn, and
    // to rest in the second: 98.578 * 0.27 = 26.616.
    let mut w = World::new();
    w.spawn(Parts {
        gravity: Some(Gravity { mass: 100_000_000, reach_sq: None }),
        ..Parts::at(pose(0, 0))
    });
    let c = craft(&mut w, 1_000_000, 0, 53_616, 0, 18_000);
    let f = w.add_prediction(c);
    w.step_predictions(16);
    assert_eq!(
        points(&w, f),
        vec![Point { x: 1_000_000, y: 0 }, Point { x: 1_007_186, y: 0 }]
    );
}

#[test]
fn forecast_waits_for_its_clock() {
    let mut w = World::new();
    let c = craft(&mut w, 0, 0, 100_000, 0, 18_000);
    let f = w.add_prediction(c);
    let mut p = w.predictables.remove(f).unwrap();
    p.refresh_rate = 100;
    p.until_refresh = 50;
    w.predictables.attach(f, p);
    w.step_predictions(16);
    assert_eq!(w.predictables.get(f).unwrap().until_refresh, 34);
    assert_eq!(w.predictables.get(f).unwrap().valid_len, 0);
    w.step_predictions(16);
    w.step_predictions(16);
    assert_eq!(w.predictables.get(f).unwrap().until_refresh, 2);
    assert_eq!(w.predictables.get(f).unwrap().valid_len, 0);
    w.step_predictions(16);
    // The clock has run out: the forecast is made and the clock wound up.
    assert_eq!(w.predictables.get(f).unwrap().until_refresh, 100);
    assert_eq!(w.predictables.get(f).unwrap().valid_len, 45);
}

#[test]
fn forecast_flags_itself_when_its_target_is_gone() {
    let mut w = World::new();
    let c = craft(&mut w, 0, 0, 100_000, 0, 18_000);
    let f = w.add_prediction(c);
    w.flag_destroy(c);
    w.step_predictions(16);
    // Flagged is not gone: the target still has its position.
    assert!(!w.registry.flagged_for_destroy(f));
    w.sweep();
    w.step_predictions(16);
    assert!(w.registry.flagged_for_destroy(f));
    assert!(w.predictables.contains(f));
    w.sweep();
    assert!(!w.predictables.contains(f));
    assert!(!w.positions.contains(f));
}

#[test]
fn forecast_flags_itself_when_its_target_has_no_velocity() {
    let mut w = World::new();
    let c = w.spawn(Parts::at(pose(0, 0)));
    let f = w.add_prediction(c);
    w.step_predictions(16);
    assert!(w.registry.flagged_for_destroy(f));
}

#[test]
fn forecast_leaves_the_target_out_of_the_field() {
    let mut w = World::new();
    let c = w.spawn(Parts {
        gravity: Some(Gravity { mass: 40_500_000, reach_sq: None }),
        dynamics: Some(Dynamics {
            velocity_x: 100_000,
            velocity_y: 0,
            external_accel_x: 0,
            external_accel_y: 0,
        }),
        ..Parts::at(pose(0, 0))
    });
    let f = w.add_prediction(c);
    w.step_predictions(16);
    let pts = points(&w, f);
    assert_eq!(pts[44], Point { x: 27_000 * 44, y: 0 });
}

#[test]
fn forecast_into_a_buffer_of_any_length() {
    let mut w = World::new();
    let c = craft(&mut w, 0, 0, 100_000, 0, 18_000);
    let mut path = vec![Point { x: 9, y: 9 }; 3];
    let start = Probe { x: 0, y: 0, velocity_x: 100_000, velocity_y: 0 };
    assert_eq!(w.forecast(c, None, 1000, start, &mut path), 3);
    assert_eq!(
        path,
        vec![Point { x: 0, y: 0 }, Point { x: 100_000, y: 0 }, Point { x: 200_000, y: 0 }]
    );
    let mut none: Vec<Point> = Vec::new();
    assert_eq!(w.forecast(c, None, 1000, start, &mut none), 0);
}

#[test]
fn path_blocked_by_blocking_colliders_only() {
    let mut w = World::new();
    wall(&mut w, 0, 0, 100, false);
    assert!(!path_blocked(&w.registry, &w.colliders, &w.positions, 10, 50, 0));
    wall(&mut w, 1000, 0, 100, true);
    assert!(!path_blocked(&w.registry, &w.colliders, &w.positions, 10, 50, 0));
    assert!(path_blocked(&w.registry, &w.colliders, &w.positions, 10, 890, 0));
    assert!(!path_blocked(&w.registry, &w.colliders, &w.positions, 10, 889, 0));
}
