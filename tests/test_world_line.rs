use relativity::intersection::{calc_intersection_time, point_at};
use relativity::{
    IntersectionAnomaly, SpacetimeEvent, Surd, SurdEvent, Vec3, VisibleWorldLineEvent, WorldLine,
    WorldLineEvent,
};

fn event(x: i64, y: i64, z: i64, time: i64) -> SpacetimeEvent {
    SpacetimeEvent::new(Vec3::new(x, y, z)).with_time(time)
}

fn sample(coord: SpacetimeEvent, velocity: Vec3, object_proper_time: i64) -> WorldLineEvent {
    WorldLineEvent { coord, velocity, object_proper_time }
}

fn value(s: Surd) -> f64 {
    (s.rational as f64 + s.root_coefficient as f64 * (s.radicand as f64).sqrt()) / s.denominator as f64
}

/// `(c·t)² − |x|²` of a surd event, evaluated in floating point.
fn float_interval(e: SurdEvent, c: i64) -> f64 {
    let t = value(e.time) * c as f64;
    let (x, y, z) = (value(e.x), value(e.y), value(e.z));
    t * t - (x * x + y * y + z * z)
}

/// `(c·t)² − |x|²` scaled by the squared denominator, exactly, for a perfect-square radicand.
fn exact_invariant(e: SurdEvent, c: i64, w: i128) -> i128 {
    let n = |s: Surd| s.rational + s.root_coefficient * w;
    let ct = c as i128 * n(e.time);
    ct * ct - (n(e.x) * n(e.x) + n(e.y) * n(e.y) + n(e.z) * n(e.z))
}

#[test]
fn test_world_line() {
    // Lengths in half units: the object moves at half the speed of light.
    let c = 2;

    let world_line = WorldLine::new(WorldLineEvent {
        velocity: Vec3::new(1, 0, 0),
        coord: SpacetimeEvent::new(Vec3::new(4, 0, 0)),
        object_proper_time: 0,
    });

    let observer_coord = SpacetimeEvent::new(Vec3::new(0, 0, 0)).with_time(4);

    let visible_event = world_line
        .get_visible_event(observer_coord, Vec3::new(0, 0, 0), c)
        .expect("visible event");

    let invariant = float_interval(visible_event.relative_coord, c);
    assert!(
        invariant.abs() < 1e-8,
        "intersection event invariant should be zero, as it lies on the light cone",
    );
}

#[test]
fn visible_event_exact_values() {
    let c = 2;
    let world_line = WorldLine::new(sample(event(4, 0, 0, 0), Vec3::new(1, 0, 0), 0));
    let seen = world_line.get_visible_event(event(0, 0, 0, 4), Vec3::new(0, 0, 0), c).unwrap();
    // Roots (8 ± 16) / 3: the crossing is at t = −8/3, x = 16/3.
    let t = seen.relative_coord.time;
    assert_eq!(t, Surd { rational: 8, root_coefficient: -1, radicand: 256, denominator: 3 });
    assert_eq!(seen.relative_coord.x.rational, 3 * 8 + 8);
    assert_eq!(seen.relative_coord.x.root_coefficient, -1);
    assert!((value(t) + 8.0 / 3.0).abs() < 1e-12);
    assert!((value(seen.relative_coord.x) - 16.0 / 3.0).abs() < 1e-12);
    assert_eq!(value(seen.relative_coord.y), 0.0);
    assert_eq!(exact_invariant(seen.relative_coord, c, 16), 0);
    assert_eq!(seen.sample, world_line.get(0).unwrap());
}

#[test]
fn visible_event_lies_on_the_past_cone() {
    let c = 3;
    let mut world_line = WorldLine::new(sample(event(7, -2, 5, -20), Vec3::new(1, 1, 0), 0));
    world_line.push(sample(event(13, 4, 5, -14), Vec3::new(-2, 0, 1), 5));
    world_line.push(sample(event(1, 4, 11, -8), Vec3::new(0, 2, -1), 9));
    for observer in [event(0, 0, 0, 0), event(3, 1, -2, 5), event(-4, 6, 1, 12)] {
        if let Some(seen) = world_line.get_visible_event(observer, Vec3::new(0, 0, 0), c) {
            let inv = float_interval(seen.relative_coord, c);
            let scale = value(seen.relative_coord.time).powi(2) * (c * c) as f64 + 1.0;
            assert!(inv.abs() / scale < 1e-9);
            assert!(value(seen.relative_coord.time) <= 0.0);
        } else {
            panic!("the first sample is inside every one of these past cones");
        }
    }
}

#[test]
fn light_delay_for_object_at_rest() {
    // An object at rest 3 units away is seen as it was 3 time units ago (c = 1).
    let world_line = WorldLine::new(sample(event(3, 0, 0, 0), Vec3::new(0, 0, 0), 0));
    let seen = world_line.get_visible_event(event(0, 0, 0, 10), Vec3::new(0, 0, 0), 1).unwrap();
    assert_eq!(
        seen.relative_coord.time,
        Surd { rational: 0, root_coefficient: -1, radicand: 9, denominator: 1 }
    );
    assert_eq!(value(seen.relative_coord.time) + 10.0, 7.0);
    assert_eq!(value(seen.relative_coord.x), 3.0);
}

#[test]
fn nothing_visible_before_first_sample_reaches_observer() {
    let world_line = WorldLine::new(sample(event(5, 0, 0, 0), Vec3::new(0, 0, 0), 0));
    let observer = event(0, 0, 0, 3);
    assert_eq!(world_line.find_last_visible_event(observer, 1), None);
    assert_eq!(world_line.get_visible_event(observer, Vec3::new(0, 0, 0), 1), None);
    // Light from the first sample arrives exactly at t = 5: still not inside the cone.
    assert_eq!(world_line.get_visible_event(event(0, 0, 0, 5), Vec3::new(0, 0, 0), 1), None);
    assert!(world_line.get_visible_event(event(0, 0, 0, 6), Vec3::new(0, 0, 0), 1).is_some());
}

#[test]
fn tangent_crossing_returns_repeated_root() {
    // The object reaches the observer's place exactly at the observer's event.
    let c = 2;
    let world_line = WorldLine::new(sample(event(-2, 0, 0, -2), Vec3::new(1, 0, 0), 0));
    let seen = world_line.get_visible_event(event(0, 0, 0, 0), Vec3::new(0, 0, 0), c).unwrap();
    assert_eq!(
        seen.relative_coord.time,
        Surd { rational: 0, root_coefficient: 0, radicand: 0, denominator: 3 }
    );
    assert_eq!(value(seen.relative_coord.x), 0.0);
}

#[test]
fn last_visible_sample_is_end_of_inside_run() {
    let c = 1;
    let mut world_line = WorldLine::new(sample(event(0, 0, 0, 0), Vec3::new(0, 0, 0), 0));
    world_line.push(sample(event(0, 0, 0, 2), Vec3::new(0, 0, 0), 2));
    world_line.push(sample(event(0, 0, 0, 8), Vec3::new(0, 0, 0), 8));
    let observer = event(1, 0, 0, 5);
    let last = world_line.find_last_visible_event(observer, c).unwrap();
    assert_eq!(last, world_line.get(1).unwrap());
    let seen = world_line.get_visible_event(observer, Vec3::new(0, 0, 0), c).unwrap();
    assert_eq!(seen.sample.object_proper_time, 2);
    // Seen one time unit late, at t = 4 in the world line's frame.
    assert_eq!(value(seen.relative_coord.time), -1.0);
}

#[test]
fn anomaly_without_real_crossing() {
    // A faster-than-light segment that never meets the cone.
    let r = calc_intersection_time(event(1, 0, 0, 0), Vec3::new(0, 2, 0), 1);
    assert_eq!(r, Err(IntersectionAnomaly::NoRealCrossing));
}

#[test]
fn faster_than_light_segment_inside_cone_still_crosses() {
    // A segment that starts inside the past cone crosses it whatever its speed.
    let r = calc_intersection_time(event(0, 0, 0, -2), Vec3::new(0, 3, 0), 1).unwrap();
    assert!((value(r) + 1.5).abs() < 1e-12);
}

#[test]
fn anomaly_crossing_in_future() {
    let r = calc_intersection_time(event(-1, 0, 0, 0), Vec3::new(2, 0, 0), 1);
    assert_eq!(r, Err(IntersectionAnomaly::CrossingInFuture));
}

#[test]
fn both_roots_in_past_picks_latest() {
    // Roots −1/3 and −1 (a faster-than-light segment): the one closest to zero is reported.
    let r = calc_intersection_time(event(1, 0, 0, 0), Vec3::new(2, 0, 0), 1).unwrap();
    assert_eq!(r, Surd { rational: -2, root_coefficient: 1, radicand: 1, denominator: 3 });
    assert!((value(r) + 1.0 / 3.0).abs() < 1e-12);
}

#[test]
fn light_speed_segment_uses_linear_root() {
    // a = c² − |v|² = 0: root −c' / (2·b) with y = x − v·t = 4, b = y·v = 4, c' = 16.
    let r = calc_intersection_time(event(3, 0, 0, -1), Vec3::new(1, 0, 0), 1).unwrap();
    assert_eq!(r, Surd { rational: -16, root_coefficient: 0, radicand: 0, denominator: 8 });
    assert_eq!(value(r), -2.0);
    // Moving towards the observer at light speed, the light arrives only later.
    let r = calc_intersection_time(event(-3, 0, 0, -1), Vec3::new(1, 0, 0), 1);
    assert_eq!(r, Err(IntersectionAnomaly::CrossingInFuture));
}

#[test]
fn point_at_follows_the_line() {
    let t = Surd { rational: -3, root_coefficient: 0, radicand: 0, denominator: 2 };
    let e = point_at(event(1, 2, 3, -1), Vec3::new(2, 0, -2), t);
    // y = (3, 2, 1); point at t = −3/2 is y + v·t = (0, 2, 4).
    assert_eq!(value(e.x), 0.0);
    assert_eq!(value(e.y), 2.0);
    assert_eq!(value(e.z), 4.0);
    assert_eq!(e.time, t);
}

#[test]
fn world_line_records_samples_in_order() {
    let first = sample(event(0, 0, 0, 0), Vec3::new(1, 0, 0), 0);
    let second = sample(event(2, 0, 0, 2), Vec3::new(0, 1, 0), 1);
    let mut world_line = WorldLine::new(first);
    assert_eq!(world_line.len(), 1);
    world_line.push(second);
    assert_eq!(world_line.len(), 2);
    assert_eq!(world_line.get(0), Some(first));
    assert_eq!(world_line.get(1), Some(second));
    assert_eq!(world_line.get(2), None);
}

#[test]
fn current_event_of_object_at_rest() {
    let world_line = WorldLine::new(sample(event(3, 0, 0, 0), Vec3::new(0, 0, 0), 0));
    let now = world_line
        .get_current_event(event(0, 0, 0, 5), Vec3::new(0, 0, 0), 1)
        .unwrap();
    assert_eq!(value(now.relative_coord.time), 0.0);
    assert_eq!(value(now.relative_coord.x), 3.0);
}

#[test]
fn current_event_of_moving_object() {
    let world_line = WorldLine::new(sample(event(0, 0, 0, 0), Vec3::new(1, 0, 0), 0));
    let now = world_line
        .get_current_event(event(0, 0, 0, 4), Vec3::new(0, 0, 0), 2)
        .unwrap();
    assert_eq!(now.relative_coord.time.rational, 0);
    assert_eq!(now.relative_coord.time.denominator, 4);
    assert_eq!(value(now.relative_coord.x), 4.0);
}

#[test]
fn current_event_of_moving_observer() {
    // Observer at rest in a frame moving at u = c/2: its slice through the origin is
    // t = x / 4, so an object at rest at x = 4 is "now" at t = 1.
    let world_line = WorldLine::new(sample(event(4, 0, 0, -10), Vec3::new(0, 0, 0), 0));
    let u = Vec3::new(1, 0, 0);
    let now = world_line.get_current_event(event(0, 0, 0, 0), u, 2).unwrap();
    let t = value(now.relative_coord.time);
    let x = value(now.relative_coord.x);
    assert_eq!(t, 1.0);
    assert_eq!(x, 4.0);
    assert_eq!(4 * now.relative_coord.time.rational - now.relative_coord.x.rational, 0);
}

#[test]
fn current_event_picks_latest_sample_not_later() {
    let mut world_line = WorldLine::new(sample(event(0, 0, 0, 0), Vec3::new(1, 0, 0), 0));
    world_line.push(sample(event(2, 0, 0, 2), Vec3::new(0, 0, 0), 1));
    world_line.push(sample(event(2, 0, 0, 9), Vec3::new(-1, 0, 0), 6));
    let observer = event(0, 0, 0, 5);
    let u = Vec3::new(0, 0, 0);
    assert_eq!(world_line.find_last_event(observer, u, 2), world_line.get(1));
    let now = world_line.get_current_event(observer, u, 2).unwrap();
    assert_eq!(now.sample, world_line.get(1).unwrap());
    assert_eq!(value(now.relative_coord.x), 2.0);
}

#[test]
fn object_does_not_exist_yet() {
    let world_line = WorldLine::new(sample(event(0, 0, 0, 5), Vec3::new(0, 0, 0), 0));
    assert_eq!(world_line.find_last_event(event(0, 0, 0, 0), Vec3::new(0, 0, 0), 1), None);
    assert!(world_line.get_current_event(event(0, 0, 0, 0), Vec3::new(0, 0, 0), 1).is_none());
}

#[test]
fn visible_event_record() {
    let s = sample(event(1, 0, 0, 0), Vec3::new(0, 0, 0), 3);
    let world_line = WorldLine::new(s);
    let seen: VisibleWorldLineEvent = world_line.get_visible_event(event(0, 0, 0, 2), Vec3::new(0, 0, 0), 1).unwrap();
    assert_eq!(seen.sample, s);
}

/// Proper time at emission, `τ₀ + Δt·√(c² − |v|²)/c`, in floating point.
fn emission_proper_time(seen: &VisibleWorldLineEvent, c: i64) -> f64 {
    let v = seen.sample.velocity;
    let k = (c * c - (v.x * v.x + v.y * v.y + v.z * v.z)) as f64;
    seen.sample.object_proper_time as f64 + value(seen.elapsed) * k.sqrt() / c as f64
}

#[test]
fn proper_time_at_emission_for_object_at_rest() {
    // Seen at t = 7: an object at rest has aged 7 since t = 0.
    let world_line = WorldLine::new(sample(event(3, 0, 0, 0), Vec3::new(0, 0, 0), 0));
    let seen = world_line.get_visible_event(event(0, 0, 0, 10), Vec3::new(0, 0, 0), 1).unwrap();
    assert_eq!(seen.elapsed, Surd { rational: 10, root_coefficient: -1, radicand: 9, denominator: 1 });
    assert_eq!(value(seen.elapsed), 7.0);
    assert_eq!(emission_proper_time(&seen, 1), 7.0);
    assert_eq!(value(seen.relative_velocity.x), 0.0);
}

#[test]
fn proper_time_at_emission_for_moving_object() {
    // Emission at world time 4/3, moving at c/2: proper time (4/3)·√0.75.
    let c = 2;
    let world_line = WorldLine::new(sample(event(4, 0, 0, 0), Vec3::new(1, 0, 0), 0));
    let seen = world_line.get_visible_event(event(0, 0, 0, 4), Vec3::new(0, 0, 0), c).unwrap();
    assert!((value(seen.elapsed) - 4.0 / 3.0).abs() < 1e-12);
    assert!((emission_proper_time(&seen, c) - 4.0 / 3.0 * 0.75f64.sqrt()).abs() < 1e-12);
    assert_eq!(value(seen.relative_velocity.x), 1.0);
}

#[test]
fn proper_time_at_emission_tangent() {
    let world_line = WorldLine::new(sample(event(0, 0, 0, 0), Vec3::new(0, 0, 0), 0));
    let seen = world_line.get_visible_event(event(0, 0, 0, 1), Vec3::new(0, 0, 0), 1).unwrap();
    assert_eq!(value(seen.relative_coord.time), 0.0);
    assert_eq!(value(seen.relative_coord.x), 0.0);
    assert_eq!(emission_proper_time(&seen, 1), 1.0);
}

#[test]
fn visible_event_for_moving_observer() {
    // The crossing is one event whatever the observer's velocity; the velocity is composed.
    let c = 2;
    let world_line = WorldLine::new(sample(event(4, 0, 0, 0), Vec3::new(0, 0, 0), 0));
    let at_rest = world_line.get_visible_event(event(0, 0, 0, 8), Vec3::new(0, 0, 0), c).unwrap();
    let moving = world_line.get_visible_event(event(0, 0, 0, 8), Vec3::new(1, 0, 0), c).unwrap();
    assert_eq!(at_rest.relative_coord, moving.relative_coord);
    assert_eq!(at_rest.elapsed, moving.elapsed);
    assert!((value(moving.relative_velocity.x) + 1.0).abs() < 1e-12);
    // The sample, boosted: t' = γ·(t − u·x/c²) with γ = 2/√3, (t, x) = (−8, 4).
    let gamma = 2.0 / 3.0f64.sqrt();
    assert!((value(moving.sample_in_frame.time) - gamma * (-8.0 - 1.0)).abs() < 1e-9);
    assert!((value(moving.sample_in_frame.x) - gamma * (4.0 + 8.0)).abs() < 1e-9);
}

#[test]
fn current_event_proper_time_and_velocity() {
    // Half the speed of light (c = 2 in half units): after 4 time units the object has aged
    // 4·√0.75, and is 8 half units from the observer.
    let c = 2;
    let world_line = WorldLine::new(sample(event(4, 0, 0, 0), Vec3::new(1, 0, 0), 0));
    let now = world_line.get_current_event(event(0, 0, 0, 4), Vec3::new(0, 0, 0), c).unwrap();
    assert!((value(now.proper_time) - 4.0 * 0.75f64.sqrt()).abs() < 1e-12);
    assert_eq!(value(now.relative_velocity.x), 1.0);
    assert_eq!(now.sample.coord, event(4, 0, 0, 0));
    let start = now.sample_in_frame;
    let x = value(start.x) - value(now.relative_velocity.x) * value(start.time);
    assert_eq!(x, 8.0);
}

#[test]
fn current_event_for_moving_observer() {
    // An object at rest seen from a frame at c/2 (c = 2): it moves at −1 and ages at the rate
    // γ_u/γ_v = 2/√3 per unit of the observer's time.
    let c = 2;
    let world_line = WorldLine::new(sample(event(4, 0, 0, -10), Vec3::new(0, 0, 0), 3));
    let u = Vec3::new(1, 0, 0);
    let now = world_line.get_current_event(event(0, 0, 0, 0), u, c).unwrap();
    assert!((value(now.relative_velocity.x) + 1.0).abs() < 1e-12);
    let gamma = 2.0 / 3.0f64.sqrt();
    let start_time = value(now.sample_in_frame.time);
    assert!((start_time - gamma * (-10.0 - 1.0)).abs() < 1e-9);
    assert!((value(now.proper_time) - (3.0 - start_time * gamma)).abs() < 1e-9);
    assert!(value(now.proper_time) >= 3.0);
    // The world-line-frame point is x = 4 at t = 1 (see current_event_of_moving_observer);
    // boosted it is at x' = γ·(4 − 1·1) = 3γ.
    let x = value(now.sample_in_frame.x) - value(now.relative_velocity.x) * start_time;
    assert!((x - 3.0 * gamma).abs() < 1e-9);
}

#[test]
fn world_line_clone_keeps_samples() {
    let mut world_line = WorldLine::new(sample(event(0, 0, 0, 0), Vec3::new(1, 0, 0), 0));
    world_line.push(sample(event(2, 0, 0, 2), Vec3::new(0, 1, 0), 1));
    let copy = world_line.clone();
    assert_eq!(copy.len(), 2);
    assert_eq!(copy.get(0), world_line.get(0));
    assert_eq!(copy.get(1), world_line.get(1));
}
