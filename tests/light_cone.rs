use relativity::{SpacetimeEvent, SpacetimeSeparation, Vec3};

fn event(x: i64, y: i64, z: i64, time: i64) -> SpacetimeEvent {
    SpacetimeEvent::new(Vec3::new(x, y, z)).with_time(time)
}

#[test]
fn test_light_cone_timelike_separation() {
    let c = 1;

    let event_0 = SpacetimeEvent { pos: Vec3::new(0, 0, 0), time: 0 };

    let event_1 = SpacetimeEvent { pos: Vec3::new(0, 0, 0), time: 1 };

    assert_eq!(
        event_0.spacetime_interval_squared(event_1, c).partial_cmp(&0),
        Some(std::cmp::Ordering::Greater)
    );

    assert_eq!(event_0.get_separation(event_1, c), SpacetimeSeparation::Timelike);

    assert!(event_1.light_cone(c).past_contains(event_0));
    assert!(!event_0.light_cone(c).past_contains(event_1));

    assert!(!event_1.light_cone(c).future_contains(event_0));
    assert!(event_0.light_cone(c).future_contains(event_1));
}

#[test]
fn interval_has_exact_value() {
    // (3·2)² − (1² + 2² + 2²) = 36 − 9
    let a = event(1, 2, 2, 2);
    let b = event(0, 0, 0, 0);
    assert_eq!(a.spacetime_interval_squared(b, 3), 27);
}

#[test]
fn separation_kinds() {
    let origin = event(0, 0, 0, 0);
    assert_eq!(event(1, 0, 0, 2).get_separation(origin, 1), SpacetimeSeparation::Timelike);
    assert_eq!(event(3, 0, 0, 2).get_separation(origin, 1), SpacetimeSeparation::Spacelike);
    assert_eq!(event(3, 4, 0, 5).get_separation(origin, 1), SpacetimeSeparation::Null);
    assert_eq!(event(3, 4, 0, -5).get_separation(origin, 1), SpacetimeSeparation::Null);
}

#[test]
fn separation_is_symmetric() {
    let pairs = [
        (event(1, 2, 3, 4), event(-5, 0, 2, -1)),
        (event(3, 4, 0, 5), event(0, 0, 0, 0)),
        (event(10, -3, 7, 1), event(2, 2, 2, 2)),
    ];
    for c in [1, 2, 7] {
        for (a, b) in pairs {
            assert_eq!(a.get_separation(b, c), b.get_separation(a, c));
            assert_eq!(a.spacetime_interval_squared(b, c), b.spacetime_interval_squared(a, c));
        }
    }
}

#[test]
fn null_events_are_in_no_half_of_the_cone() {
    let origin = event(0, 0, 0, 0);
    let cone = origin.light_cone(1);
    let on_cone = event(3, 4, 0, -5);
    assert!(!cone.past_contains(on_cone));
    assert!(!cone.contains(on_cone));
    let inside = event(3, 4, 0, -6);
    assert!(cone.past_contains(inside));
    assert!(!cone.future_contains(inside));
    assert!(cone.contains(inside));
    assert!(cone.contains(event(0, 0, 0, 1)));
    assert!(!cone.contains(event(0, 0, 0, 0)));
}

#[test]
fn light_cone_keeps_its_apex_and_speed() {
    let origin = event(1, 2, 3, 4);
    let cone = origin.light_cone(5);
    assert_eq!(cone.origin, origin);
    assert_eq!(cone.light_speed, 5);
    assert_eq!(relativity::LightCone::new(origin, 5), cone);
}

#[test]
fn event_arithmetic() {
    let a = event(1, -2, 3, 10);
    let b = event(4, 5, -6, 3);
    assert_eq!(a.add(b), event(5, 3, -3, 13));
    assert_eq!(a.sub(b), event(-3, -7, 9, 7));
    let mut m = a;
    m.add_assign(b);
    assert_eq!(m, event(5, 3, -3, 13));
    m.sub_assign(b);
    assert_eq!(m, a);
    assert_eq!(SpacetimeEvent::new(Vec3::new(1, 2, 3)).time, 0);
    assert_eq!(a.with_time(-4), event(1, -2, 3, -4));
}
