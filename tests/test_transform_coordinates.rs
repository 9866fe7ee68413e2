use relativity::{velocity_to_new_rf, SpacetimeEvent, Surd, SurdEvent, Vec3};

const EPSILON: f64 = 1e-10;

fn value(s: Surd) -> f64 {
    (s.rational as f64 + s.root_coefficient as f64 * (s.radicand as f64).sqrt()) / s.denominator as f64
}

fn length_squared(e: SurdEvent) -> f64 {
    value(e.x).powi(2) + value(e.y).powi(2) + value(e.z).powi(2)
}

/// `(c·t)² − |x|²` scaled by the squared denominator, exactly, for a perfect-square radicand.
fn exact_scaled_interval(e: SurdEvent, c: i64, w: i128) -> i128 {
    let n = |s: Surd| s.rational + s.root_coefficient * w;
    let ct = c as i128 * n(e.time);
    ct * ct - (n(e.x) * n(e.x) + n(e.y) * n(e.y) + n(e.z) * n(e.z))
}

#[test]
fn test_transform_coordinates_target_position_is_zero_in_target_frame() {
    // Half the speed of light, along (3, 4, 0).
    let c = 10;
    let velocity = Vec3::new(3, 4, 0);
    let time = 10;

    let transformed_event = SpacetimeEvent { pos: Vec3::new(3 * time, 4 * time, 0), time }
        .to_reference_frame(velocity, c);

    let rev_gamma = (1.0f64 - 0.5f64.powi(2)).sqrt();
    let expected_time = time as f64 * rev_gamma;

    assert!(length_squared(transformed_event) < EPSILON);
    assert!((value(transformed_event.time) - expected_time).abs() < EPSILON);
    assert_eq!(transformed_event.x.rational, 0);
    assert_eq!(transformed_event.x.root_coefficient, 0);
}

#[test]
fn boost_at_rest_is_identity() {
    let e = SpacetimeEvent { pos: Vec3::new(1, -2, 3), time: 4 };
    let r = e.to_reference_frame(Vec3::new(0, 0, 0), 7);
    assert_eq!(value(r.x), 1.0);
    assert_eq!(value(r.y), -2.0);
    assert_eq!(value(r.z), 3.0);
    assert_eq!(value(r.time), 4.0);
}

#[test]
fn boost_exact_values() {
    // c = 5 and v = 3 along x: γ = 5/4, t' = γ·(t − v·x/c²), x' = γ·(x − v·t).
    let e = SpacetimeEvent { pos: Vec3::new(1, 0, 0), time: 2 };
    let r = e.to_reference_frame(Vec3::new(3, 0, 0), 5);
    assert!((value(r.time) - 2.35).abs() < 1e-12);
    assert!((value(r.x) + 6.25).abs() < 1e-12);
    assert_eq!(value(r.y), 0.0);
    assert_eq!(r.time.radicand, 16);
}

#[test]
fn boost_keeps_the_interval() {
    let c = 5;
    let w = 4; // √(25 − 9)
    let reference = SpacetimeEvent { pos: Vec3::new(2, 1, -1), time: 3 };
    for e in [
        SpacetimeEvent { pos: Vec3::new(7, -3, 2), time: 11 },
        SpacetimeEvent { pos: Vec3::new(-4, 0, 9), time: -6 },
        SpacetimeEvent { pos: Vec3::new(0, 0, 0), time: 0 },
    ] {
        let rel = e.sub(reference);
        for v in [Vec3::new(3, 0, 0), Vec3::new(0, 0, -3)] {
            let r = rel.to_reference_frame(v, c);
            let d = r.time.denominator;
            let before = rel.spacetime_interval_squared(SpacetimeEvent::new(Vec3::new(0, 0, 0)), c);
            assert_eq!(exact_scaled_interval(r, c, w), d * d * before);
        }
        // A boost along a direction without an integer square root, checked in floating point.
        let v = Vec3::new(1, 2, 2);
        let r = rel.to_reference_frame(v, 4);
        let t = value(r.time) * 4.0;
        let after = t * t - length_squared(r);
        let before = rel.spacetime_interval_squared(SpacetimeEvent::new(Vec3::new(0, 0, 0)), 4) as f64;
        assert!((after - before).abs() < 1e-6 * (1.0 + before.abs()));
    }
}

#[test]
fn composition_with_frame_at_rest_is_identity() {
    let r = velocity_to_new_rf(Vec3::new(0, 0, 0), Vec3::new(3, -1, 2), 5);
    assert_eq!(value(r.x), 3.0);
    assert_eq!(value(r.y), -1.0);
    assert_eq!(value(r.z), 2.0);
    assert_eq!(r.x.root_coefficient, 0);
}

#[test]
fn composition_along_the_motion() {
    // An object at rest seen from a frame moving at 3/5 c moves at −3/5 c.
    let r = velocity_to_new_rf(Vec3::new(3, 0, 0), Vec3::new(0, 0, 0), 5);
    assert!((value(r.x) + 3.0).abs() < 1e-12);
    assert_eq!(value(r.y), 0.0);
    // Relativistic subtraction: (4 − 3) / (1 − 12/25) = 25/13 for c = 5.
    let r = velocity_to_new_rf(Vec3::new(3, 0, 0), Vec3::new(4, 0, 0), 5);
    assert!((value(r.x) - 25.0 / 13.0).abs() < 1e-12);
}

#[test]
fn composition_across_the_motion() {
    // Perpendicular velocity shrinks by 1/γ: 4 · 4/5 = 16/5 for v = 3/5 c.
    let r = velocity_to_new_rf(Vec3::new(3, 0, 0), Vec3::new(0, 4, 0), 5);
    assert!((value(r.y) - 16.0 / 5.0).abs() < 1e-12);
    assert!((value(r.x) + 3.0).abs() < 1e-12);
}

#[test]
fn composition_then_back_returns_velocity() {
    // Into the frame at 3/5 c along x and back with the old frame's velocity, −3/5 c.
    let c = 5.0f64;
    let there = velocity_to_new_rf(Vec3::new(3, 0, 0), Vec3::new(1, 2, 0), 5);
    let (ux, uy) = (value(there.x), value(there.y));
    // Composition with a frame at −3/5 c, evaluated in floating point.
    let (dv, gamma) = (-3.0f64, 1.25f64);
    let denom = 1.0 - ux * dv / (c * c);
    let back_x = (ux - dv) / denom;
    let back_y = uy / (gamma * denom);
    assert!((back_x - 1.0).abs() < 1e-12);
    assert!((back_y - 2.0).abs() < 1e-12);
}
