use nbody::body::{Body, SimError};

/// One whole unit in fixed-point representation.
const UNIT: f64 = 1_000_000_000.0;

fn fixed(v: f64) -> i128 {
    (v * UNIT).round() as i128
}

fn unfix(u: i128) -> f64 {
    u as f64 / UNIT
}

#[test]
fn test_body_creation() {
    let body = Body::new(fixed(100.0), (fixed(0.0), fixed(0.0)), (fixed(1.0), fixed(0.0)))
        .unwrap();

    assert_eq!(unfix(body.mass), 100.0);
    assert_eq!((unfix(body.position.0), unfix(body.position.1)), (0.0, 0.0));
    assert_eq!((unfix(body.velocity.0), unfix(body.velocity.1)), (1.0, 0.0));
    // Test that radius was calculated (adjust based on your formula)
    assert!(unfix(body.radius) > 0.0);
}

#[test]
fn test_distance_calculation() {
    let body1 = Body::new(fixed(1.0), (fixed(0.0), fixed(0.0)), (fixed(0.0), fixed(0.0)))
        .unwrap();
    let body2 = Body::new(fixed(1.0), (fixed(3.0), fixed(4.0)), (fixed(0.0), fixed(0.0)))
        .unwrap();

    let distance = unfix(body1.distance_to(&body2));
    assert!((distance - 5.0).abs() < 1e-6); // 3-4-5 triangle
}

#[test]
fn test_gravitational_force_symmetry() {
    let body1 = Body::new(fixed(100.0), (fixed(0.0), fixed(0.0)), (fixed(0.0), fixed(0.0)))
        .unwrap();
    let body2 = Body::new(fixed(200.0), (fixed(1.0), fixed(0.0)), (fixed(0.0), fixed(0.0)))
        .unwrap();
    let g = fixed(1.0); // Simplified constant

    let force_12 = body1.gravitational_force(&body2, g);
    let force_21 = body2.gravitational_force(&body1, g);

    // Forces should be equal and opposite (Newton's third law)
    assert!((unfix(force_12.0) + unfix(force_21.0)).abs() < 1e-10);
    assert!((unfix(force_12.1) + unfix(force_21.1)).abs() < 1e-10);
}

#[test]
fn test_gravitational_force_magnitude() {
    let body1 = Body::new(fixed(100.0), (fixed(0.0), fixed(0.0)), (fixed(0.0), fixed(0.0)))
        .unwrap();
    let body2 = Body::new(fixed(200.0), (fixed(2.0), fixed(0.0)), (fixed(0.0), fixed(0.0)))
        .unwrap();
    let g = fixed(1.0);

    let force = body1.gravitational_force(&body2, g);

    // F = G * m1 * m2 / r^2 = 1 * 100 * 200 / 4 = 5000
    let expected_magnitude = 5000.0;
    let fx = unfix(force.0);
    let fy = unfix(force.1);
    let actual_magnitude = (fx * fx + fy * fy).sqrt();

    assert!((actual_magnitude - expected_magnitude).abs() < 1e-10);

    // Force should point in positive x direction (toward body2)
    assert!(fx > 0.0);
    assert!(fy.abs() < 1e-10);
}

#[test]
fn test_body_update() {
    let mut body = Body::new(fixed(1.0), (fixed(0.0), fixed(0.0)), (fixed(0.0), fixed(0.0)))
        .unwrap();
    let acceleration = (fixed(2.0), fixed(1.0));
    let dt = fixed(1.0);

    body.update(acceleration, dt);

    // After 1 second with acceleration (2, 1):
    // velocity = (0, 0) + (2, 1) * 1 = (2, 1)
    // position = (0, 0) + (2, 1) * 1 = (2, 1)
    assert_eq!((unfix(body.velocity.0), unfix(body.velocity.1)), (2.0, 1.0));
    assert_eq!((unfix(body.position.0), unfix(body.position.1)), (2.0, 1.0));
}

#[test]
fn test_get_momentum() {
    let body = Body::new(fixed(1.0), (fixed(0.0), fixed(0.0)), (fixed(1.0), fixed(0.0)))
        .unwrap();
    let p = body.get_linear_momentum();
    assert_eq!((unfix(p.0), unfix(p.1)), (1.0, 0.0));
}

#[test]
fn test_nonpositive_mass_rejected() {
    let zero = Body::new(fixed(0.0), (fixed(0.0), fixed(0.0)), (fixed(0.0), fixed(0.0)));
    assert_eq!(zero.unwrap_err(), SimError::NonPositiveMass);

    let negative = Body::new(fixed(-5.0), (fixed(1.0), fixed(2.0)), (fixed(0.0), fixed(0.0)));
    assert_eq!(negative.unwrap_err(), SimError::NonPositiveMass);

    let tiny_positive = Body::new(1, (fixed(0.0), fixed(0.0)), (fixed(0.0), fixed(0.0)));
    assert!(tiny_positive.is_ok());
}

#[test]
fn test_kinetic_energy_coefficient() {
    // KE = m * |v|^2 / 2, so a mass of 100 at speed 1 holds exactly 50,
    // not 100: the 1/2 coefficient must be there.
    let body = Body::new(fixed(100.0), (fixed(0.0), fixed(0.0)), (fixed(0.0), fixed(1.0)))
        .unwrap();
    assert_eq!(unfix(body.get_kinetic_energy()), 50.0);

    // Speed 3: KE = 100 * 9 / 2 = 450.
    let fast = Body::new(fixed(100.0), (fixed(0.0), fixed(0.0)), (fixed(3.0), fixed(0.0)))
        .unwrap();
    assert_eq!(unfix(fast.get_kinetic_energy()), 450.0);
}

#[test]
fn test_coincident_bodies_force_defined() {
    // Two bodies at the same position: the distance is clamped to the
    // shortest admissible distance, and the direction vector is zero, so
    // the force is exactly zero rather than undefined.
    let body1 = Body::new(fixed(100.0), (fixed(1.0), fixed(1.0)), (fixed(0.0), fixed(0.0)))
        .unwrap();
    let body2 = Body::new(fixed(100.0), (fixed(1.0), fixed(1.0)), (fixed(0.0), fixed(0.0)))
        .unwrap();
    assert_eq!(body1.distance_to(&body2), 0);
    let force = body1.gravitational_force(&body2, fixed(1.0));
    assert_eq!(force, (0, 0));
}

#[test]
fn test_force_direction_negative_axis() {
    // The second body sits on the negative side: the force on the first
    // points in the negative direction with the same magnitude as the
    // mirrored configuration.
    let body1 = Body::new(fixed(100.0), (fixed(0.0), fixed(0.0)), (fixed(0.0), fixed(0.0)))
        .unwrap();
    let body2 = Body::new(fixed(200.0), (fixed(-2.0), fixed(0.0)), (fixed(0.0), fixed(0.0)))
        .unwrap();
    let force = body1.gravitational_force(&body2, fixed(1.0));
    assert_eq!(unfix(force.0), -5000.0);
    assert_eq!(unfix(force.1), 0.0);
}
