use nbody::body::Body;
use nbody::sim::State;

/// One whole unit in fixed-point representation.
const UNIT: f64 = 1_000_000_000.0;

fn fixed(v: f64) -> i128 {
    (v * UNIT).round() as i128
}

fn unfix(u: i128) -> f64 {
    u as f64 / UNIT
}

fn two_body_state() -> State {
    let bodies = vec![
        Body::new(fixed(100.0), (fixed(-1.0), fixed(0.0)), (fixed(0.0), fixed(1.0))).unwrap(),
        Body::new(fixed(100.0), (fixed(1.0), fixed(0.0)), (fixed(0.0), fixed(-1.0))).unwrap(),
    ];
    State::new(bodies, fixed(1.0), fixed(0.0001))
}

fn total_momentum(state: &State) -> (f64, f64) {
    state.bodies().iter().fold((0.0, 0.0), |(sx, sy), b| {
        let (px, py) = b.get_linear_momentum();
        (sx + unfix(px), sy + unfix(py))
    })
}

#[test]
fn test_energy_conservation_two_body() {
    let mut state = two_body_state();

    let initial_energy = unfix(state.total_energy());

    // Run a few simulation steps
    for _ in 0..10 {
        state.step();
    }

    let final_energy = unfix(state.total_energy());
    let final_kinetic = unfix(state.total_kinetic_energy());

    // Total energy should be conserved (within numerical error)
    println!("Initial total energy: {initial_energy}, Final total energy: {final_energy}");
    println!("Final kinetic energy: {final_kinetic}");
    println!("Total energy difference: {}", (final_energy - initial_energy).abs());
    assert!((final_energy - initial_energy).abs() < 0.01);
}

#[test]
fn test_momentum_conservation_two_body() {
    let mut state = two_body_state();

    let (px0, py0) = total_momentum(&state);
    let p0 = (px0 * px0 + py0 * py0).sqrt();

    // Run a few simulation steps
    for _ in 0..10 {
        state.step();
    }

    let (px1, py1) = total_momentum(&state);
    let p1 = (px1 * px1 + py1 * py1).sqrt();

    println!("Initial momentum: {p0}, Final momentum: {p1}");
    println!("Total energy difference: {}", (p1 - p0).abs());
    assert!((p1 - p0).abs() < 0.01);
}

#[test]
fn test_default_scenario_values() {
    let state = State::default_scenario();
    let bodies = state.bodies();
    assert_eq!(bodies.len(), 2);
    assert_eq!(unfix(bodies[0].mass), 100.0);
    assert_eq!((unfix(bodies[0].position.0), unfix(bodies[0].position.1)), (-1.0, 0.0));
    assert_eq!((unfix(bodies[0].velocity.0), unfix(bodies[0].velocity.1)), (0.0, 1.0));
    assert_eq!(unfix(bodies[1].mass), 100.0);
    assert_eq!((unfix(bodies[1].position.0), unfix(bodies[1].position.1)), (1.0, 0.0));
    assert_eq!((unfix(bodies[1].velocity.0), unfix(bodies[1].velocity.1)), (0.0, -1.0));
    assert_eq!(unfix(state.g_constant), 1.0);
    assert_eq!(unfix(state.time_step), 0.0001);
}

#[test]
fn test_potential_energy_value() {
    // Two masses of 100 at distance 2 with g = 1: U = -1 * 100 * 100 / 2 =
    // -5000 exactly.
    let state = two_body_state();
    assert_eq!(unfix(state.total_potential_energy()), -5000.0);

    // Kinetic: two bodies of mass 100 at speed 1: 2 * 50 = 100.
    assert_eq!(unfix(state.total_kinetic_energy()), 100.0);
    assert_eq!(unfix(state.total_energy()), -4900.0);
}

#[test]
fn test_total_energy_idempotent() {
    let state = two_body_state();
    let first = state.total_energy();
    let second = state.total_energy();
    assert_eq!(first, second);

    let mut stepped = two_body_state();
    stepped.step();
    let after_first = stepped.total_energy();
    let after_second = stepped.total_energy();
    assert_eq!(after_first, after_second);
}

#[test]
fn test_step_single_body_drift() {
    // A single body feels no force: one step moves it by exactly v * dt and
    // leaves the velocity untouched.
    let bodies = vec![
        Body::new(fixed(1.0), (fixed(0.0), fixed(0.0)), (fixed(1.0), fixed(-2.0))).unwrap(),
    ];
    let mut state = State::new(bodies, fixed(1.0), fixed(0.5));
    state.step();
    let b = state.bodies()[0];
    assert_eq!((unfix(b.position.0), unfix(b.position.1)), (0.5, -1.0));
    assert_eq!((unfix(b.velocity.0), unfix(b.velocity.1)), (1.0, -2.0));
}

#[test]
fn test_step_preserves_order_and_masses() {
    let bodies = vec![
        Body::new(fixed(5.0), (fixed(-1.0), fixed(0.0)), (fixed(0.0), fixed(0.0))).unwrap(),
        Body::new(fixed(7.0), (fixed(1.0), fixed(0.0)), (fixed(0.0), fixed(0.0))).unwrap(),
        Body::new(fixed(11.0), (fixed(0.0), fixed(2.0)), (fixed(0.0), fixed(0.0))).unwrap(),
    ];
    let mut state = State::new(bodies, fixed(1.0), fixed(0.001));
    for _ in 0..5 {
        state.step();
    }
    let after = state.bodies();
    assert_eq!(after.len(), 3);
    assert_eq!(unfix(after[0].mass), 5.0);
    assert_eq!(unfix(after[1].mass), 7.0);
    assert_eq!(unfix(after[2].mass), 11.0);
    // Mutual attraction pulls the outer pair toward each other.
    assert!(after[0].position.0 > fixed(-1.0));
    assert!(after[1].position.0 < fixed(1.0));
}

#[test]
fn test_step_coincident_bodies_defined() {
    // Two bodies on the same spot: the clamped distance keeps every value
    // defined (no division by zero). At the coincident positions themselves
    // the direction vector is zero, so the first force evaluation vanishes
    // and the position phase is pure drift; once the bodies separate the
    // clamped force is large but finite, and the outcome stays an exact
    // mirror image.
    let bodies = vec![
        Body::new(fixed(100.0), (fixed(0.0), fixed(0.0)), (fixed(1.0), fixed(0.0))).unwrap(),
        Body::new(fixed(100.0), (fixed(0.0), fixed(0.0)), (fixed(-1.0), fixed(0.0))).unwrap(),
    ];
    let mut state = State::new(bodies, fixed(1.0), fixed(0.0001));
    state.step();
    let after = state.bodies();
    assert_eq!(unfix(after[0].position.0), 0.0001);
    assert_eq!(unfix(after[1].position.0), -0.0001);
    assert_eq!(after[0].velocity.0, -after[1].velocity.0);
    assert_eq!(after[0].velocity.1, -after[1].velocity.1);
}
