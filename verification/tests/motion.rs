use motion_sim::geom::{distance_sq, isqrt, Position};
use motion_sim::motion::{Direction, MoveOutcome};

#[test]
fn test_linear_move() {
    let mut current_position = Position::new(0, 0, 0);
    let target_position = Position::new(5_000_000, 5_000_000, 5_000_000);
    let stop_coordinates = Position::new(5_000_000, 5_000_000, 5_000_000);
    let _ = current_position.linear_move(&target_position, &stop_coordinates);

    assert_eq!(current_position.x, stop_coordinates.x);
    assert_eq!(current_position.y, stop_coordinates.y);
    assert_eq!(current_position.z, stop_coordinates.z);
}

#[test]
fn test_circular_move() {
    let mut current_position = Position::new(0, 0, 0);
    let center = Position::new(1_250_000, 1_250_000, 5_000_000);
    let stop_coordinates_cw = Position::new(7_500_000, 7_500_000, 5_000_000);
    let stop_coordinates_ccw = Position::new(5_000_000, 5_000_000, 5_000_000);
    let radius = isqrt(distance_sq(&stop_coordinates_cw, &center));
    let _ = current_position.circular_move(
        &center,
        radius,
        Direction::Cw,
        &stop_coordinates_cw,
        &stop_coordinates_ccw,
    );

    // Within 0.001 units (1000 micro-units) of the stop coordinates.
    let tolerance = 1_000;
    assert!((current_position.x - stop_coordinates_cw.x).abs() < tolerance);
    assert!((current_position.y - stop_coordinates_cw.y).abs() < tolerance);
    assert!((current_position.z - stop_coordinates_cw.z).abs() < tolerance);
}

#[test]
fn linear_move_to_current_position_arrives_at_once() {
    // Target and stop both equal the current position: one zero-length step,
    // immediate arrival, position unchanged.
    let mut p = Position::new(1_000_000, 2_000_000, 3_000_000);
    let same = Position::new(1_000_000, 2_000_000, 3_000_000);
    let (emitted, outcome) = p.linear_move(&same, &same);
    assert_eq!(emitted.len(), 1);
    assert_eq!(outcome, MoveOutcome::Arrived);
    assert_eq!(p.x, 1_000_000);
    assert_eq!(p.y, 2_000_000);
    assert_eq!(p.z, 3_000_000);
}

#[test]
fn linear_move_to_current_position_far_stop_runs_five_steps() {
    // Target equals the current position but the stop point is elsewhere:
    // five zero-displacement steps, no arrival.
    let mut p = Position::new(1_000_000, 1_000_000, 1_000_000);
    let same = Position::new(1_000_000, 1_000_000, 1_000_000);
    let stop = Position::new(9_000_000, 0, 0);
    let (emitted, outcome) = p.linear_move(&same, &stop);
    assert_eq!(emitted.len(), 5);
    assert_eq!(outcome, MoveOutcome::Exhausted);
    for q in &emitted {
        assert_eq!(q.x, 1_000_000);
        assert_eq!(q.y, 1_000_000);
        assert_eq!(q.z, 1_000_000);
    }
}

#[test]
fn linear_move_truncates_displacement_evenly() {
    // Displacement 1 micro-unit: each fifth truncates to zero, so the tool
    // never moves and the run exhausts (stop point far away).
    let mut p = Position::new(0, 0, 0);
    let target = Position::new(1, 0, 0);
    let stop = Position::new(5_000_000, 5_000_000, 5_000_000);
    let (emitted, outcome) = p.linear_move(&target, &stop);
    assert_eq!(emitted.len(), 5);
    assert_eq!(outcome, MoveOutcome::Exhausted);
    assert_eq!(p.x, 0);
}

#[test]
fn circular_move_mirrors_between_directions() {
    // Same center, radius and start: clockwise and counter-clockwise runs
    // agree on x and z and negate the y offset from the center, step by step.
    let center = Position::new(500_000, -250_000, 750_000);
    let far_stop = Position::new(900_000_000, 900_000_000, 900_000_000);
    let radius = 2_000_000;

    let mut p_cw = Position::new(0, 0, 0);
    let (emitted_cw, outcome_cw) =
        p_cw.circular_move(&center, radius, Direction::Cw, &far_stop, &far_stop);

    let mut p_ccw = Position::new(0, 0, 0);
    let (emitted_ccw, outcome_ccw) =
        p_ccw.circular_move(&center, radius, Direction::Ccw, &far_stop, &far_stop);

    assert_eq!(outcome_cw, MoveOutcome::Exhausted);
    assert_eq!(outcome_ccw, MoveOutcome::Exhausted);
    // ceil(72 * 2.0) = 144 steps for the full circumference.
    assert_eq!(emitted_cw.len(), 144);
    assert_eq!(emitted_ccw.len(), 144);
    for i in 0..emitted_cw.len() {
        assert_eq!(emitted_cw[i].x, emitted_ccw[i].x);
        assert_eq!(emitted_cw[i].y - center.y, -(emitted_ccw[i].y - center.y));
        assert_eq!(emitted_cw[i].z, emitted_ccw[i].z);
    }
}

#[test]
fn circular_move_zero_radius_emits_nothing() {
    let mut p = Position::new(1_000_000, 1_000_000, 0);
    let center = Position::new(0, 0, 0);
    let stop = Position::new(0, 0, 0);
    let (emitted, outcome) = p.circular_move(&center, 0, Direction::Ccw, &stop, &stop);
    assert_eq!(emitted.len(), 0);
    assert_eq!(outcome, MoveOutcome::Exhausted);
    assert_eq!(p.x, 1_000_000);
    assert_eq!(p.y, 1_000_000);
    assert_eq!(p.z, 0);
}

#[test]
fn circular_move_starts_at_zero_angle() {
    // The first generated point is center + radius on x, center's y and z.
    let mut p = Position::new(0, 0, 0);
    let center = Position::new(1_000_000, 2_000_000, 3_000_000);
    let far_stop = Position::new(900_000_000, 0, 0);
    let (emitted, _) = p.circular_move(&center, 1_000_000, Direction::Cw, &far_stop, &far_stop);
    assert_eq!(emitted[0].x, 2_000_000);
    assert_eq!(emitted[0].y, 2_000_000);
    assert_eq!(emitted[0].z, 3_000_000);
}
