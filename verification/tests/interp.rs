use motion_sim::interp::{InterpreterState, LineOutcome};
use motion_sim::motion::MoveOutcome;
use motion_sim::parse::CommandError;

#[test]
fn lin_command_end_to_end() {
    // From the origin, LIN +5 +5 +5 emits exactly five points and ends at
    // (5.00, 5.00, 5.00): the default stop target (the origin) is never
    // approached, so the full five sub-steps run.
    let mut state = InterpreterState::new();
    match state.process_line("LIN +5 +5 +5") {
        LineOutcome::Executed { emitted, outcome } => {
            assert_eq!(emitted.len(), 5);
            assert_eq!(outcome, MoveOutcome::Exhausted);
            assert_eq!(emitted[0].x, 1_000_000);
            assert_eq!(emitted[4].x, 5_000_000);
            assert_eq!(emitted[4].y, 5_000_000);
            assert_eq!(emitted[4].z, 5_000_000);
        },
        LineOutcome::Rejected { .. } => panic!("LIN command rejected"),
    }
    assert_eq!(state.current_position.x, 5_000_000);
    assert_eq!(state.current_position.y, 5_000_000);
    assert_eq!(state.current_position.z, 5_000_000);
    // The position before the move is remembered.
    assert_eq!(state.last_position.x, 0);
}

#[test]
fn cw_command_end_to_end() {
    // CW +7.5 +7.5 +5 +1.25 +1.25 +5: the arc around (1.25, 1.25, 5) stops
    // once a generated point comes within 0.001 units of (7.5, 7.5, 5),
    // which happens at the 45-degree sample, 64 points in.
    let mut state = InterpreterState::new();
    match state.process_line("CW +7.5 +7.5 +5 +1.25 +1.25 +5") {
        LineOutcome::Executed { emitted, outcome } => {
            assert_eq!(outcome, MoveOutcome::Arrived);
            assert_eq!(emitted.len(), 64);
        },
        LineOutcome::Rejected { .. } => panic!("CW command rejected"),
    }
    assert!((state.current_position.x - 7_500_000).abs() < 1_000);
    assert!((state.current_position.y - 7_500_000).abs() < 1_000);
    assert!((state.current_position.z - 5_000_000).abs() < 1_000);
    // The stop target of the clockwise direction was replaced.
    assert_eq!(state.stop_coordinates_cw.x, 7_500_000);
    assert_eq!(state.stop_coordinates_ccw.x, 0);
}

#[test]
fn malformed_line_leaves_state_unchanged() {
    // Wrong arity: a diagnostic comes back and nothing moves.
    let mut state = InterpreterState::new();
    let _ = state.process_line("LIN +2 +2 +2");
    let before = (
        state.current_position.x,
        state.current_position.y,
        state.current_position.z,
        state.last_position.x,
        state.stop_coordinates_cw.x,
        state.stop_coordinates_ccw.x,
    );
    match state.process_line("LIN +1 +2") {
        LineOutcome::Rejected { reason } => {
            assert_eq!(reason, CommandError::MalformedCommand);
        },
        LineOutcome::Executed { .. } => panic!("malformed line executed"),
    }
    let after = (
        state.current_position.x,
        state.current_position.y,
        state.current_position.z,
        state.last_position.x,
        state.stop_coordinates_cw.x,
        state.stop_coordinates_ccw.x,
    );
    assert_eq!(before, after);
}

#[test]
fn unknown_verb_is_rejected() {
    let mut state = InterpreterState::new();
    match state.process_line("JMP +1 +2 +3") {
        LineOutcome::Rejected { reason } => {
            assert_eq!(reason, CommandError::MalformedCommand);
        },
        LineOutcome::Executed { .. } => panic!("unknown verb executed"),
    }
}

#[test]
fn empty_line_is_rejected() {
    let mut state = InterpreterState::new();
    match state.process_line("") {
        LineOutcome::Rejected { reason } => {
            assert_eq!(reason, CommandError::MalformedCommand);
        },
        LineOutcome::Executed { .. } => panic!("empty line executed"),
    }
}

#[test]
fn invalid_operand_is_rejected() {
    let mut state = InterpreterState::new();
    match state.process_line("LIN +1 +2 +x") {
        LineOutcome::Rejected { reason } => {
            assert_eq!(reason, CommandError::InvalidOperand);
        },
        LineOutcome::Executed { .. } => panic!("invalid operand executed"),
    }
    assert_eq!(state.current_position.x, 0);
}

#[test]
fn lin_to_current_position_arrives_immediately() {
    // Target equal to the current position, with the stop target also there:
    // one emitted step of zero displacement, arrival signalled.
    let mut state = InterpreterState::new();
    match state.process_line("LIN +0 +0 +0") {
        LineOutcome::Executed { emitted, outcome } => {
            assert_eq!(emitted.len(), 1);
            assert_eq!(outcome, MoveOutcome::Arrived);
        },
        LineOutcome::Rejected { .. } => panic!("LIN command rejected"),
    }
    assert_eq!(state.current_position.x, 0);
    assert_eq!(state.current_position.y, 0);
    assert_eq!(state.current_position.z, 0);
}

#[test]
fn ccw_keeps_cw_stop_target() {
    // Arc stop targets are independent per rotation direction.
    let mut state = InterpreterState::new();
    let _ = state.process_line("CW +1 +0 +0 +0 +0 +0");
    let _ = state.process_line("CCW +0 +2 +0 +0 +0 +0");
    assert_eq!(state.stop_coordinates_cw.x, 1_000_000);
    assert_eq!(state.stop_coordinates_ccw.y, 2_000_000);
}
