use vstd::prelude::*;
use crate::geom::{
    Coords, Position, within, dist_sq, arrives, sqrt_floor, distance_sq, isqrt, sq,
    lemma_sqrt_floor_props, OPERAND_LIMIT, POSITION_LIMIT,
};
use crate::motion::{
    Direction, MoveOutcome, lin_point, lin_step_count, circle_point, circle_step_count,
    circ_first_stop, RADIUS_LIMIT,
};
use crate::parse::{Command, CommandError, MoveCommand, spec_parse_line, parse_line,
    lemma_parsed_line_in_range};

verus! {

/// The running state of the command interpreter: the tool's position, the
/// remembered stop targets of the two arc directions, and the position
/// before the latest linear move.
pub struct InterpreterState {
    /// Where the tool is now; every executed move updates it.
    pub current_position: Position,
    /// The position just before the most recent linear move.
    pub last_position: Position,
    /// Stop target of clockwise arcs, persisting until the next `CW`.
    pub stop_coordinates_cw: Position,
    /// Stop target of counter-clockwise arcs, persisting until the next `CCW`.
    pub stop_coordinates_ccw: Position,
}

/// What processing one line produced: the emitted points of an executed
/// move, or a diagnostic for a rejected line.
pub enum LineOutcome {
    Executed { emitted: Vec<Position>, outcome: MoveOutcome },
    Rejected { reason: CommandError },
}

/// Every remembered position stays inside the coordinate range.
pub open spec fn state_wf(st: InterpreterState) -> bool {
    &&& within(st.current_position@, POSITION_LIMIT as int)
    &&& within(st.last_position@, POSITION_LIMIT as int)
    &&& within(st.stop_coordinates_cw@, POSITION_LIMIT as int)
    &&& within(st.stop_coordinates_ccw@, POSITION_LIMIT as int)
}

/// The radius of an arc: the distance from its stop point to its center,
/// rounded down to whole micro-units.
pub open spec fn arc_radius(stop: Coords, center: Coords) -> int {
    sqrt_floor(dist_sq(stop, center))
}

/// What one processed line does to the interpreter state and what it
/// returns: a rejected line leaves the state untouched and carries the
/// reason; an executed move updates exactly the state the command names and
/// returns the emitted points with the move's outcome.
pub open spec fn step_spec(
    pre: InterpreterState,
    post: InterpreterState,
    line: Seq<char>,
    r: LineOutcome,
) -> bool {
    match spec_parse_line(line) {
        Err(e) => post == pre && r == (LineOutcome::Rejected { reason: e }),
        Ok(cmd) => match cmd {
            MoveCommand::Lin { target } => {
                let start = pre.current_position@;
                let stop = pre.stop_coordinates_cw@;
                let n = lin_step_count(start, target, stop);
                &&& post.last_position == pre.current_position
                &&& post.stop_coordinates_cw == pre.stop_coordinates_cw
                &&& post.stop_coordinates_ccw == pre.stop_coordinates_ccw
                &&& post.current_position@ == lin_point(start, target, n)
                &&& r matches LineOutcome::Executed { emitted, outcome } && emitted@.len() == n
                    && (forall|j: int|
                        0 <= j < n ==> (#[trigger] emitted@[j])@ == lin_point(start, target, j + 1))
                    && (outcome == MoveOutcome::Arrived <==> arrives(lin_point(start, target, n), stop))
            },
            MoveCommand::Cw { stop, center } => arc_step_spec(
                pre,
                post,
                Direction::Cw,
                stop,
                center,
                r,
            ),
            MoveCommand::Ccw { stop, center } => arc_step_spec(
                pre,
                post,
                Direction::Ccw,
                stop,
                center,
                r,
            ),
        },
    }
}

/// The state change and result of an executed arc command: the stop target
/// of its direction is replaced first, the radius is the stop-to-center
/// distance, and the move emits circle points until arrival or a full turn.
pub open spec fn arc_step_spec(
    pre: InterpreterState,
    post: InterpreterState,
    direction: Direction,
    stop: Coords,
    center: Coords,
    r: LineOutcome,
) -> bool {
    let radius = arc_radius(stop, center);
    let n = circle_step_count(radius);
    let f = circ_first_stop(center, radius, direction, stop, n);
    let m = if f < n {
        f + 1
    } else {
        n
    };
    &&& post.last_position == pre.last_position
    &&& (if direction == Direction::Cw {
        post.stop_coordinates_cw@ == stop && post.stop_coordinates_ccw
            == pre.stop_coordinates_ccw
    } else {
        post.stop_coordinates_ccw@ == stop && post.stop_coordinates_cw
            == pre.stop_coordinates_cw
    })
    &&& post.current_position@ == if m == 0 {
        pre.current_position@
    } else {
        circle_point(center, radius, direction, m - 1)
    }
    &&& r matches LineOutcome::Executed { emitted, outcome } && emitted@.len() == m && (forall|
        j: int,
    |
        0 <= j < m ==> (#[trigger] emitted@[j])@ == circle_point(center, radius, direction, j)) && (
    outcome == MoveOutcome::Arrived <==> f < n)
}

impl InterpreterState {
    /// A fresh interpreter: the tool and both stop targets at the origin.
    pub fn new() -> (st: InterpreterState)
        ensures
            st.current_position@ == (Coords { x: 0, y: 0, z: 0 }),
            st.last_position@ == (Coords { x: 0, y: 0, z: 0 }),
            st.stop_coordinates_cw@ == (Coords { x: 0, y: 0, z: 0 }),
            st.stop_coordinates_ccw@ == (Coords { x: 0, y: 0, z: 0 }),
            state_wf(st),
    {
        InterpreterState {
            current_position: Position::new(0, 0, 0),
            last_position: Position::new(0, 0, 0),
            stop_coordinates_cw: Position::new(0, 0, 0),
            stop_coordinates_ccw: Position::new(0, 0, 0),
        }
    }

    /// Reads one instruction line, executes it against the state, and
    /// returns what it emitted, or the diagnostic for a rejected line,
    /// which leaves the state unchanged.
    pub fn process_line(&mut self, line: &str) -> (r: LineOutcome)
        requires
            state_wf(*old(self)),
        ensures
            state_wf(*final(self)),
            step_spec(*old(self), *final(self), line@, r),
    {
        proof {
            lemma_parsed_line_in_range(line@);
        }
        let parsed = parse_line(line);
        match parsed {
            Err(reason) => LineOutcome::Rejected { reason },
            Ok(Command::Lin { target }) => {
                let stop = self.stop_coordinates_cw;
                self.last_position = self.current_position;
                let (emitted, outcome) = self.current_position.linear_move(&target, &stop);
                LineOutcome::Executed { emitted, outcome }
            },
            Ok(Command::Cw { stop, center }) => {
                self.stop_coordinates_cw = stop;
                let radius = arc_distance(&stop, &center);
                let stop_cw = self.stop_coordinates_cw;
                let stop_ccw = self.stop_coordinates_ccw;
                let (emitted, outcome) = self.current_position.circular_move(
                    &center,
                    radius,
                    Direction::Cw,
                    &stop_cw,
                    &stop_ccw,
                );
                LineOutcome::Executed { emitted, outcome }
            },
            Ok(Command::Ccw { stop, center }) => {
                self.stop_coordinates_ccw = stop;
                let radius = arc_distance(&stop, &center);
                let stop_cw = self.stop_coordinates_cw;
                let stop_ccw = self.stop_coordinates_ccw;
                let (emitted, outcome) = self.current_position.circular_move(
                    &center,
                    radius,
                    Direction::Ccw,
                    &stop_cw,
                    &stop_ccw,
                );
                LineOutcome::Executed { emitted, outcome }
            },
        }
    }
}

/// The distance between an arc's stop point and its center, rounded down to
/// whole micro-units: the arc's radius.
fn arc_distance(stop: &Position, center: &Position) -> (radius: i64)
    requires
        within(stop@, OPERAND_LIMIT as int),
        within(center@, OPERAND_LIMIT as int),
    ensures
        radius as int == arc_radius(stop@, center@),
        0 <= radius <= RADIUS_LIMIT,
        within(center@, POSITION_LIMIT as int - radius as int),
{
    let d2 = distance_sq(stop, center);
    proof {
        assert(sq(stop@.x - center@.x) <= 4_000_000_000_000_000_000_000_000_000_000)
            by (nonlinear_arith)
            requires
                -2_000_000_000_000_000 <= stop@.x - center@.x <= 2_000_000_000_000_000,
        ;
        assert(sq(stop@.y - center@.y) <= 4_000_000_000_000_000_000_000_000_000_000)
            by (nonlinear_arith)
            requires
                -2_000_000_000_000_000 <= stop@.y - center@.y <= 2_000_000_000_000_000,
        ;
        assert(sq(stop@.z - center@.z) <= 4_000_000_000_000_000_000_000_000_000_000)
            by (nonlinear_arith)
            requires
                -2_000_000_000_000_000 <= stop@.z - center@.z <= 2_000_000_000_000_000,
        ;
        assert(d2 as int <= 12_000_000_000_000_000_000_000_000_000_000);
    }
    let radius = isqrt(d2);
    proof {
        lemma_sqrt_floor_props(d2 as int);
        assert(radius as int <= 3_500_000_000_000_000) by (nonlinear_arith)
            requires
                0 <= radius as int,
                (radius as int) * (radius as int) <= d2 as int,
                d2 as int <= 12_000_000_000_000_000_000_000_000_000_000,
        ;
    }
    radius
}

} // verus!
