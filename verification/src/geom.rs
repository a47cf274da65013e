use vstd::prelude::*;

verus! {

/// Micro-units per coordinate unit: every coordinate, radius and distance in
/// this crate is an integer count of millionths of a unit.
pub const UNIT: i64 = 1_000_000;

/// A move "arrives" at its stop point when the squared distance to it, in
/// square micro-units, is strictly below this bound; it is the square of
/// 1000 micro-units, i.e. of 0.001 units.
pub const ARRIVE_DIST_SQ: i128 = 1_000_000;

/// Largest magnitude accepted for a coordinate operand of a command
/// (one billion units, in micro-units).
pub const OPERAND_LIMIT: i64 = 1_000_000_000_000_000;

/// Largest coordinate magnitude the tool position can ever reach: an arc
/// center is a command operand and an arc radius is a distance between two
/// operand points, so no generated point lies further out than this.
pub const POSITION_LIMIT: i64 = 5_000_000_000_000_000;

/// Mathematical model of a point in 3-space, in micro-units.
pub struct Coords {
    pub x: int,
    pub y: int,
    pub z: int,
}

/// A position in 3D space, each coordinate an integer count of micro-units.
#[derive(Clone, Copy, Debug)]
pub struct Position {
    /// The x-coordinate of the position.
    pub x: i64,
    /// The y-coordinate of the position.
    pub y: i64,
    /// The z-coordinate of the position.
    pub z: i64,
}

impl View for Position {
    type V = Coords;

    open spec fn view(&self) -> Coords {
        Coords { x: self.x as int, y: self.y as int, z: self.z as int }
    }
}

/// Every coordinate of `p` has magnitude at most `limit`.
pub open spec fn within(p: Coords, limit: int) -> bool {
    &&& -limit <= p.x <= limit
    &&& -limit <= p.y <= limit
    &&& -limit <= p.z <= limit
}

impl Position {
    /// Creates a new Position instance with the given coordinates,
    /// each in micro-units.
    pub fn new(x: i64, y: i64, z: i64) -> (p: Position)
        ensures
            p@ == (Coords { x: x as int, y: y as int, z: z as int }),
    {
        Position { x, y, z }
    }
}

pub open spec fn sq(a: int) -> int {
    a * a
}

/// Squared Euclidean distance between two points, in square micro-units.
pub open spec fn dist_sq(a: Coords, b: Coords) -> int {
    sq(a.x - b.x) + sq(a.y - b.y) + sq(a.z - b.z)
}

/// The arrival test every move applies after each emitted step: the point is
/// within 0.001 units of the stop point.
pub open spec fn arrives(p: Coords, stop: Coords) -> bool {
    dist_sq(p, stop) < ARRIVE_DIST_SQ as int
}

/// Division truncating toward zero, as the `/` of `i64` does.
pub open spec fn div_trunc(a: int, b: int) -> int
    recommends
        b > 0,
{
    if a >= 0 {
        a / b
    } else {
        -((-a) / b)
    }
}

pub(crate) proof fn lemma_sq_bound(a: int, m: int)
    requires
        -m <= a <= m,
        0 <= m,
    ensures
        0 <= sq(a) <= m * m,
{
    assert(0 <= a * a <= m * m) by (nonlinear_arith)
        requires
            -m <= a <= m,
            0 <= m,
    ;
}

/// Squared Euclidean distance between two positions.
pub fn distance_sq(a: &Position, b: &Position) -> (d: i128)
    requires
        within(a@, POSITION_LIMIT as int),
        within(b@, POSITION_LIMIT as int),
    ensures
        d as int == dist_sq(a@, b@),
        0 <= d,
{
    let dx: i128 = a.x as i128 - b.x as i128;
    let dy: i128 = a.y as i128 - b.y as i128;
    let dz: i128 = a.z as i128 - b.z as i128;
    proof {
        lemma_sq_bound(dx as int, 2 * POSITION_LIMIT as int);
        lemma_sq_bound(dy as int, 2 * POSITION_LIMIT as int);
        lemma_sq_bound(dz as int, 2 * POSITION_LIMIT as int);
    }
    dx * dx + dy * dy + dz * dz
}

/// The integer square root, rounded down: the unique `r >= 0` with
/// `r * r <= n < (r + 1) * (r + 1)`.
pub open spec fn sqrt_floor(n: int) -> int {
    choose|r: int| 0 <= r && #[trigger] (r * r) <= n && n < (r + 1) * (r + 1)
}

proof fn lemma_sqrt_witness(n: int) -> (r: int)
    requires
        n >= 0,
    ensures
        0 <= r && r * r <= n && n < (r + 1) * (r + 1),
    decreases n,
{
    if n == 0 {
        0
    } else {
        let p = lemma_sqrt_witness(n - 1);
        if (p + 1) * (p + 1) <= n {
            assert(n < (p + 2) * (p + 2)) by (nonlinear_arith)
                requires
                    0 <= p,
                    n - 1 < (p + 1) * (p + 1),
                    (p + 1) * (p + 1) <= n,
            ;
            p + 1
        } else {
            p
        }
    }
}

proof fn lemma_sqrt_unique(n: int, r1: int, r2: int)
    requires
        0 <= r1 && r1 * r1 <= n && n < (r1 + 1) * (r1 + 1),
        0 <= r2 && r2 * r2 <= n && n < (r2 + 1) * (r2 + 1),
    ensures
        r1 == r2,
{
    assert(r1 == r2) by (nonlinear_arith)
        requires
            0 <= r1 && r1 * r1 <= n && n < (r1 + 1) * (r1 + 1),
            0 <= r2 && r2 * r2 <= n && n < (r2 + 1) * (r2 + 1),
    ;
}

pub proof fn lemma_sqrt_floor_props(n: int)
    requires
        n >= 0,
    ensures
        0 <= sqrt_floor(n),
        sqrt_floor(n) * sqrt_floor(n) <= n,
        n < (sqrt_floor(n) + 1) * (sqrt_floor(n) + 1),
{
    let w = lemma_sqrt_witness(n);
    assert(0 <= w && #[trigger] (w * w) <= n && n < (w + 1) * (w + 1));
    assert(exists|r: int| 0 <= r && #[trigger] (r * r) <= n && n < (r + 1) * (r + 1));
}

/// Binary search for the integer square root of `n`.
pub fn isqrt(n: i128) -> (r: i64)
    requires
        0 <= n,
        n < 16_000_000_000_000_000_000_000_000_000_000,
    ensures
        r as int == sqrt_floor(n as int),
        0 <= r <= 4_000_000_000_000_000,
{
    let mut lo: i64 = 0;
    let mut hi: i64 = 4_000_000_000_000_000;
    proof {
        assert((hi as i128) * (hi as i128) > n) by (nonlinear_arith)
            requires
                hi == 4_000_000_000_000_000i64,
                n < 16_000_000_000_000_000_000_000_000_000_000i128,
        ;
    }
    while lo + 1 < hi
        invariant
            0 <= lo < hi <= 4_000_000_000_000_000,
            (lo as int) * (lo as int) <= n as int,
            (n as int) < (hi as int) * (hi as int),
        decreases hi - lo,
    {
        let mid: i64 = lo + (hi - lo) / 2;
        proof {
            lemma_sq_bound(mid as int, 4_000_000_000_000_000);
        }
        let msq: i128 = (mid as i128) * (mid as i128);
        if msq <= n {
            lo = mid;
        } else {
            hi = mid;
        }
    }
    proof {
        assert(hi == lo + 1);
        lemma_sqrt_floor_props(n as int);
        lemma_sqrt_unique(n as int, lo as int, sqrt_floor(n as int));
    }
    lo
}

} // verus!
