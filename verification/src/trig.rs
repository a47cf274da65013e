use vstd::prelude::*;

verus! {

// Circular moves advance by a fixed 5-degree step, so the engine only ever
// needs the sine and cosine of whole multiples of 5 degrees. Those 72 values
// are held exactly, in micro-units, folded from a quarter-circle table.

/// Number of 5-degree steps in a full circle.
pub const STEPS_PER_TURN: u64 = 72;

/// Cosine of `k * 5` degrees for `0 <= k <= 18` (the first quadrant),
/// in micro-units, rounded to the nearest integer.
pub open spec fn cos_base(k: int) -> int
    recommends
        0 <= k <= 18,
{
    if k == 0 {
        1_000_000
    } else if k == 1 {
        996_195
    } else if k == 2 {
        984_808
    } else if k == 3 {
        965_926
    } else if k == 4 {
        939_693
    } else if k == 5 {
        906_308
    } else if k == 6 {
        866_025
    } else if k == 7 {
        819_152
    } else if k == 8 {
        766_044
    } else if k == 9 {
        707_107
    } else if k == 10 {
        642_788
    } else if k == 11 {
        573_576
    } else if k == 12 {
        500_000
    } else if k == 13 {
        422_618
    } else if k == 14 {
        342_020
    } else if k == 15 {
        258_819
    } else if k == 16 {
        173_648
    } else if k == 17 {
        87_156
    } else {
        0
    }
}

/// Cosine of `k * 5` degrees for `0 <= k < 72`, in micro-units.
pub open spec fn cos_step(k: int) -> int
    recommends
        0 <= k < 72,
{
    if k <= 18 {
        cos_base(k)
    } else if k <= 36 {
        -cos_base(36 - k)
    } else if k <= 54 {
        -cos_base(k - 36)
    } else {
        cos_base(72 - k)
    }
}

/// Sine of `k * 5` degrees for `0 <= k < 72`, in micro-units.
pub open spec fn sin_step(k: int) -> int
    recommends
        0 <= k < 72,
{
    if k <= 18 {
        cos_base(18 - k)
    } else if k <= 36 {
        cos_base(k - 18)
    } else if k <= 54 {
        -cos_base(54 - k)
    } else {
        -cos_base(k - 54)
    }
}

pub proof fn lemma_cos_base_bounds(k: int)
    requires
        0 <= k <= 18,
    ensures
        0 <= cos_base(k) <= 1_000_000,
{
}

pub proof fn lemma_step_bounds(k: int)
    requires
        0 <= k < 72,
    ensures
        -1_000_000 <= cos_step(k) <= 1_000_000,
        -1_000_000 <= sin_step(k) <= 1_000_000,
{
}

/// Mirror symmetry of the table: the angle `-k * 5` degrees (reduced into one
/// turn) has the same cosine and the negated sine of `k * 5` degrees.
pub proof fn lemma_step_mirror(k: int)
    requires
        0 <= k < 72,
    ensures
        cos_step((72 - k) % 72) == cos_step(k),
        sin_step((72 - k) % 72) == -sin_step(k),
{
    if k == 0 {
        assert((72 - 0) % 72int == 0);
    } else {
        assert((72 - k) % 72int == 72 - k);
    }
}

/// Cosine of `k * 5` degrees, in micro-units.
pub fn cos_lookup(k: u64) -> (r: i64)
    requires
        k < 72,
    ensures
        r as int == cos_step(k as int),
{
    if k <= 18 {
        cos_base_lookup(k)
    } else if k <= 36 {
        -cos_base_lookup(36 - k)
    } else if k <= 54 {
        -cos_base_lookup(k - 36)
    } else {
        cos_base_lookup(72 - k)
    }
}

/// Sine of `k * 5` degrees, in micro-units.
pub fn sin_lookup(k: u64) -> (r: i64)
    requires
        k < 72,
    ensures
        r as int == sin_step(k as int),
{
    if k <= 18 {
        cos_base_lookup(18 - k)
    } else if k <= 36 {
        cos_base_lookup(k - 18)
    } else if k <= 54 {
        -cos_base_lookup(54 - k)
    } else {
        -cos_base_lookup(k - 54)
    }
}

fn cos_base_lookup(k: u64) -> (r: i64)
    requires
        k <= 18,
    ensures
        r as int == cos_base(k as int),
{
    if k == 0 {
        1_000_000
    } else if k == 1 {
        996_195
    } else if k == 2 {
        984_808
    } else if k == 3 {
        965_926
    } else if k == 4 {
        939_693
    } else if k == 5 {
        906_308
    } else if k == 6 {
        866_025
    } else if k == 7 {
        819_152
    } else if k == 8 {
        766_044
    } else if k == 9 {
        707_107
    } else if k == 10 {
        642_788
    } else if k == 11 {
        573_576
    } else if k == 12 {
        500_000
    } else if k == 13 {
        422_618
    } else if k == 14 {
        342_020
    } else if k == 15 {
        258_819
    } else if k == 16 {
        173_648
    } else if k == 17 {
        87_156
    } else {
        0
    }
}

} // verus!
