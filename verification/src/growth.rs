//! How a zone's development level moves in one tick: growth under positive
//! demand, decay under strongly negative demand, and abandonment without
//! road access. Each move is taken with a probability, decided by a random
//! roll drawn uniformly from `0..ROLL_RANGE`; `roll / ROLL_RANGE` stands for
//! a uniform draw from `[0, 1)`.

use vstd::prelude::*;
use crate::demand::Demand;
use crate::grid::MAX_LEVEL;

verus! {

/// Number of distinct rolls: a roll is a uniform draw from `0..ROLL_RANGE`.
pub const ROLL_RANGE: u32 = 16777216;

/// Demand is high enough for a zone at `level` to try to grow (`d > 0`).
pub open spec fn may_grow(level: u8, d: Demand) -> bool {
    d.num > 0 && level < MAX_LEVEL
}

/// Demand is low enough for a zone at `level` to try to decay (`d < -0.25`).
pub open spec fn may_decay(level: u8, d: Demand) -> bool {
    4 * d.num < -d.den && level > 0
}

/// The growth chance `d * 0.15` beats the roll.
pub open spec fn growth_roll_wins(d: Demand, roll: int) -> bool {
    20 * roll * d.den < 3 * ROLL_RANGE * d.num
}

/// The decay chance `(-d - 0.25) * 0.2` beats the roll.
pub open spec fn decay_roll_wins(d: Demand, roll: int) -> bool {
    20 * roll * d.den < ROLL_RANGE * (-4 * d.num - d.den)
}

/// The abandonment chance `0.10` beats the roll.
pub open spec fn abandon_roll_wins(roll: int) -> bool {
    10 * roll < ROLL_RANGE
}

/// The level of a zone after one tick, given whether it has road access,
/// the demand for its kind and the roll.
pub open spec fn next_level(level: u8, has_access: bool, d: Demand, roll: int) -> u8 {
    if has_access {
        if may_grow(level, d) && growth_roll_wins(d, roll) {
            (level + 1) as u8
        } else if may_decay(level, d) && decay_roll_wins(d, roll) {
            (level - 1) as u8
        } else {
            level
        }
    } else if level > 0 && abandon_roll_wins(roll) {
        (level - 1) as u8
    } else {
        level
    }
}

/// Whether the level can move at all, so that a roll has to be drawn.
pub open spec fn roll_needed(level: u8, has_access: bool, d: Demand) -> bool {
    if has_access {
        may_grow(level, d) || may_decay(level, d)
    } else {
        level > 0
    }
}

/// `macroquad::rand::gen_range` on `u32`: with `low == 0` its result lies in
/// `0..high` (it scales a 32-bit draw by `high` in `f64` and truncates).
/// The value itself depends on the generator's global state.
#[verifier::external_body]
fn gen_range_u32(low: u32, high: u32) -> (r: u32)
    requires
        low == 0,
        0 < high,
    ensures
        r < high,
{
    macroquad::rand::gen_range(low, high)
}

/// Draws one roll from the global generator.
pub fn draw_roll() -> (r: u32)
    ensures
        r < ROLL_RANGE,
{
    gen_range_u32(0, ROLL_RANGE)
}

/// Whether a zone at `level` needs a roll this tick.
pub fn needs_roll(level: u8, has_access: bool, d: Demand) -> (b: bool)
    ensures
        b == roll_needed(level, has_access, d),
{
    if has_access {
        let grow = d.num > 0 && level < MAX_LEVEL;
        let decay = (d.num as i128) * 4 < -(d.den as i128) && level > 0;
        grow || decay
    } else {
        level > 0
    }
}

/// The level after one tick under the given roll.
pub fn level_after(level: u8, has_access: bool, d: Demand, roll: u32) -> (l: u8)
    requires
        d.wf(),
    ensures
        l == next_level(level, has_access, d, roll as int),
{
    let r = roll as i128;
    let num = d.num as i128;
    let den = d.den as i128;
    let range = ROLL_RANGE as i128;
    proof {
        assert(0 <= r * den <= 0x1_0000_0000 * 0x8000_0000_0000_0000) by (nonlinear_arith)
            requires 0 <= r < 0x1_0000_0000, 0 < den < 0x8000_0000_0000_0000;
        assert(-0x1_0000_0000 * 0x8000_0000_0000_0000 <= range * num <= 0x1_0000_0000 * 0x8000_0000_0000_0000)
            by (nonlinear_arith)
            requires range == 16777216, -0x8000_0000_0000_0000 <= num < 0x8000_0000_0000_0000;
        assert(-0x1_0000_0000 * 0x4_0000_0000_0000_0000 <= range * (-4 * num - den)
            <= 0x1_0000_0000 * 0x4_0000_0000_0000_0000) by (nonlinear_arith)
            requires
                range == 16777216,
                -0x8000_0000_0000_0000 <= num < 0x8000_0000_0000_0000,
                0 < den < 0x8000_0000_0000_0000;
        assert(20 * r * den == 20 * (r * den)) by (nonlinear_arith);
        assert(3 * range * num == 3 * (range * num)) by (nonlinear_arith);
    }
    if has_access {
        if num > 0 && level < MAX_LEVEL && 20 * (r * den) < 3 * (range * num) {
            level + 1
        } else if 4 * num < -den && level > 0 && 20 * (r * den) < range * (-4 * num - den) {
            level - 1
        } else {
            level
        }
    } else if level > 0 && 10 * r < range {
        level - 1
    } else {
        level
    }
}

/// Without a roll the level stays: whatever the roll, `next_level` is `level`.
pub proof fn lemma_no_roll_no_change(level: u8, has_access: bool, d: Demand, roll: int)
    requires
        !roll_needed(level, has_access, d),
    ensures
        next_level(level, has_access, d, roll) == level,
{
}

} // verus!
