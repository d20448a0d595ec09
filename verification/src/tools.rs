//! Building with the tools: roads, zones and the bulldozer, with their costs
//! and the reasons a build is refused; and painting a stroke of builds along
//! a line of tiles.

use vstd::prelude::*;
use crate::city::{City, ROAD_COST, ZONE_COST, BULLDOZE_COST};
use crate::grid::{Tile, Tool, on_grid, cell};

verus! {

/// Why a build did not happen.
#[derive(Clone, Copy, PartialEq, Eq, Debug, Structural)]
pub enum BuildError {
    OutOfBounds,
    RoadNeedsGround,
    NothingToBulldoze,
    ZoneNeedsGround,
    NotEnoughFunds,
}

impl BuildError {
    /// The text that reports this refusal.
    pub open spec fn text(self) -> &'static str {
        match self {
            BuildError::OutOfBounds => "out of bounds",
            BuildError::RoadNeedsGround => "roads need empty ground",
            BuildError::NothingToBulldoze => "nothing to bulldoze",
            BuildError::ZoneNeedsGround => "zones need empty ground",
            BuildError::NotEnoughFunds => "not enough funds",
        }
    }

    /// The text that reports this refusal.
    pub fn message(&self) -> (m: &'static str)
        ensures
            m == self.text(),
    {
        match self {
            BuildError::OutOfBounds => "out of bounds",
            BuildError::RoadNeedsGround => "roads need empty ground",
            BuildError::NothingToBulldoze => "nothing to bulldoze",
            BuildError::ZoneNeedsGround => "zones need empty ground",
            BuildError::NotEnoughFunds => "not enough funds",
        }
    }
}

/// Whether `tool` can be used on a tile that currently is `current`.
pub open spec fn tool_accepts(tool: Tool, current: Tile) -> bool {
    match tool {
        Tool::Road => current == Tile::Grass,
        Tool::Bulldoze => current != Tile::Grass,
        Tool::Zone(_) => current == Tile::Grass,
    }
}

/// The tile that `tool` leaves behind.
pub open spec fn tool_tile(tool: Tool) -> Tile {
    match tool {
        Tool::Road => Tile::Road,
        Tool::Bulldoze => Tile::Grass,
        Tool::Zone(kind) => Tile::Zone { kind, level: 0 },
    }
}

/// What using `tool` costs, in cents.
pub open spec fn tool_cost(tool: Tool) -> i64 {
    match tool {
        Tool::Road => ROAD_COST,
        Tool::Bulldoze => BULLDOZE_COST,
        Tool::Zone(_) => ZONE_COST,
    }
}

/// The refusal of a tool used on a tile it does not accept.
pub open spec fn wrong_ground(tool: Tool) -> BuildError {
    match tool {
        Tool::Road => BuildError::RoadNeedsGround,
        Tool::Bulldoze => BuildError::NothingToBulldoze,
        Tool::Zone(_) => BuildError::ZoneNeedsGround,
    }
}

/// Why using `tool` at (x, y) on these tiles with these funds is refused, if it is.
pub open spec fn build_refusal(tiles: Seq<Tile>, funds: i64, tool: Tool, x: int, y: int) -> Option<BuildError> {
    if !on_grid(x, y) {
        Some(BuildError::OutOfBounds)
    } else if !tool_accepts(tool, tiles[cell(x, y)]) {
        Some(wrong_ground(tool))
    } else if funds < tool_cost(tool) {
        Some(BuildError::NotEnoughFunds)
    } else {
        None
    }
}

/// The tiles after using `tool` at (x, y).
pub open spec fn tiles_after_build(tiles: Seq<Tile>, funds: i64, tool: Tool, x: int, y: int) -> Seq<Tile> {
    if build_refusal(tiles, funds, tool, x, y) is None {
        tiles.update(cell(x, y), tool_tile(tool))
    } else {
        tiles
    }
}

/// The funds after using `tool` at (x, y).
pub open spec fn funds_after_build(tiles: Seq<Tile>, funds: i64, tool: Tool, x: int, y: int) -> i64 {
    if build_refusal(tiles, funds, tool, x, y) is None {
        (funds - tool_cost(tool)) as i64
    } else {
        funds
    }
}

/// `n / d` rounded to the nearest integer, halves away from zero (`d > 0`).
pub open spec fn round_div(n: int, d: int) -> int {
    if n >= 0 {
        (2 * n + d) / (2 * d)
    } else {
        -((-2 * n + d) / (2 * d))
    }
}

/// Absolute value.
pub open spec fn abs_int(v: int) -> int {
    if v < 0 { -v } else { v }
}

/// Number of tiles a stroke from (px, py) to (cx, cy) visits: the larger
/// coordinate distance, at least 1.
pub open spec fn stroke_steps(px: int, py: int, cx: int, cy: int) -> int {
    let d = if abs_int(cx - px) < abs_int(cy - py) { abs_int(cy - py) } else { abs_int(cx - px) };
    if d < 1 { 1 } else { d }
}

/// Coordinate of step `s` of `steps` from `p` to `c`: `p + (c - p) * s / steps`, rounded.
pub open spec fn stroke_coord(p: int, c: int, s: int, steps: int) -> int {
    round_div(p * steps + (c - p) * s, steps)
}

/// Tiles and funds after the first `k` steps of a stroke.
pub open spec fn stroke_state(
    tiles: Seq<Tile>,
    funds: i64,
    tool: Tool,
    px: int,
    py: int,
    cx: int,
    cy: int,
    k: nat,
) -> (Seq<Tile>, i64)
    decreases k,
{
    if k == 0 {
        (tiles, funds)
    } else {
        let prev = stroke_state(tiles, funds, tool, px, py, cx, cy, (k - 1) as nat);
        let steps = stroke_steps(px, py, cx, cy);
        let x = stroke_coord(px, cx, k as int, steps);
        let y = stroke_coord(py, cy, k as int, steps);
        (tiles_after_build(prev.0, prev.1, tool, x, y), funds_after_build(prev.0, prev.1, tool, x, y))
    }
}

/// The refusal reported for the first `k` steps of a stroke: the last one
/// that is worth reporting, that is any refusal on the first click of a
/// drag and a lack of funds always.
pub open spec fn stroke_report(
    tiles: Seq<Tile>,
    funds: i64,
    tool: Tool,
    px: int,
    py: int,
    cx: int,
    cy: int,
    first_click: bool,
    k: nat,
) -> Option<BuildError>
    decreases k,
{
    if k == 0 {
        None
    } else {
        let prev = stroke_state(tiles, funds, tool, px, py, cx, cy, (k - 1) as nat);
        let steps = stroke_steps(px, py, cx, cy);
        let x = stroke_coord(px, cx, k as int, steps);
        let y = stroke_coord(py, cy, k as int, steps);
        let e = build_refusal(prev.0, prev.1, tool, x, y);
        if e is Some && (first_click || e->0 == BuildError::NotEnoughFunds) {
            e
        } else {
            stroke_report(tiles, funds, tool, px, py, cx, cy, first_click, (k - 1) as nat)
        }
    }
}

/// Rounds `n / d` to the nearest integer, halves away from zero.
fn round_div_exec(n: i128, d: i128) -> (r: i128)
    requires
        0 < d <= 0x1_0000_0000,
        -0x1_0000_0000_0000_0000 <= n <= 0x1_0000_0000_0000_0000,
    ensures
        r == round_div(n as int, d as int),
{
    if n >= 0 {
        (2 * n + d) / (2 * d)
    } else {
        let m: i128 = 0 - n;
        let q: i128 = (2 * m + d) / (2 * d);
        proof {
            assert(0 <= q <= 2 * m + d) by (nonlinear_arith)
                requires q == (2 * m + d) / (2 * d), d > 0, m > 0;
        }
        0 - q
    }
}

/// Coordinate of step `s` of `steps` from `p` to `c`.
fn stroke_coord_exec(p: i32, c: i32, s: i64, steps: i64) -> (r: i32)
    requires
        1 <= s <= steps,
        steps <= i32::MAX,
        abs_int(c - p) <= steps,
    ensures
        r == stroke_coord(p as int, c as int, s as int, steps as int),
{
    proof {
        assert(-0x8000_0000 * 0x8000_0000 <= (p as int) * (steps as int) <= 0x8000_0000 * 0x8000_0000)
            by (nonlinear_arith)
            requires -0x8000_0000 <= p < 0x8000_0000, 1 <= steps < 0x8000_0000;
        assert(-0x1_0000_0000 * 0x8000_0000 <= (c - p) * (s as int) <= 0x1_0000_0000 * 0x8000_0000)
            by (nonlinear_arith)
            requires -0x1_0000_0000 <= c - p <= 0x1_0000_0000, 1 <= s < 0x8000_0000;
    }
    let n: i128 = (p as i128) * (steps as i128) + ((c as i128) - (p as i128)) * (s as i128);
    let r = round_div_exec(n, steps as i128);
    proof {
        // The rounded point lies between p and c, so it fits in an i32.
        lemma_stroke_coord_between(p as int, c as int, s as int, steps as int);
    }
    r as i32
}

proof fn lemma_stroke_coord_between(p: int, c: int, s: int, steps: int)
    requires
        1 <= s <= steps,
        abs_int(c - p) <= steps,
    ensures
        (if p <= c { p } else { c }) <= stroke_coord(p, c, s, steps) <= (if p <= c { c } else { p }),
{
    let n = p * steps + (c - p) * s;
    if p <= c {
        assert(p * steps <= n <= c * steps) by (nonlinear_arith)
            requires n == p * steps + (c - p) * s, p <= c, 1 <= s <= steps;
    } else {
        assert(c * steps <= n <= p * steps) by (nonlinear_arith)
            requires n == p * steps + (c - p) * s, c < p, 1 <= s <= steps;
    }
    lemma_round_div_between(n, steps, if p <= c { p } else { c }, if p <= c { c } else { p });
}

proof fn lemma_round_div_between(n: int, d: int, lo: int, hi: int)
    requires
        d > 0,
        lo * d <= n <= hi * d,
    ensures
        lo <= round_div(n, d) <= hi,
{
    if n >= 0 {
        assert(lo <= (2 * n + d) / (2 * d) <= hi) by (nonlinear_arith)
            requires d > 0, lo * d <= n <= hi * d, n >= 0;
    } else {
        assert(lo <= -((-2 * n + d) / (2 * d)) <= hi) by (nonlinear_arith)
            requires d > 0, lo * d <= n <= hi * d, n < 0;
    }
}

impl City {
    /// Uses `tool` at (x, y), or says why not.
    fn build(&mut self, tool: Tool, x: i32, y: i32) -> (r: Result<(), BuildError>)
        requires
            old(self).wf(),
        ensures
            final(self).wf(),
            r == (match build_refusal(old(self).tiles@, old(self).funds, tool, x as int, y as int) {
                Some(e) => Err(e),
                None => Ok(()),
            }),
            r is Err ==> *final(self) == *old(self),
            r is Ok ==> final(self).access_fresh(),
            final(self).tiles@ == tiles_after_build(old(self).tiles@, old(self).funds, tool, x as int, y as int),
            final(self).funds == funds_after_build(old(self).tiles@, old(self).funds, tool, x as int, y as int),
            final(self).population == old(self).population,
            final(self).jobs == old(self).jobs,
            final(self).demand_r == old(self).demand_r,
            final(self).demand_c == old(self).demand_c,
            final(self).demand_i == old(self).demand_i,
    {
        if !Self::in_bounds(x, y) {
            return Err(BuildError::OutOfBounds);
        }
        let i = Self::idx(x, y);
        let current = self.tiles[i];
        let (new_tile, cost) = match tool {
            Tool::Road => {
                if current != Tile::Grass {
                    return Err(BuildError::RoadNeedsGround);
                }
                (Tile::Road, ROAD_COST)
            },
            Tool::Bulldoze => {
                if current == Tile::Grass {
                    return Err(BuildError::NothingToBulldoze);
                }
                (Tile::Grass, BULLDOZE_COST)
            },
            Tool::Zone(kind) => {
                if current != Tile::Grass {
                    return Err(BuildError::ZoneNeedsGround);
                }
                (Tile::Zone { kind, level: 0 }, ZONE_COST)
            },
        };
        if self.funds < cost {
            return Err(BuildError::NotEnoughFunds);
        }
        self.funds = self.funds - cost;
        self.tiles[i] = new_tile;
        self.refresh_road_access();
        Ok(())
    }

    /// Attempt a build/bulldoze at (x, y). Charges funds only when the tile
    /// actually changes. Returns Err with a reason when nothing happened.
    pub fn apply_tool(&mut self, tool: Tool, x: i32, y: i32) -> (r: Result<(), &'static str>)
        requires
            old(self).wf(),
        ensures
            final(self).wf(),
            r == (match build_refusal(old(self).tiles@, old(self).funds, tool, x as int, y as int) {
                Some(e) => Err(e.text()),
                None => Ok(()),
            }),
            r is Err ==> *final(self) == *old(self),
            r is Ok ==> final(self).access_fresh(),
            final(self).tiles@ == tiles_after_build(old(self).tiles@, old(self).funds, tool, x as int, y as int),
            final(self).funds == funds_after_build(old(self).tiles@, old(self).funds, tool, x as int, y as int),
            final(self).population == old(self).population,
            final(self).jobs == old(self).jobs,
            final(self).demand_r == old(self).demand_r,
            final(self).demand_c == old(self).demand_c,
            final(self).demand_i == old(self).demand_i,
    {
        match self.build(tool, x, y) {
            Ok(()) => Ok(()),
            Err(e) => Err(e.message()),
        }
    }

    /// Paints `tool` along a drag from the previously painted tile `from`
    /// (none at the start of a drag) to `to`, one tile per step so that fast
    /// drags leave no gaps. Returns the refusal worth reporting, if any.
    pub fn paint_stroke(&mut self, tool: Tool, from: Option<(i32, i32)>, to: (i32, i32), first_click: bool)
        -> (msg: Option<&'static str>)
        requires
            old(self).wf(),
            abs_int(to.0 - from.unwrap_or(to).0) <= i32::MAX,
            abs_int(to.1 - from.unwrap_or(to).1) <= i32::MAX,
        ensures
            final(self).wf(),
            ({
                let (px, py) = from.unwrap_or(to);
                let steps = stroke_steps(px as int, py as int, to.0 as int, to.1 as int);
                &&& (final(self).tiles@, final(self).funds) == stroke_state(old(self).tiles@, old(self).funds, tool,
                    px as int, py as int, to.0 as int, to.1 as int, steps as nat)
                &&& msg == (match stroke_report(old(self).tiles@, old(self).funds, tool, px as int, py as int,
                    to.0 as int, to.1 as int, first_click, steps as nat) {
                        Some(e) => Some(e.text()),
                        None => None,
                    })
            }),
            final(self).access_fresh() || (final(self).road_access@ == old(self).road_access@
                && final(self).tiles@ == old(self).tiles@),
            final(self).population == old(self).population,
            final(self).jobs == old(self).jobs,
            final(self).demand_r == old(self).demand_r,
            final(self).demand_c == old(self).demand_c,
            final(self).demand_i == old(self).demand_i,
    {
        let (cx, cy) = to;
        let (px, py) = match from {
            Some(p) => p,
            None => to,
        };
        let dx: i64 = if cx as i64 - px as i64 >= 0 { cx as i64 - px as i64 } else { px as i64 - cx as i64 };
        let dy: i64 = if cy as i64 - py as i64 >= 0 { cy as i64 - py as i64 } else { py as i64 - cy as i64 };
        let mut steps: i64 = if dx < dy { dy } else { dx };
        if steps < 1 {
            steps = 1;
        }
        let ghost t0 = self.tiles@;
        let ghost f0 = self.funds;
        let mut msg: Option<&'static str> = None;
        let mut s: i64 = 1;
        while s <= steps
            invariant
                self.wf(),
                1 <= s <= steps + 1,
                steps == stroke_steps(px as int, py as int, cx as int, cy as int),
                1 <= steps <= i32::MAX,
                abs_int(cx - px) <= steps,
                abs_int(cy - py) <= steps,
                (self.tiles@, self.funds) == stroke_state(t0, f0, tool, px as int, py as int, cx as int, cy as int,
                    (s - 1) as nat),
                msg == (match stroke_report(t0, f0, tool, px as int, py as int, cx as int, cy as int, first_click,
                    (s - 1) as nat) {
                    Some(e) => Some(e.text()),
                    None => None,
                }),
                self.access_fresh() || (self.road_access@ == old(self).road_access@ && self.tiles@ == old(self).tiles@),
                t0 == old(self).tiles@,
                f0 == old(self).funds,
                self.population == old(self).population,
                self.jobs == old(self).jobs,
                self.demand_r == old(self).demand_r,
                self.demand_c == old(self).demand_c,
                self.demand_i == old(self).demand_i,
            decreases steps + 1 - s,
        {
            let x = stroke_coord_exec(px, cx, s, steps);
            let y = stroke_coord_exec(py, cy, s, steps);
            match self.build(tool, x, y) {
                Ok(()) => {},
                Err(e) => {
                    if first_click || e == BuildError::NotEnoughFunds {
                        msg = Some(e.message());
                    }
                },
            }
            s += 1;
        }
        msg
    }
}

} // verus!
