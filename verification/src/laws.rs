//! Properties of the simulation that span its functions: what growth can
//! and cannot do in one tick, how demand responds to population and jobs,
//! and what building does to tiles and funds.

use vstd::prelude::*;
use crate::city::{develops_into, access_matches, near_road, kind_demand, residential_demand_of, commercial_demand_of, industrial_demand_of,
    population_of, commercial_jobs_of, industrial_jobs_of, level_sum};
use crate::demand::{Demand, squashed, raw_residential, raw_commercial, raw_industrial, raw_in_range,
    lemma_squashed_bounds, lemma_squashed_monotone};
use crate::grid::{Tile, Tool, ZoneKind, MAX_LEVEL, GRID_CELLS, on_grid, cell};
use crate::growth::{next_level, may_grow, may_decay, ROLL_RANGE};
use crate::tools::{build_refusal, tiles_after_build, funds_after_build, tool_cost, stroke_steps, stroke_coord, round_div, abs_int};
use crate::city::{ROAD_COST, BULLDOZE_COST, ZONE_COST, TAX_PER_LEVEL, UPKEEP_PER_ROAD, tax_income, road_total,
    developed_tile, lemma_stats_in_range};
use crate::tools::{BuildError, stroke_state};
use crate::money::{comma_positions_ok, grouped, decimal, three_digits, digit_char, not_comma, lemma_decimal_shape, lemma_decimal_split};

verus! {

/// Zones only develop when a road is within reach: in a tick, a zone
/// without road access never gains a level, loses at most one, and a zone
/// at level 0 stays at level 0.
pub proof fn law_no_development_without_road(before: Tile, after: Tile, r: Demand, c: Demand, i: Demand)
    requires
        before is Zone,
        develops_into(before, after, false, r, c, i),
    ensures
        after is Zone,
        after->kind == before->kind,
        after->level == before->level || after->level == before->level - 1,
        before->level == 0 ==> after->level == 0,
{
    let roll = choose|roll: int| 0 <= roll < ROLL_RANGE && after == (Tile::Zone {
        kind: before->kind,
        level: #[trigger] next_level(before->level, false, kind_demand(before->kind, r, c, i), roll),
    });
}

/// Zones only develop when a road is within reach: after a tick (whose
/// road access is refreshed from its tiles), a zone with no road within
/// `ROAD_REACH` has not gained a level, and an undeveloped one is still
/// undeveloped.
pub proof fn law_zone_far_from_roads_never_develops(
    before: Seq<Tile>,
    after: Seq<Tile>,
    access: Seq<bool>,
    r: Demand,
    c: Demand,
    i: Demand,
    x: int,
    y: int,
)
    requires
        before.len() == GRID_CELLS,
        after.len() == GRID_CELLS,
        access_matches(after, access),
        forall|j: int| 0 <= j < GRID_CELLS ==> #[trigger] develops_into(before[j], after[j], access[j], r, c, i),
        on_grid(x, y),
        before[cell(x, y)] is Zone,
        !near_road(after, x, y),
    ensures
        after[cell(x, y)] is Zone,
        after[cell(x, y)]->kind == before[cell(x, y)]->kind,
        after[cell(x, y)]->level <= before[cell(x, y)]->level,
        before[cell(x, y)]->level == 0 ==> after[cell(x, y)]->level == 0,
{
    let j = cell(x, y);
    assert(develops_into(before[j], after[j], access[j], r, c, i));
    assert(!access[j]);
    law_no_development_without_road(before[j], after[j], r, c, i);
}

/// Every move has a chance: a connected zone under positive demand below
/// `MAX_LEVEL` can grow, one under demand below -0.25 can decay, and a
/// developed zone without road access can be abandoned by a level.
pub proof fn law_moves_have_a_chance(level: u8, d: Demand)
    requires
        d.wf(),
    ensures
        may_grow(level, d) ==> next_level(level, true, d, 0) == level + 1,
        may_decay(level, d) ==> next_level(level, true, d, 0) == level - 1,
        level > 0 ==> next_level(level, false, d, 0) == level - 1,
{
}

/// A tick moves a zone by at most one level, never above `MAX_LEVEL` and
/// never below 0, and keeps its kind; roads and grass stay as they are.
pub proof fn law_tick_step(before: Tile, after: Tile, has_access: bool, r: Demand, c: Demand, i: Demand)
    requires
        develops_into(before, after, has_access, r, c, i),
    ensures
        !(before is Zone) ==> after == before,
        before is Zone ==> after is Zone && after->kind == before->kind,
        before is Zone ==> before->level - 1 <= after->level <= before->level + 1,
        before is Zone && before->level <= MAX_LEVEL ==> after->level <= MAX_LEVEL,
{
    if before is Zone {
        let roll = choose|roll: int| 0 <= roll < ROLL_RANGE && after == (Tile::Zone {
            kind: before->kind,
            level: #[trigger] next_level(before->level, has_access, kind_demand(before->kind, r, c, i), roll),
        });
    }
}

/// Connected zones grow only under positive demand, one level at a time,
/// and only below `MAX_LEVEL`; they decay only under demand below -0.25.
pub proof fn law_growth_follows_demand(level: u8, has_access: bool, d: Demand, roll: int)
    ensures
        next_level(level, has_access, d, roll) > level ==> has_access && d.num > 0 && level < MAX_LEVEL
            && next_level(level, has_access, d, roll) == level + 1,
        has_access && next_level(level, has_access, d, roll) < level ==> 4 * d.num < -d.den
            && next_level(level, has_access, d, roll) == level - 1,
{
}

/// The demand of every city lies strictly between -1 and 1.
pub proof fn law_demand_in_unit_interval(tiles: Seq<Tile>)
    requires
        tiles.len() == GRID_CELLS,
    ensures
        residential_demand_of(tiles).wf(),
        commercial_demand_of(tiles).wf(),
        industrial_demand_of(tiles).wf(),
        -residential_demand_of(tiles).den < residential_demand_of(tiles).num < residential_demand_of(tiles).den,
        -commercial_demand_of(tiles).den < commercial_demand_of(tiles).num < commercial_demand_of(tiles).den,
        -industrial_demand_of(tiles).den < industrial_demand_of(tiles).num < industrial_demand_of(tiles).den,
{
    crate::city::lemma_stats_in_range(tiles);
    let p = population_of(tiles);
    let cj = commercial_jobs_of(tiles);
    let ij = industrial_jobs_of(tiles);
    lemma_squashed_bounds(raw_residential(p, cj, ij));
    lemma_squashed_bounds(raw_commercial(p, cj));
    lemma_squashed_bounds(raw_industrial(p, cj, ij));
}

/// R rises with available jobs and falls as housing grows; it turns
/// negative once housing outstrips employment by more than 6.
pub proof fn law_residential_demand(p1: u32, p2: u32, c1: u32, i1: u32, c2: u32, i2: u32)
    requires
        p1 <= p2,
        c1 + i1 <= c2 + i2,
    ensures
        squashed(raw_residential(p2 as int, c1 as int, i1 as int)).spec_le(
            squashed(raw_residential(p1 as int, c1 as int, i1 as int))),
        squashed(raw_residential(p1 as int, c1 as int, i1 as int)).spec_le(
            squashed(raw_residential(p1 as int, c2 as int, i2 as int))),
        p1 > c1 + i1 + 6 ==> squashed(raw_residential(p1 as int, c1 as int, i1 as int)).num < 0,
        p1 < c1 + i1 + 6 ==> squashed(raw_residential(p1 as int, c1 as int, i1 as int)).num > 0,
{
    lemma_squashed_monotone(raw_residential(p2 as int, c1 as int, i1 as int), raw_residential(p1 as int, c1 as int, i1 as int));
    lemma_squashed_monotone(raw_residential(p1 as int, c1 as int, i1 as int), raw_residential(p1 as int, c2 as int, i2 as int));
}

/// C rises with population and falls as commercial supply grows.
pub proof fn law_commercial_demand(p1: u32, p2: u32, c1: u32, c2: u32)
    requires
        p1 <= p2,
        c1 <= c2,
    ensures
        squashed(raw_commercial(p1 as int, c1 as int)).spec_le(squashed(raw_commercial(p2 as int, c1 as int))),
        squashed(raw_commercial(p1 as int, c2 as int)).spec_le(squashed(raw_commercial(p1 as int, c1 as int))),
{
    lemma_squashed_monotone(raw_commercial(p1 as int, c1 as int), raw_commercial(p2 as int, c1 as int));
    lemma_squashed_monotone(raw_commercial(p1 as int, c2 as int), raw_commercial(p1 as int, c1 as int));
}

/// I rises with population and with commerce, and falls as industry grows.
pub proof fn law_industrial_demand(p1: u32, p2: u32, c1: u32, c2: u32, i1: u32, i2: u32)
    requires
        p1 <= p2,
        c1 <= c2,
        i1 <= i2,
    ensures
        squashed(raw_industrial(p1 as int, c1 as int, i1 as int)).spec_le(
            squashed(raw_industrial(p2 as int, c1 as int, i1 as int))),
        squashed(raw_industrial(p1 as int, c1 as int, i1 as int)).spec_le(
            squashed(raw_industrial(p1 as int, c2 as int, i1 as int))),
        squashed(raw_industrial(p1 as int, c1 as int, i2 as int)).spec_le(
            squashed(raw_industrial(p1 as int, c1 as int, i1 as int))),
{
    lemma_squashed_monotone(raw_industrial(p1 as int, c1 as int, i1 as int), raw_industrial(p2 as int, c1 as int, i1 as int));
    lemma_squashed_monotone(raw_industrial(p1 as int, c1 as int, i1 as int), raw_industrial(p1 as int, c2 as int, i1 as int));
    lemma_squashed_monotone(raw_industrial(p1 as int, c1 as int, i2 as int), raw_industrial(p1 as int, c1 as int, i1 as int));
}

/// Funds are charged only when the tile actually changes: an accepted
/// build changes the tile and costs its price without overdrawing; a
/// refused one changes neither tiles nor funds.
pub proof fn law_charge_only_on_change(tiles: Seq<Tile>, funds: i64, tool: Tool, x: int, y: int)
    requires
        tiles.len() == GRID_CELLS,
    ensures
        build_refusal(tiles, funds, tool, x, y) is None ==> {
            &&& tiles_after_build(tiles, funds, tool, x, y)[cell(x, y)] != tiles[cell(x, y)]
            &&& funds_after_build(tiles, funds, tool, x, y) == funds - tool_cost(tool)
            &&& funds_after_build(tiles, funds, tool, x, y) >= 0
        },
        build_refusal(tiles, funds, tool, x, y) is Some ==> {
            &&& tiles_after_build(tiles, funds, tool, x, y) == tiles
            &&& funds_after_build(tiles, funds, tool, x, y) == funds
        },
        (funds_after_build(tiles, funds, tool, x, y) != funds) == (tiles_after_build(tiles, funds, tool, x, y) != tiles),
{
    if build_refusal(tiles, funds, tool, x, y) is None {
        assert(tiles_after_build(tiles, funds, tool, x, y)[cell(x, y)] != tiles[cell(x, y)]);
    }
}

/// Bulldozing a road just built on grass gives the grass back, and the
/// two builds cost a road and a bulldozing.
pub proof fn law_road_then_bulldoze(tiles: Seq<Tile>, funds: i64, x: int, y: int)
    requires
        tiles.len() == GRID_CELLS,
        on_grid(x, y),
        tiles[cell(x, y)] == Tile::Grass,
        funds >= ROAD_COST + BULLDOZE_COST,
    ensures
        ({
            let t1 = tiles_after_build(tiles, funds, Tool::Road, x, y);
            let f1 = funds_after_build(tiles, funds, Tool::Road, x, y);
            &&& tiles_after_build(t1, f1, Tool::Bulldoze, x, y) == tiles
            &&& funds_after_build(t1, f1, Tool::Bulldoze, x, y) == funds - ROAD_COST - BULLDOZE_COST
        }),
{
    let t1 = tiles_after_build(tiles, funds, Tool::Road, x, y);
    assert(t1.update(cell(x, y), Tile::Grass) =~= tiles);
}

/// Money text groups whole dollars in threes: in the digits of `n`
/// written by `grouped`, dropping the commas gives the plain decimal digits
/// of `n`, and a comma stands exactly at each position but the first that
/// lies a multiple of four characters from the end, so that every comma is
/// followed by three digits and the first group holds one to three.
pub proof fn law_money_groups_of_three(n: nat)
    ensures
        grouped(n).len() >= 1,
        grouped(n).filter(|c: char| not_comma(c)) == decimal(n),
        comma_positions_ok(grouped(n)),
    decreases n,
{
    if n < 1000 {
        lemma_decimal_shape(n);
    } else {
        law_money_groups_of_three(n / 1000);
        lemma_decimal_split(n);
        let g = grouped(n / 1000);
        let t = three_digits(n % 1000);
        lemma_three_digits_no_comma(n % 1000);
        lemma_filter_group(g, t);
        lemma_positions_group(g, t);
        assert(grouped(n) == g + seq![','] + t);
    }
}

proof fn lemma_three_digits_no_comma(m: nat)
    requires
        m < 1000,
    ensures
        three_digits(m).len() == 3,
        forall|i: int| 0 <= i < 3 ==> #[trigger] three_digits(m)[i] != ',',
{
    assert(digit_char((m / 100) as int) != ',');
    assert(digit_char((m / 10 % 10) as int) != ',');
    assert(digit_char((m % 10) as int) != ',');
}

proof fn lemma_filter_group(g: Seq<char>, t: Seq<char>)
    requires
        t.len() == 3,
        forall|i: int| 0 <= i < 3 ==> #[trigger] t[i] != ',',
    ensures
        (g + seq![','] + t).filter(|c: char| not_comma(c)) == g.filter(|c: char| not_comma(c)) + t,
{
    let comma = seq![','];
    Seq::filter_distributes_over_add(g + comma, t, |c: char| not_comma(c));
    Seq::filter_distributes_over_add(g, comma, |c: char| not_comma(c));
    assert(comma.filter(|c: char| not_comma(c)) =~= Seq::<char>::empty()) by {
        reveal_with_fuel(Seq::filter, 2);
        assert(comma.drop_last() =~= Seq::<char>::empty());
    }
    assert(t.filter(|c: char| not_comma(c)) =~= t) by {
        reveal_with_fuel(Seq::filter, 4);
        assert(t.drop_last().drop_last().drop_last() =~= Seq::<char>::empty());
        assert(t.drop_last().drop_last() =~= seq![t[0]]);
        assert(t.drop_last() =~= seq![t[0], t[1]]);
    }
    assert(g.filter(|c: char| not_comma(c)) + Seq::<char>::empty() =~= g.filter(|c: char| not_comma(c)));
}

proof fn lemma_positions_group(g: Seq<char>, t: Seq<char>)
    requires
        g.len() >= 1,
        comma_positions_ok(g),
        t.len() == 3,
        forall|i: int| 0 <= i < 3 ==> #[trigger] t[i] != ',',
    ensures
        comma_positions_ok(g + seq![','] + t),
{
    let s = g + seq![','] + t;
    let len = s.len();
    assert forall|i: int| 0 <= i < len implies ((#[trigger] s[i] == ',') <==> (i > 0 && (len - i) % 4 == 0)) by {
        if i < g.len() {
            assert(s[i] == g[i]);
            assert((len - i) % 4 == (g.len() - i) % 4);
        } else if i == g.len() {
            assert(s[i] == ',');
        } else {
            assert(s[i] == t[i - g.len() - 1]);
        }
    }
}

/// Drags leave no gaps: each step of a stroke lies at most one tile from
/// the step before in each coordinate, the first step lies at most one
/// tile from the tile the drag came from, and the last step is the tile
/// under the cursor.
pub proof fn law_stroke_has_no_gaps(px: int, py: int, cx: int, cy: int, s: int)
    requires
        0 <= s < stroke_steps(px, py, cx, cy),
    ensures
        abs_int(stroke_coord(px, cx, s + 1, stroke_steps(px, py, cx, cy)) - stroke_coord(px, cx, s, stroke_steps(px, py, cx, cy))) <= 1,
        abs_int(stroke_coord(py, cy, s + 1, stroke_steps(px, py, cx, cy)) - stroke_coord(py, cy, s, stroke_steps(px, py, cx, cy))) <= 1,
        stroke_coord(px, cx, 0, stroke_steps(px, py, cx, cy)) == px,
        stroke_coord(py, cy, 0, stroke_steps(px, py, cx, cy)) == py,
        stroke_coord(px, cx, stroke_steps(px, py, cx, cy), stroke_steps(px, py, cx, cy)) == cx,
        stroke_coord(py, cy, stroke_steps(px, py, cx, cy), stroke_steps(px, py, cx, cy)) == cy,
{
    let d = stroke_steps(px, py, cx, cy);
    lemma_coord_step(px, cx, s, d);
    lemma_coord_step(py, cy, s, d);
    lemma_round_exact(px, d);
    lemma_round_exact(py, d);
    lemma_round_exact(cx, d);
    lemma_round_exact(cy, d);
    assert(px * d + (cx - px) * 0 == px * d) by (nonlinear_arith);
    assert(py * d + (cy - py) * 0 == py * d) by (nonlinear_arith);
    assert(px * d + (cx - px) * d == cx * d) by (nonlinear_arith);
    assert(py * d + (cy - py) * d == cy * d) by (nonlinear_arith);
}

/// The rounded quotient lies within a half of the exact one, strictly on
/// the side of zero's rounding direction.
proof fn lemma_round_div_near(n: int, d: int)
    requires
        d > 0,
    ensures
        2 * n - d <= 2 * d * round_div(n, d) <= 2 * n + d,
        n >= 0 ==> 2 * n - d < 2 * d * round_div(n, d),
        n < 0 ==> 2 * d * round_div(n, d) < 2 * n + d,
{
    let r = round_div(n, d);
    if n >= 0 {
        let q = (2 * n + d) / (2 * d);
        assert(2 * d * q <= 2 * n + d < 2 * d * q + 2 * d) by (nonlinear_arith)
            requires q == (2 * n + d) / (2 * d), d > 0;
    } else {
        let q = (-2 * n + d) / (2 * d);
        assert(2 * d * q <= -2 * n + d < 2 * d * q + 2 * d) by (nonlinear_arith)
            requires q == (-2 * n + d) / (2 * d), d > 0;
        assert(2 * d * r == -(2 * d * q)) by (nonlinear_arith)
            requires r == -q;
    }
}

/// A multiple of `d` rounds to its exact quotient.
proof fn lemma_round_exact(k: int, d: int)
    requires
        d > 0,
    ensures
        round_div(k * d, d) == k,
{
    let r = round_div(k * d, d);
    lemma_round_div_near(k * d, d);
    assert(r == k) by (nonlinear_arith)
        requires
            2 * (k * d) - d <= 2 * d * r <= 2 * (k * d) + d,
            d > 0;
}

/// Consecutive steps of one coordinate are at most one apart.
proof fn lemma_coord_step(p: int, c: int, s: int, d: int)
    requires
        0 <= s < d,
        abs_int(c - p) <= d,
    ensures
        abs_int(stroke_coord(p, c, s + 1, d) - stroke_coord(p, c, s, d)) <= 1,
{
    let n1 = p * d + (c - p) * s;
    let n2 = p * d + (c - p) * (s + 1);
    assert(n2 == n1 + (c - p)) by (nonlinear_arith)
        requires n1 == p * d + (c - p) * s, n2 == p * d + (c - p) * (s + 1);
    let r1 = round_div(n1, d);
    let r2 = round_div(n2, d);
    lemma_round_div_near(n1, d);
    lemma_round_div_near(n2, d);
    if abs_int(c - p) == d {
        // A full tile per step: every step is an exact multiple of d.
        let k = if c - p == d { p + s } else { p - s };
        assert(n1 == k * d) by (nonlinear_arith)
            requires n1 == p * d + (c - p) * s, k == (if c - p == d { p + s } else { p - s }), abs_int(c - p) == d,
                abs_int(c - p) == (if c - p < 0 { -(c - p) } else { c - p });
        lemma_round_exact(k, d);
        let k2 = if c - p == d { k + 1 } else { k - 1 };
        assert(n2 == k2 * d) by (nonlinear_arith)
            requires n2 == n1 + (c - p), n1 == k * d, k2 == (if c - p == d { k + 1 } else { k - 1 }), abs_int(c - p) == d,
                abs_int(c - p) == (if c - p < 0 { -(c - p) } else { c - p });
        lemma_round_exact(k2, d);
    } else {
        assert(-1 <= r2 - r1 <= 1) by (nonlinear_arith)
            requires
                2 * n1 - d <= 2 * d * r1 <= 2 * n1 + d,
                2 * n2 - d <= 2 * d * r2 <= 2 * n2 + d,
                -d < n2 - n1 < d,
                d > 0;
    }
}

/// The development levels a tile holds, whatever its zone kind.
pub open spec fn levels_held(t: Tile) -> int {
    match t {
        Tile::Zone { level, .. } => level as int,
        _ => 0,
    }
}

/// 1 for a road, 0 for any other tile.
pub open spec fn roads_held(t: Tile) -> int {
    if t is Road { 1 } else { 0 }
}

proof fn lemma_level_sum_update(t: Seq<Tile>, j: int, x: Tile, k: ZoneKind)
    requires
        0 <= j < t.len(),
    ensures
        level_sum(t.update(j, x), k) == level_sum(t, k) - crate::city::tile_level(t[j], k)
            + crate::city::tile_level(x, k),
    decreases t.len(),
{
    if j == t.len() - 1 {
        assert(t.update(j, x).drop_last() =~= t.drop_last());
    } else {
        lemma_level_sum_update(t.drop_last(), j, x, k);
        assert(t.update(j, x).drop_last() =~= t.drop_last().update(j, x));
    }
}

proof fn lemma_road_total_update(t: Seq<Tile>, j: int, x: Tile)
    requires
        0 <= j < t.len(),
    ensures
        road_total(t.update(j, x)) == road_total(t) - roads_held(t[j]) + roads_held(x),
    decreases t.len(),
{
    if j == t.len() - 1 {
        assert(t.update(j, x).drop_last() =~= t.drop_last());
    } else {
        lemma_road_total_update(t.drop_last(), j, x);
        assert(t.update(j, x).drop_last() =~= t.drop_last().update(j, x));
    }
}

/// Every developed level pays tax and every road costs upkeep: changing one
/// tile changes a tick's income by `TAX_PER_LEVEL` per level gained, of any
/// zone kind, and by `UPKEEP_PER_ROAD` less per road added; a grid of no
/// tiles earns nothing.
pub proof fn law_tax_counts_every_level_and_road(t: Seq<Tile>, j: int, x: Tile)
    requires
        0 <= j < t.len(),
    ensures
        tax_income(t.update(j, x)) - tax_income(t) == TAX_PER_LEVEL * (levels_held(x) - levels_held(t[j]))
            - UPKEEP_PER_ROAD * (roads_held(x) - roads_held(t[j])),
        tax_income(Seq::<Tile>::empty()) == 0,
{
    lemma_level_sum_update(t, j, x, ZoneKind::Residential);
    lemma_level_sum_update(t, j, x, ZoneKind::Commercial);
    lemma_level_sum_update(t, j, x, ZoneKind::Industrial);
    lemma_road_total_update(t, j, x);
}

/// Each demand answers to its own inputs: commercial demand depends only on
/// the population and commercial jobs and falls as commercial levels grow;
/// industrial demand rises with commercial levels and falls with
/// industrial ones; residential demand rises with jobs of either kind and
/// falls as housing grows. Numerically, with `R`, `C`, `I` the residential,
/// commercial and industrial levels, the numerators are
/// `20 (3C + 4I - 4R) + 120`, `28R - 60C + 40` and `36R + 18C - 80I + 40`.
pub proof fn law_demand_answers_to_its_own_inputs(t1: Seq<Tile>, t2: Seq<Tile>)
    requires
        t1.len() == GRID_CELLS,
        t2.len() == GRID_CELLS,
    ensures
        ({
            let (r1, c1, i1) = (level_sum(t1, ZoneKind::Residential), level_sum(t1, ZoneKind::Commercial),
                level_sum(t1, ZoneKind::Industrial));
            &&& residential_demand_of(t1).num == 20 * (3 * c1 + 4 * i1 - 4 * r1) + 120
            &&& commercial_demand_of(t1).num == 28 * r1 - 60 * c1 + 40
            &&& industrial_demand_of(t1).num == 36 * r1 + 18 * c1 - 80 * i1 + 40
        }),
        ({
            let (r1, c1, i1) = (level_sum(t1, ZoneKind::Residential), level_sum(t1, ZoneKind::Commercial),
                level_sum(t1, ZoneKind::Industrial));
            let (r2, c2, i2) = (level_sum(t2, ZoneKind::Residential), level_sum(t2, ZoneKind::Commercial),
                level_sum(t2, ZoneKind::Industrial));
            &&& (r1 == r2 && c1 == c2 ==> commercial_demand_of(t1) == commercial_demand_of(t2))
            &&& (r1 == r2 && c1 <= c2 ==> commercial_demand_of(t2).spec_le(commercial_demand_of(t1)))
            &&& (r1 == r2 && c1 < c2 ==> commercial_demand_of(t2).spec_lt(commercial_demand_of(t1)))
            &&& (r1 == r2 && c1 == c2 && i1 <= i2 ==> industrial_demand_of(t2).spec_le(industrial_demand_of(t1)))
            &&& (r1 == r2 && c1 == c2 && i1 < i2 ==> industrial_demand_of(t2).spec_lt(industrial_demand_of(t1)))
            &&& (r1 == r2 && i1 == i2 && c1 <= c2 ==> industrial_demand_of(t1).spec_le(industrial_demand_of(t2)))
            &&& (r1 == r2 && i1 == i2 && c1 < c2 ==> industrial_demand_of(t1).spec_lt(industrial_demand_of(t2)))
            &&& (c1 == c2 && i1 == i2 && r1 <= r2 ==> residential_demand_of(t2).spec_le(residential_demand_of(t1)))
            &&& (r1 == r2 && c1 <= c2 && i1 <= i2 ==> residential_demand_of(t1).spec_le(residential_demand_of(t2)))
        }),
{
    lemma_stats_in_range(t1);
    lemma_stats_in_range(t2);
    let p1 = population_of(t1);
    let p2 = population_of(t2);
    let cj1 = commercial_jobs_of(t1);
    let cj2 = commercial_jobs_of(t2);
    let ij1 = industrial_jobs_of(t1);
    let ij2 = industrial_jobs_of(t2);
    let rc1 = raw_commercial(p1, cj1);
    let rc2 = raw_commercial(p2, cj2);
    let ri1 = raw_industrial(p1, cj1, ij1);
    let ri2 = raw_industrial(p2, cj2, ij2);
    let rr1 = raw_residential(p1, cj1, ij1);
    let rr2 = raw_residential(p2, cj2, ij2);
    if rc1 <= rc2 {
        lemma_squashed_monotone(rc1, rc2);
    } else {
        lemma_squashed_monotone(rc2, rc1);
    }
    if ri1 <= ri2 {
        lemma_squashed_monotone(ri1, ri2);
    } else {
        lemma_squashed_monotone(ri2, ri1);
    }
    if rr1 <= rr2 {
        lemma_squashed_monotone(rr1, rr2);
    } else {
        lemma_squashed_monotone(rr2, rr1);
    }
}

/// Each zone follows the demand for its own kind: its development under a
/// roll does not change when the demands for the other kinds do; it grows
/// only with road access under positive demand for its kind, and a
/// connected zone decays only under demand for its kind below -0.25.
pub proof fn law_zone_follows_its_own_demand(
    kind: ZoneKind,
    level: u8,
    has_access: bool,
    r: Demand,
    c: Demand,
    i: Demand,
    r2: Demand,
    c2: Demand,
    i2: Demand,
    roll: int,
)
    ensures
        ({
            let before = Tile::Zone { kind, level };
            let after = developed_tile(before, has_access, r, c, i, roll);
            let own = if kind == ZoneKind::Residential { r } else if kind == ZoneKind::Commercial { c } else { i };
            &&& after is Zone
            &&& after->kind == kind
            &&& (kind == ZoneKind::Residential ==> after == developed_tile(before, has_access, r, c2, i2, roll))
            &&& (kind == ZoneKind::Commercial ==> after == developed_tile(before, has_access, r2, c, i2, roll))
            &&& (kind == ZoneKind::Industrial ==> after == developed_tile(before, has_access, r2, c2, i, roll))
            &&& (after->level > level ==> has_access && own.num > 0)
            &&& (has_access && after->level < level ==> 4 * own.num < -own.den)
        }),
{
}

/// What each tool does on the ground: on a grid cell with the funds for
/// it, a road and a zone are built on grass and the bulldozer clears any
/// tile that is not grass, roads and zones alike, leaving grass and
/// charging its cost; a road or zone on anything but grass, and the
/// bulldozer on grass, are refused and change nothing.
pub proof fn law_tools_on_the_ground(tiles: Seq<Tile>, funds: i64, x: int, y: int, kind: ZoneKind)
    requires
        tiles.len() == GRID_CELLS,
        on_grid(x, y),
    ensures
        tiles[cell(x, y)] != Tile::Grass && funds >= BULLDOZE_COST ==> {
            &&& build_refusal(tiles, funds, Tool::Bulldoze, x, y) is None
            &&& tiles_after_build(tiles, funds, Tool::Bulldoze, x, y) == tiles.update(cell(x, y), Tile::Grass)
            &&& funds_after_build(tiles, funds, Tool::Bulldoze, x, y) == funds - BULLDOZE_COST
        },
        tiles[cell(x, y)] == Tile::Grass && funds >= ROAD_COST ==> {
            &&& build_refusal(tiles, funds, Tool::Road, x, y) is None
            &&& tiles_after_build(tiles, funds, Tool::Road, x, y) == tiles.update(cell(x, y), Tile::Road)
            &&& funds_after_build(tiles, funds, Tool::Road, x, y) == funds - ROAD_COST
        },
        tiles[cell(x, y)] == Tile::Grass && funds >= ZONE_COST ==> {
            &&& build_refusal(tiles, funds, Tool::Zone(kind), x, y) is None
            &&& tiles_after_build(tiles, funds, Tool::Zone(kind), x, y) == tiles.update(cell(x, y),
                Tile::Zone { kind, level: 0 })
            &&& funds_after_build(tiles, funds, Tool::Zone(kind), x, y) == funds - ZONE_COST
        },
        tiles[cell(x, y)] == Tile::Grass ==> build_refusal(tiles, funds, Tool::Bulldoze, x, y)
            == Some(BuildError::NothingToBulldoze),
        tiles[cell(x, y)] != Tile::Grass ==> build_refusal(tiles, funds, Tool::Road, x, y)
            == Some(BuildError::RoadNeedsGround),
        tiles[cell(x, y)] != Tile::Grass ==> build_refusal(tiles, funds, Tool::Zone(kind), x, y)
            == Some(BuildError::ZoneNeedsGround),
{
}

/// Every step of a stroke is tried on the state the step before left,
/// whether or not an earlier step was refused: where the build at step `k`
/// is accepted on that state, the tile there holds what the tool leaves and
/// the tool's cost is charged; where it is refused, nothing changes. In
/// particular the last step builds under the cursor whenever it can.
pub proof fn law_stroke_tries_every_step(
    tiles: Seq<Tile>,
    funds: i64,
    tool: Tool,
    px: int,
    py: int,
    cx: int,
    cy: int,
    k: nat,
)
    requires
        1 <= k <= stroke_steps(px, py, cx, cy),
    ensures
        ({
            let steps = stroke_steps(px, py, cx, cy);
            let prev = stroke_state(tiles, funds, tool, px, py, cx, cy, (k - 1) as nat);
            let next = stroke_state(tiles, funds, tool, px, py, cx, cy, k);
            let x = stroke_coord(px, cx, k as int, steps);
            let y = stroke_coord(py, cy, k as int, steps);
            &&& (build_refusal(prev.0, prev.1, tool, x, y) is None ==> {
                &&& next.0 == prev.0.update(cell(x, y), crate::tools::tool_tile(tool))
                &&& next.1 == prev.1 - tool_cost(tool)
            })
            &&& (build_refusal(prev.0, prev.1, tool, x, y) is Some ==> next == prev)
            &&& (k == steps ==> x == cx && y == cy)
        }),
{
    let steps = stroke_steps(px, py, cx, cy);
    if k == steps {
        law_stroke_has_no_gaps(px, py, cx, cy, (k - 1) as int);
    }
}

} // verus!
