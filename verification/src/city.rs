//! The city: its grid of tiles, the cached road access of each cell, its
//! funds and statistics, and the demand that drives its growth.

use vstd::prelude::*;
use crate::demand::{Demand, raw_demands, squashed, raw_residential, raw_commercial, raw_industrial, raw_in_range};
use crate::growth::{ROLL_RANGE, next_level, needs_roll, draw_roll, level_after};
use crate::grid::{Tile, ZoneKind, GRID_W, GRID_H, GRID_CELLS, ROAD_REACH, MAX_LEVEL, on_grid, cell};

verus! {

/// Cost of a road tile, in cents.
pub const ROAD_COST: i64 = 1000;

/// Cost of zoning a tile, in cents.
pub const ZONE_COST: i64 = 500;

/// Cost of bulldozing a tile, in cents.
pub const BULLDOZE_COST: i64 = 100;

/// Funds of a new city, in cents.
pub const STARTING_FUNDS: i64 = 500000;

/// Tax paid per development level each tick, in cents.
pub const TAX_PER_LEVEL: i64 = 45;

/// Upkeep of a road tile each tick, in cents.
pub const UPKEEP_PER_ROAD: i64 = 5;

/// People housed per residential level.
pub const POP_PER_LEVEL: u32 = 4;

/// Jobs per commercial level.
pub const C_JOBS_PER_LEVEL: u32 = 3;

/// Jobs per industrial level.
pub const I_JOBS_PER_LEVEL: u32 = 4;

pub struct City {
    pub tiles: Vec<Tile>,
    /// Cached per-tile road access, refreshed every tick and after edits.
    pub road_access: Vec<bool>,
    /// Funds, in cents.
    pub funds: i64,
    pub population: u32,
    pub jobs: u32,
    pub demand_r: Demand,
    pub demand_c: Demand,
    pub demand_i: Demand,
}

/// The development level a tile contributes to the total of `kind`.
pub open spec fn tile_level(t: Tile, kind: ZoneKind) -> int {
    match t {
        Tile::Zone { kind: k, level } => if k == kind { level as int } else { 0 },
        _ => 0,
    }
}

/// Sum of the levels of the zones of `kind` among `tiles`.
pub open spec fn level_sum(tiles: Seq<Tile>, kind: ZoneKind) -> int
    decreases tiles.len(),
{
    if tiles.len() == 0 {
        0
    } else {
        level_sum(tiles.drop_last(), kind) + tile_level(tiles.last(), kind)
    }
}

/// Number of road tiles among `tiles`.
pub open spec fn road_total(tiles: Seq<Tile>) -> int
    decreases tiles.len(),
{
    if tiles.len() == 0 {
        0
    } else {
        road_total(tiles.drop_last()) + (if tiles.last() is Road { 1int } else { 0int })
    }
}

/// People housed by `tiles`.
pub open spec fn population_of(tiles: Seq<Tile>) -> int {
    level_sum(tiles, ZoneKind::Residential) * POP_PER_LEVEL
}

/// Jobs offered by the commercial zones of `tiles`.
pub open spec fn commercial_jobs_of(tiles: Seq<Tile>) -> int {
    level_sum(tiles, ZoneKind::Commercial) * C_JOBS_PER_LEVEL
}

/// Jobs offered by the industrial zones of `tiles`.
pub open spec fn industrial_jobs_of(tiles: Seq<Tile>) -> int {
    level_sum(tiles, ZoneKind::Industrial) * I_JOBS_PER_LEVEL
}

/// Jobs offered by `tiles`.
pub open spec fn jobs_of(tiles: Seq<Tile>) -> int {
    commercial_jobs_of(tiles) + industrial_jobs_of(tiles)
}

/// Residential demand of a city with these tiles.
pub open spec fn residential_demand_of(tiles: Seq<Tile>) -> Demand {
    squashed(raw_residential(population_of(tiles), commercial_jobs_of(tiles), industrial_jobs_of(tiles)))
}

/// Commercial demand of a city with these tiles.
pub open spec fn commercial_demand_of(tiles: Seq<Tile>) -> Demand {
    squashed(raw_commercial(population_of(tiles), commercial_jobs_of(tiles)))
}

/// Industrial demand of a city with these tiles.
pub open spec fn industrial_demand_of(tiles: Seq<Tile>) -> Demand {
    squashed(raw_industrial(population_of(tiles), commercial_jobs_of(tiles), industrial_jobs_of(tiles)))
}

/// `cell(x, y)` can be computed in `i32` without overflow.
pub open spec fn index_fits(x: int, y: int) -> bool {
    &&& i32::MIN <= y * GRID_W <= i32::MAX
    &&& i32::MIN <= cell(x, y) <= i32::MAX
}

/// Road at (rx, ry) that lies within reach of (px, py).
pub open spec fn reaches(tiles: Seq<Tile>, rx: int, ry: int, px: int, py: int) -> bool {
    &&& on_grid(rx, ry)
    &&& on_grid(px, py)
    &&& -ROAD_REACH <= px - rx <= ROAD_REACH
    &&& -ROAD_REACH <= py - ry <= ROAD_REACH
    &&& tiles[cell(rx, ry)] is Road
}

/// A road lies within Chebyshev distance `ROAD_REACH` of (px, py).
pub open spec fn near_road(tiles: Seq<Tile>, px: int, py: int) -> bool {
    exists|rx: int, ry: int| #[trigger] reaches(tiles, rx, ry, px, py)
}

/// `access` is the road access of every cell of the grid under `tiles`.
pub open spec fn access_matches(tiles: Seq<Tile>, access: Seq<bool>) -> bool {
    &&& access.len() == GRID_CELLS
    &&& forall|x: int, y: int| on_grid(x, y) ==> #[trigger] access[cell(x, y)] == near_road(tiles, x, y)
}


/// (rx, ry) comes before (cx, cy) in row-major order.
pub open spec fn scanned_before(rx: int, ry: int, cx: int, cy: int) -> bool {
    ry < cy || (ry == cy && rx < cx)
}

/// A road scanned before (cx, cy) lies within reach of (px, py).
pub open spec fn covered(tiles: Seq<Tile>, cx: int, cy: int, px: int, py: int) -> bool {
    exists|rx: int, ry: int| scanned_before(rx, ry, cx, cy) && #[trigger] reaches(tiles, rx, ry, px, py)
}

proof fn lemma_covered_step(tiles: Seq<Tile>, x: int, y: int, px: int, py: int)
    ensures
        covered(tiles, x + 1, y, px, py) == (covered(tiles, x, y, px, py) || reaches(tiles, x, y, px, py)),
{
    if covered(tiles, x + 1, y, px, py) {
        let (rx, ry) = choose|rx: int, ry: int| scanned_before(rx, ry, x + 1, y) && #[trigger] reaches(tiles, rx, ry, px, py);
        if !(rx == x && ry == y) {
            assert(scanned_before(rx, ry, x, y));
        }
    }
    if covered(tiles, x, y, px, py) {
        let (rx, ry) = choose|rx: int, ry: int| scanned_before(rx, ry, x, y) && #[trigger] reaches(tiles, rx, ry, px, py);
        assert(scanned_before(rx, ry, x + 1, y));
    }
    if reaches(tiles, x, y, px, py) {
        assert(scanned_before(x, y, x + 1, y));
    }
}

proof fn lemma_covered_row(tiles: Seq<Tile>, y: int, px: int, py: int)
    ensures
        covered(tiles, GRID_W as int, y, px, py) == covered(tiles, 0, y + 1, px, py),
{
    if covered(tiles, GRID_W as int, y, px, py) {
        let (rx, ry) = choose|rx: int, ry: int| scanned_before(rx, ry, GRID_W as int, y) && #[trigger] reaches(tiles, rx, ry, px, py);
        assert(scanned_before(rx, ry, 0, y + 1));
    }
    if covered(tiles, 0, y + 1, px, py) {
        let (rx, ry) = choose|rx: int, ry: int| scanned_before(rx, ry, 0, y + 1) && #[trigger] reaches(tiles, rx, ry, px, py);
        assert(scanned_before(rx, ry, GRID_W as int, y));
    }
}

proof fn lemma_covered_end(tiles: Seq<Tile>, px: int, py: int)
    ensures
        covered(tiles, 0, GRID_H as int, px, py) == near_road(tiles, px, py),
{
    if near_road(tiles, px, py) {
        let (rx, ry) = choose|rx: int, ry: int| #[trigger] reaches(tiles, rx, ry, px, py);
        assert(scanned_before(rx, ry, 0, GRID_H as int));
    }
}

/// Marks every on-grid cell within reach of the road at (x, y).
fn mark_around(access: &mut Vec<bool>, tiles: &Vec<Tile>, x: i32, y: i32)
    requires
        old(access)@.len() == GRID_CELLS,
        tiles@.len() == GRID_CELLS,
        on_grid(x as int, y as int),
        tiles@[cell(x as int, y as int)] is Road,
    ensures
        final(access)@.len() == GRID_CELLS,
        forall|px: int, py: int|
            on_grid(px, py) ==> #[trigger] final(access)@[cell(px, py)] == (old(access)@[cell(px, py)]
                || reaches(tiles@, x as int, y as int, px, py)),
{
    let ghost a0 = access@;
    let mut dy: i32 = -ROAD_REACH;
    while dy <= ROAD_REACH
        invariant
            -ROAD_REACH <= dy <= ROAD_REACH + 1,
            access@.len() == GRID_CELLS,
            tiles@.len() == GRID_CELLS,
            on_grid(x as int, y as int),
            tiles@[cell(x as int, y as int)] is Road,
            forall|px: int, py: int|
                on_grid(px, py) ==> #[trigger] access@[cell(px, py)] == (a0[cell(px, py)]
                    || (reaches(tiles@, x as int, y as int, px, py) && py - y < dy)),
        decreases ROAD_REACH + 1 - dy,
    {
        let mut dx: i32 = -ROAD_REACH;
        while dx <= ROAD_REACH
            invariant
                -ROAD_REACH <= dx <= ROAD_REACH + 1,
                -ROAD_REACH <= dy <= ROAD_REACH,
                access@.len() == GRID_CELLS,
                tiles@.len() == GRID_CELLS,
                on_grid(x as int, y as int),
                tiles@[cell(x as int, y as int)] is Road,
                forall|px: int, py: int|
                    on_grid(px, py) ==> #[trigger] access@[cell(px, py)] == (a0[cell(px, py)]
                        || (reaches(tiles@, x as int, y as int, px, py)
                            && (py - y < dy || (py - y == dy && px - x < dx)))),
            decreases ROAD_REACH + 1 - dx,
        {
            let nx = x + dx;
            let ny = y + dy;
            if City::in_bounds(nx, ny) {
                let i = City::idx(nx, ny);
                access[i] = true;
            }
            dx += 1;
        }
        dy += 1;
    }
}

proof fn lemma_level_sum_bounds(tiles: Seq<Tile>)
    ensures
        0 <= level_sum(tiles, ZoneKind::Residential),
        0 <= level_sum(tiles, ZoneKind::Commercial),
        0 <= level_sum(tiles, ZoneKind::Industrial),
        level_sum(tiles, ZoneKind::Residential) + level_sum(tiles, ZoneKind::Commercial)
            + level_sum(tiles, ZoneKind::Industrial) <= 255 * tiles.len(),
    decreases tiles.len(),
{
    if tiles.len() > 0 {
        lemma_level_sum_bounds(tiles.drop_last());
    }
}

/// The statistics of a grid of `GRID_CELLS` tiles keep raw demand in range.
pub proof fn lemma_stats_in_range(tiles: Seq<Tile>)
    requires
        tiles.len() == GRID_CELLS,
    ensures
        0 <= population_of(tiles) <= u32::MAX,
        0 <= commercial_jobs_of(tiles) <= u32::MAX,
        0 <= industrial_jobs_of(tiles) <= u32::MAX,
        raw_in_range(raw_residential(population_of(tiles), commercial_jobs_of(tiles), industrial_jobs_of(tiles))),
        raw_in_range(raw_commercial(population_of(tiles), commercial_jobs_of(tiles))),
        raw_in_range(raw_industrial(population_of(tiles), commercial_jobs_of(tiles), industrial_jobs_of(tiles))),
{
    lemma_level_sum_bounds(tiles);
}

proof fn lemma_road_total_bounds(tiles: Seq<Tile>)
    ensures
        0 <= road_total(tiles) <= tiles.len(),
    decreases tiles.len(),
{
    if tiles.len() > 0 {
        lemma_road_total_bounds(tiles.drop_last());
    }
}

/// Every tile is grass.
pub open spec fn all_grass(tiles: Seq<Tile>) -> bool {
    forall|i: int| 0 <= i < tiles.len() ==> #[trigger] tiles[i] == Tile::Grass
}

proof fn lemma_all_grass_empty(tiles: Seq<Tile>)
    requires
        all_grass(tiles),
    ensures
        level_sum(tiles, ZoneKind::Residential) == 0,
        level_sum(tiles, ZoneKind::Commercial) == 0,
        level_sum(tiles, ZoneKind::Industrial) == 0,
        road_total(tiles) == 0,
    decreases tiles.len(),
{
    if tiles.len() > 0 {
        assert(tiles.last() == tiles[tiles.len() - 1]);
        lemma_all_grass_empty(tiles.drop_last());
    }
}

proof fn lemma_all_grass_no_access(tiles: Seq<Tile>)
    requires
        all_grass(tiles),
        tiles.len() == GRID_CELLS,
    ensures
        forall|px: int, py: int| !#[trigger] near_road(tiles, px, py),
{
    assert forall|px: int, py: int| !#[trigger] near_road(tiles, px, py) by {
        if near_road(tiles, px, py) {
            let (rx, ry) = choose|rx: int, ry: int| #[trigger] reaches(tiles, rx, ry, px, py);
            assert(tiles[cell(rx, ry)] == Tile::Grass);
        }
    }
}

/// Tax income of one tick, in cents: developed zones pay tax, roads cost upkeep.
pub open spec fn tax_income(tiles: Seq<Tile>) -> int {
    TAX_PER_LEVEL * (level_sum(tiles, ZoneKind::Residential) + level_sum(tiles, ZoneKind::Commercial)
        + level_sum(tiles, ZoneKind::Industrial)) - UPKEEP_PER_ROAD * road_total(tiles)
}

/// `funds + income`, held at the bounds of `i64`.
pub open spec fn add_clamped(funds: i64, income: int) -> i64 {
    if funds + income > i64::MAX {
        i64::MAX
    } else if funds + income < i64::MIN {
        i64::MIN
    } else {
        (funds + income) as i64
    }
}

/// The demand for `kind` among the three demands.
pub open spec fn kind_demand(kind: ZoneKind, r: Demand, c: Demand, i: Demand) -> Demand {
    match kind {
        ZoneKind::Residential => r,
        ZoneKind::Commercial => c,
        ZoneKind::Industrial => i,
    }
}

/// `after` is what one tick's development makes of `before`: a zone keeps
/// its kind and takes the level that some roll gives under its road access
/// and the demand for its kind; any other tile stays as it is.
pub open spec fn develops_into(before: Tile, after: Tile, has_access: bool, r: Demand, c: Demand, i: Demand) -> bool {
    match before {
        Tile::Zone { kind, level } => exists|roll: int|
            0 <= roll < ROLL_RANGE && after == (Tile::Zone {
                kind,
                level: #[trigger] next_level(level, has_access, kind_demand(kind, r, c, i), roll),
            }),
        _ => after == before,
    }
}

/// The tile that one tick's development makes of `before` under `roll`:
/// a zone keeps its kind and takes the level that the roll gives under its
/// road access and the demand for its kind; any other tile stays.
pub open spec fn developed_tile(before: Tile, has_access: bool, r: Demand, c: Demand, i: Demand, roll: int) -> Tile {
    match before {
        Tile::Zone { kind, level } => Tile::Zone {
            kind,
            level: next_level(level, has_access, kind_demand(kind, r, c, i), roll),
        },
        _ => before,
    }
}

proof fn lemma_same_roads_same_access(t0: Seq<Tile>, t1: Seq<Tile>)
    requires
        t0.len() == GRID_CELLS,
        t0.len() == t1.len(),
        forall|j: int| 0 <= j < t0.len() ==> (#[trigger] t0[j] is Road) == (t1[j] is Road),
    ensures
        forall|px: int, py: int| #[trigger] near_road(t0, px, py) == near_road(t1, px, py),
{
    assert forall|px: int, py: int| #[trigger] near_road(t0, px, py) == near_road(t1, px, py) by {
        if near_road(t0, px, py) {
            let (rx, ry) = choose|rx: int, ry: int| #[trigger] reaches(t0, rx, ry, px, py);
            assert(t0[cell(rx, ry)] is Road);
            assert(reaches(t1, rx, ry, px, py));
        }
        if near_road(t1, px, py) {
            let (rx, ry) = choose|rx: int, ry: int| #[trigger] reaches(t1, rx, ry, px, py);
            assert(t1[cell(rx, ry)] is Road);
            assert(reaches(t0, rx, ry, px, py));
        }
    }
}

impl City {
    /// The grid and the access cache have one entry per cell.
    pub open spec fn wf(&self) -> bool {
        &&& self.tiles@.len() == GRID_CELLS
        &&& self.road_access@.len() == GRID_CELLS
    }

    /// The road access cache agrees with the tiles.
    pub open spec fn access_fresh(&self) -> bool {
        access_matches(self.tiles@, self.road_access@)
    }

    /// Population and jobs agree with the tiles.
    pub open spec fn stats_fresh(&self) -> bool {
        &&& self.population == population_of(self.tiles@)
        &&& self.jobs == jobs_of(self.tiles@)
    }

    /// The three demands agree with the tiles.
    pub open spec fn demand_fresh(&self) -> bool {
        &&& self.demand_r == residential_demand_of(self.tiles@)
        &&& self.demand_c == commercial_demand_of(self.tiles@)
        &&& self.demand_i == industrial_demand_of(self.tiles@)
    }

    /// The demand for one zone kind.
    pub open spec fn spec_demand_for(&self, kind: ZoneKind) -> Demand {
        match kind {
            ZoneKind::Residential => self.demand_r,
            ZoneKind::Commercial => self.demand_c,
            ZoneKind::Industrial => self.demand_i,
        }
    }

    /// An empty city: all grass, no access anywhere, starting funds, and
    /// the demand of a city with nobody and no jobs.
    pub fn new() -> (city: City)
        ensures
            city.wf(),
            all_grass(city.tiles@),
            forall|i: int| 0 <= i < GRID_CELLS ==> !#[trigger] city.road_access@[i],
            city.access_fresh(),
            city.funds == STARTING_FUNDS,
            city.population == 0,
            city.jobs == 0,
            city.stats_fresh(),
            city.demand_fresh(),
            city.demand_r == squashed(120),
            city.demand_c == squashed(40),
            city.demand_i == squashed(40),
    {
        let n = (GRID_W * GRID_H) as usize;
        let tiles = vec![Tile::Grass; n];
        let road_access = vec![false; n];
        let mut city = City {
            tiles,
            road_access,
            funds: STARTING_FUNDS,
            population: 0,
            jobs: 0,
            demand_r: Demand { num: 0, den: 1 },
            demand_c: Demand { num: 0, den: 1 },
            demand_i: Demand { num: 0, den: 1 },
        };
        proof {
            lemma_all_grass_empty(city.tiles@);
            lemma_all_grass_no_access(city.tiles@);
        }
        city.update_demand();
        city
    }

    /// The row-major index of (x, y), computed in `i32`.
    pub fn idx(x: i32, y: i32) -> (i: usize)
        requires
            index_fits(x as int, y as int),
        ensures
            i == (cell(x as int, y as int) as i32) as usize,
            0 <= cell(x as int, y as int) ==> i == cell(x as int, y as int),
    {
        (y * GRID_W + x) as usize
    }

    /// Whether (x, y) lies on the grid.
    pub fn in_bounds(x: i32, y: i32) -> (b: bool)
        ensures
            b == on_grid(x as int, y as int),
    {
        0 <= x && x < GRID_W && 0 <= y && y < GRID_H
    }

    /// Whether (x, y) is on the grid and holds a road.
    pub fn road_at(&self, x: i32, y: i32) -> (b: bool)
        requires
            self.wf(),
        ensures
            b == (on_grid(x as int, y as int) && self.tiles@[cell(x as int, y as int)] is Road),
    {
        Self::in_bounds(x, y) && self.tile(x, y) == Tile::Road
    }

    /// The tile at (x, y).
    pub fn tile(&self, x: i32, y: i32) -> (t: Tile)
        requires
            index_fits(x as int, y as int),
            0 <= cell(x as int, y as int) < self.tiles@.len(),
        ensures
            t == self.tiles@[cell(x as int, y as int)],
    {
        self.tiles[Self::idx(x, y)]
    }

    /// Mark every cell within ROAD_REACH of a road.
    pub fn refresh_road_access(&mut self)
        requires
            old(self).wf(),
        ensures
            final(self).wf(),
            final(self).access_fresh(),
            final(self).tiles@ == old(self).tiles@,
            final(self).funds == old(self).funds,
            final(self).population == old(self).population,
            final(self).jobs == old(self).jobs,
            final(self).demand_r == old(self).demand_r,
            final(self).demand_c == old(self).demand_c,
            final(self).demand_i == old(self).demand_i,
    {
        let mut i: usize = 0;
        while i < self.road_access.len()
            invariant
                self.wf(),
                self.tiles@ == old(self).tiles@,
                self.funds == old(self).funds,
                self.population == old(self).population,
                self.jobs == old(self).jobs,
                self.demand_r == old(self).demand_r,
                self.demand_c == old(self).demand_c,
                self.demand_i == old(self).demand_i,
                forall|j: int| 0 <= j < i ==> !#[trigger] self.road_access@[j],
            decreases self.road_access@.len() - i,
        {
            self.road_access[i] = false;
            i += 1;
        }
        let mut y: i32 = 0;
        while y < GRID_H
            invariant
                0 <= y <= GRID_H,
                self.wf(),
                self.tiles@ == old(self).tiles@,
                self.funds == old(self).funds,
                self.population == old(self).population,
                self.jobs == old(self).jobs,
                self.demand_r == old(self).demand_r,
                self.demand_c == old(self).demand_c,
                self.demand_i == old(self).demand_i,
                forall|px: int, py: int|
                    on_grid(px, py) ==> #[trigger] self.road_access@[cell(px, py)] == covered(self.tiles@, 0, y as int, px, py),
            decreases GRID_H - y,
        {
            let mut x: i32 = 0;
            while x < GRID_W
                invariant
                    0 <= x <= GRID_W,
                    0 <= y < GRID_H,
                    self.wf(),
                    self.tiles@ == old(self).tiles@,
                    self.funds == old(self).funds,
                    self.population == old(self).population,
                    self.jobs == old(self).jobs,
                    self.demand_r == old(self).demand_r,
                    self.demand_c == old(self).demand_c,
                    self.demand_i == old(self).demand_i,
                    forall|px: int, py: int|
                        on_grid(px, py) ==> #[trigger] self.road_access@[cell(px, py)] == covered(self.tiles@, x as int, y as int, px, py),
                decreases GRID_W - x,
            {
                let ghost before = self.road_access@;
                let is_road = self.tiles[Self::idx(x, y)] == Tile::Road;
                if is_road {
                    mark_around(&mut self.road_access, &self.tiles, x, y);
                }
                proof {
                    assert forall|px: int, py: int| on_grid(px, py) implies #[trigger] self.road_access@[cell(px, py)]
                        == covered(self.tiles@, x + 1, y as int, px, py) by {
                        lemma_covered_step(self.tiles@, x as int, y as int, px, py);
                        assert(before[cell(px, py)] == covered(self.tiles@, x as int, y as int, px, py));
                    }
                }
                x += 1;
            }
            proof {
                assert forall|px: int, py: int| on_grid(px, py) implies #[trigger] self.road_access@[cell(px, py)]
                    == covered(self.tiles@, 0, y + 1, px, py) by {
                    lemma_covered_row(self.tiles@, y as int, px, py);
                }
            }
            y += 1;
        }
        proof {
            assert forall|px: int, py: int| on_grid(px, py) implies #[trigger] self.road_access@[cell(px, py)]
                == near_road(self.tiles@, px, py) by {
                lemma_covered_end(self.tiles@, px, py);
            }
        }
    }

    /// Sum of the levels of the zones of `kind`.
    fn zone_levels(&self, kind: ZoneKind) -> (total: u32)
        requires
            self.wf(),
        ensures
            total == level_sum(self.tiles@, kind),
    {
        let mut total: u32 = 0;
        let mut i: usize = 0;
        while i < self.tiles.len()
            invariant
                self.wf(),
                0 <= i <= self.tiles@.len(),
                total == level_sum(self.tiles@.take(i as int), kind),
            decreases self.tiles@.len() - i,
        {
            proof {
                assert(self.tiles@.take(i + 1).drop_last() == self.tiles@.take(i as int));
                lemma_level_sum_bounds(self.tiles@.take(i + 1));
            }
            match self.tiles[i] {
                Tile::Zone { kind: k, level } => {
                    if k == kind {
                        total = total + level as u32;
                    }
                },
                _ => {},
            }
            i += 1;
        }
        proof {
            assert(self.tiles@.take(i as int) == self.tiles@);
        }
        total
    }

    /// Number of road tiles.
    fn road_count(&self) -> (n: u32)
        requires
            self.wf(),
        ensures
            n == road_total(self.tiles@),
    {
        let mut n: u32 = 0;
        let mut i: usize = 0;
        while i < self.tiles.len()
            invariant
                self.wf(),
                0 <= i <= self.tiles@.len(),
                n == road_total(self.tiles@.take(i as int)),
            decreases self.tiles@.len() - i,
        {
            proof {
                assert(self.tiles@.take(i + 1).drop_last() == self.tiles@.take(i as int));
                lemma_road_total_bounds(self.tiles@.take(i + 1));
            }
            if self.tiles[i] == Tile::Road {
                n = n + 1;
            }
            i += 1;
        }
        proof {
            assert(self.tiles@.take(i as int) == self.tiles@);
        }
        n
    }

    /// Population and jobs from the levels of the zones.
    pub fn recompute_stats(&mut self)
        requires
            old(self).wf(),
        ensures
            final(self).wf(),
            final(self).stats_fresh(),
            final(self).tiles@ == old(self).tiles@,
            final(self).road_access@ == old(self).road_access@,
            final(self).funds == old(self).funds,
            final(self).demand_r == old(self).demand_r,
            final(self).demand_c == old(self).demand_c,
            final(self).demand_i == old(self).demand_i,
    {
        proof {
            lemma_level_sum_bounds(self.tiles@);
        }
        self.population = self.zone_levels(ZoneKind::Residential) * POP_PER_LEVEL;
        self.jobs = self.zone_levels(ZoneKind::Commercial) * C_JOBS_PER_LEVEL
            + self.zone_levels(ZoneKind::Industrial) * I_JOBS_PER_LEVEL;
    }

    /// RCI feedback loop. Squashed into -1..1; small positive constants keep a
    /// young city growing, supply overshoot pushes demand negative.
    pub fn update_demand(&mut self)
        requires
            old(self).wf(),
        ensures
            final(self).wf(),
            final(self).stats_fresh(),
            final(self).demand_fresh(),
            final(self).demand_r.wf(),
            final(self).demand_c.wf(),
            final(self).demand_i.wf(),
            final(self).tiles@ == old(self).tiles@,
            final(self).road_access@ == old(self).road_access@,
            final(self).funds == old(self).funds,
    {
        self.recompute_stats();
        proof {
            lemma_level_sum_bounds(self.tiles@);
        }
        let pop = self.population;
        let c_jobs = self.zone_levels(ZoneKind::Commercial) * C_JOBS_PER_LEVEL;
        let i_jobs = self.zone_levels(ZoneKind::Industrial) * I_JOBS_PER_LEVEL;
        let (raw_r, raw_c, raw_i) = raw_demands(pop, c_jobs, i_jobs);
        self.demand_r = Demand::from_raw(raw_r);
        self.demand_c = Demand::from_raw(raw_c);
        self.demand_i = Demand::from_raw(raw_i);
    }

    /// The demand for one zone kind.
    fn demand_for(&self, kind: ZoneKind) -> (d: Demand)
        ensures
            d == self.spec_demand_for(kind),
    {
        match kind {
            ZoneKind::Residential => self.demand_r,
            ZoneKind::Commercial => self.demand_c,
            ZoneKind::Industrial => self.demand_i,
        }
    }

    /// Draws a roll for each tile, in grid order, from the global
    /// generator: one for each zone whose level can move this tick, none
    /// for any other tile (its entry is 0).
    fn draw_rolls(&self) -> (rolls: Vec<u32>)
        requires
            self.wf(),
        ensures
            rolls@.len() == GRID_CELLS,
            forall|j: int| 0 <= j < GRID_CELLS ==> #[trigger] rolls@[j] < ROLL_RANGE,
    {
        let mut rolls: Vec<u32> = Vec::new();
        let mut i: usize = 0;
        while i < self.tiles.len()
            invariant
                self.wf(),
                0 <= i <= GRID_CELLS,
                rolls@.len() == i,
                forall|j: int| 0 <= j < i ==> #[trigger] rolls@[j] < ROLL_RANGE,
            decreases GRID_CELLS - i,
        {
            let roll = match self.tiles[i] {
                Tile::Zone { kind, level } => {
                    if needs_roll(level, self.road_access[i], self.demand_for(kind)) {
                        draw_roll()
                    } else {
                        0
                    }
                },
                _ => 0,
            };
            rolls.push(roll);
            i += 1;
        }
        rolls
    }

    /// Develops the tile at `i` for one tick under `roll`.
    fn develop_tile(&mut self, i: usize, roll: u32)
        requires
            old(self).wf(),
            i < GRID_CELLS,
            old(self).demand_r.wf(),
            old(self).demand_c.wf(),
            old(self).demand_i.wf(),
        ensures
            final(self).wf(),
            final(self).tiles@ == old(self).tiles@.update(i as int, developed_tile(old(self).tiles@[i as int],
                old(self).road_access@[i as int], old(self).demand_r, old(self).demand_c, old(self).demand_i, roll as int)),
            final(self).road_access@ == old(self).road_access@,
            final(self).funds == old(self).funds,
            final(self).population == old(self).population,
            final(self).jobs == old(self).jobs,
            final(self).demand_r == old(self).demand_r,
            final(self).demand_c == old(self).demand_c,
            final(self).demand_i == old(self).demand_i,
    {
        let t = self.tiles[i];
        match t {
            Tile::Zone { kind, level } => {
                let d = self.demand_for(kind);
                let has_access = self.road_access[i];
                let new_level = level_after(level, has_access, d, roll);
                if new_level != level {
                    self.tiles[i] = Tile::Zone { kind, level: new_level };
                }
                assert(d == kind_demand(kind, self.demand_r, self.demand_c, self.demand_i));
            },
            _ => {},
        }
        assert(self.tiles@ =~= old(self).tiles@.update(i as int, developed_tile(old(self).tiles@[i as int],
            old(self).road_access@[i as int], old(self).demand_r, old(self).demand_c, old(self).demand_i, roll as int)));
    }

    /// Develops every zone for one tick, tile `j` under `rolls[j]`, with the
    /// current road access and demand; every other tile stays as it is.
    pub fn develop_zones(&mut self, rolls: &Vec<u32>)
        requires
            old(self).wf(),
            rolls@.len() == GRID_CELLS,
            old(self).demand_r.wf(),
            old(self).demand_c.wf(),
            old(self).demand_i.wf(),
        ensures
            final(self).wf(),
            forall|j: int| 0 <= j < GRID_CELLS ==> #[trigger] final(self).tiles@[j] == developed_tile(old(self).tiles@[j],
                old(self).road_access@[j], old(self).demand_r, old(self).demand_c, old(self).demand_i, rolls@[j] as int),
            final(self).road_access@ == old(self).road_access@,
            final(self).funds == old(self).funds,
            final(self).population == old(self).population,
            final(self).jobs == old(self).jobs,
            final(self).demand_r == old(self).demand_r,
            final(self).demand_c == old(self).demand_c,
            final(self).demand_i == old(self).demand_i,
    {
        let ghost t0 = self.tiles@;
        let mut i: usize = 0;
        while i < self.tiles.len()
            invariant
                self.wf(),
                t0 == old(self).tiles@,
                rolls@.len() == GRID_CELLS,
                self.road_access@ == old(self).road_access@,
                self.funds == old(self).funds,
                self.population == old(self).population,
                self.jobs == old(self).jobs,
                self.demand_r == old(self).demand_r,
                self.demand_c == old(self).demand_c,
                self.demand_i == old(self).demand_i,
                self.demand_r.wf(),
                self.demand_c.wf(),
                self.demand_i.wf(),
                0 <= i <= GRID_CELLS,
                forall|j: int| 0 <= j < i ==> #[trigger] self.tiles@[j] == developed_tile(t0[j], self.road_access@[j],
                    self.demand_r, self.demand_c, self.demand_i, rolls@[j] as int),
                forall|j: int| i <= j < GRID_CELLS ==> #[trigger] self.tiles@[j] == t0[j],
            decreases GRID_CELLS - i,
        {
            self.develop_tile(i, rolls[i]);
            i += 1;
        }
    }

    /// One fixed-interval simulation step: connectivity, demand, growth, taxes.
    pub fn tick(&mut self)
        requires
            old(self).wf(),
        ensures
            final(self).wf(),
            final(self).access_fresh(),
            final(self).stats_fresh(),
            final(self).demand_r == residential_demand_of(old(self).tiles@),
            final(self).demand_c == commercial_demand_of(old(self).tiles@),
            final(self).demand_i == industrial_demand_of(old(self).tiles@),
            forall|j: int| 0 <= j < GRID_CELLS ==> #[trigger] develops_into(old(self).tiles@[j], final(self).tiles@[j],
                final(self).road_access@[j], final(self).demand_r, final(self).demand_c, final(self).demand_i),
            final(self).funds == add_clamped(old(self).funds, tax_income(final(self).tiles@)),
    {
        self.refresh_road_access();
        self.update_demand();
        let ghost t0 = self.tiles@;
        let ghost a0 = self.road_access@;
        let rolls = self.draw_rolls();
        self.develop_zones(&rolls);
        proof {
            assert forall|j: int| 0 <= j < GRID_CELLS implies #[trigger] develops_into(t0[j], self.tiles@[j], a0[j],
                self.demand_r, self.demand_c, self.demand_i) by {
                assert(self.tiles@[j] == developed_tile(t0[j], a0[j], self.demand_r, self.demand_c, self.demand_i,
                    rolls@[j] as int));
                assert(rolls@[j] < ROLL_RANGE);
            }
        }
        proof {
            assert forall|j: int| 0 <= j < GRID_CELLS implies (#[trigger] t0[j] is Road) == (self.tiles@[j] is Road) by {
                assert(develops_into(t0[j], self.tiles@[j], a0[j], self.demand_r, self.demand_c, self.demand_i));
            }
            lemma_same_roads_same_access(t0, self.tiles@);
            lemma_level_sum_bounds(self.tiles@);
            lemma_road_total_bounds(self.tiles@);
        }
        let total = self.zone_levels(ZoneKind::Residential) + self.zone_levels(ZoneKind::Commercial)
            + self.zone_levels(ZoneKind::Industrial);
        let roads = self.road_count();
        let income: i64 = total as i64 * TAX_PER_LEVEL - roads as i64 * UPKEEP_PER_ROAD;
        let sum: i128 = self.funds as i128 + income as i128;
        self.funds = if sum > i64::MAX as i128 {
            i64::MAX
        } else if sum < i64::MIN as i128 {
            i64::MIN
        } else {
            sum as i64
        };
        self.recompute_stats();
    }
}

} // verus!
