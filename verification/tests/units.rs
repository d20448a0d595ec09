use rust_sim_city::city::{City, BULLDOZE_COST, ROAD_COST, STARTING_FUNDS, ZONE_COST};
use rust_sim_city::demand::{raw_demands, Demand};
use rust_sim_city::grid::{Tile, Tool, ZoneKind, GRID_CELLS, MAX_LEVEL};
use rust_sim_city::growth::{draw_roll, level_after, needs_roll, ROLL_RANGE};
use rust_sim_city::money::format_money;
use rust_sim_city::tools::BuildError;

#[test]
fn new_city_is_empty_grass_with_starting_funds() {
    let city = City::new();
    assert_eq!(city.tiles.len(), GRID_CELLS);
    assert!(city.tiles.iter().all(|t| *t == Tile::Grass));
    assert!(city.road_access.iter().all(|b| !*b));
    assert_eq!(city.funds, STARTING_FUNDS);
    assert_eq!(city.population, 0);
    assert_eq!(city.jobs, 0);
    // A young city wants every kind: raw R = 6, C = I = 2, squashed by x / (|x| + 12).
    assert_eq!(city.demand_r, Demand { num: 120, den: 360 });
    assert_eq!(city.demand_c, Demand { num: 40, den: 280 });
    assert_eq!(city.demand_i, Demand { num: 40, den: 280 });
}

#[test]
fn idx_and_bounds() {
    assert_eq!(City::idx(0, 0), 0);
    assert_eq!(City::idx(5, 3), 197);
    assert_eq!(City::idx(63, 63), 4095);
    assert!(City::in_bounds(0, 0));
    assert!(City::in_bounds(63, 63));
    assert!(!City::in_bounds(64, 0));
    assert!(!City::in_bounds(0, -1));
    assert!(!City::in_bounds(-1, 3));
}

#[test]
fn road_access_reaches_three_tiles_in_every_direction() {
    let mut city = City::new();
    city.apply_tool(Tool::Road, 10, 10).unwrap();
    let access = |x: i32, y: i32| city.road_access[City::idx(x, y)];
    assert!(access(10, 10));
    assert!(access(7, 7));
    assert!(access(13, 13));
    assert!(access(13, 7));
    assert!(!access(14, 10));
    assert!(!access(10, 6));
    assert!(!access(6, 13));
    let count = city.road_access.iter().filter(|b| **b).count();
    assert_eq!(count, 49);
}

#[test]
fn road_access_is_clipped_at_the_grid_edge() {
    let mut city = City::new();
    city.apply_tool(Tool::Road, 0, 0).unwrap();
    let count = city.road_access.iter().filter(|b| **b).count();
    assert_eq!(count, 16);
    city.apply_tool(Tool::Bulldoze, 0, 0).unwrap();
    assert!(city.road_access.iter().all(|b| !*b));
}

#[test]
fn refresh_recomputes_a_stale_cache() {
    let mut city = City::new();
    city.tiles[City::idx(30, 30)] = Tile::Road;
    city.road_access[0] = true;
    city.refresh_road_access();
    assert!(!city.road_access[0]);
    assert!(city.road_access[City::idx(33, 27)]);
    assert_eq!(city.road_access.iter().filter(|b| **b).count(), 49);
}

#[test]
fn every_refusal_has_its_message() {
    let mut city = City::new();
    assert_eq!(city.apply_tool(Tool::Road, 64, 0), Err("out of bounds"));
    city.apply_tool(Tool::Road, 1, 1).unwrap();
    assert_eq!(city.apply_tool(Tool::Road, 1, 1), Err("roads need empty ground"));
    assert_eq!(city.apply_tool(Tool::Zone(ZoneKind::Industrial), 1, 1), Err("zones need empty ground"));
    assert_eq!(city.apply_tool(Tool::Bulldoze, 2, 2), Err("nothing to bulldoze"));
    city.funds = ZONE_COST - 1;
    assert_eq!(city.apply_tool(Tool::Zone(ZoneKind::Commercial), 2, 2), Err("not enough funds"));
    assert_eq!(BuildError::OutOfBounds.message(), "out of bounds");
    assert_eq!(BuildError::NotEnoughFunds.message(), "not enough funds");
}

#[test]
fn refused_builds_change_nothing() {
    let mut city = City::new();
    city.apply_tool(Tool::Road, 1, 1).unwrap();
    let tiles = city.tiles.clone();
    let access = city.road_access.clone();
    let funds = city.funds;
    assert!(city.apply_tool(Tool::Road, 1, 1).is_err());
    assert!(city.apply_tool(Tool::Bulldoze, 40, 40).is_err());
    assert!(city.apply_tool(Tool::Zone(ZoneKind::Residential), -5, 70).is_err());
    assert_eq!(city.tiles, tiles);
    assert_eq!(city.road_access, access);
    assert_eq!(city.funds, funds);
}

#[test]
fn exact_funds_suffice() {
    let mut city = City::new();
    city.funds = ROAD_COST;
    city.apply_tool(Tool::Road, 3, 3).unwrap();
    assert_eq!(city.funds, 0);
    city.funds = BULLDOZE_COST;
    city.apply_tool(Tool::Bulldoze, 3, 3).unwrap();
    assert_eq!(city.funds, 0);
}

#[test]
fn road_then_bulldoze_gives_the_grass_back() {
    let mut city = City::new();
    city.apply_tool(Tool::Road, 12, 40).unwrap();
    city.apply_tool(Tool::Bulldoze, 12, 40).unwrap();
    assert!(city.tiles.iter().all(|t| *t == Tile::Grass));
    assert!(city.road_access.iter().all(|b| !*b));
    assert_eq!(city.funds, STARTING_FUNDS - ROAD_COST - BULLDOZE_COST);
}

#[test]
fn stats_count_levels() {
    let mut city = City::new();
    city.tiles[0] = Tile::Zone { kind: ZoneKind::Residential, level: 5 };
    city.tiles[1] = Tile::Zone { kind: ZoneKind::Residential, level: 2 };
    city.tiles[2] = Tile::Zone { kind: ZoneKind::Commercial, level: 3 };
    city.tiles[3] = Tile::Zone { kind: ZoneKind::Industrial, level: 1 };
    city.recompute_stats();
    assert_eq!(city.population, 28);
    assert_eq!(city.jobs, 13);
}

#[test]
fn demand_follows_the_formulas() {
    let mut city = City::new();
    city.tiles[0] = Tile::Zone { kind: ZoneKind::Residential, level: 5 };
    city.update_demand();
    // pop 20, no jobs: raw R = -20 + 6, C = 7 + 2, I = 9 + 2 (in twentieths below).
    assert_eq!(city.population, 20);
    assert_eq!(city.demand_r, Demand { num: -280, den: 520 });
    assert_eq!(city.demand_c, Demand { num: 180, den: 420 });
    assert_eq!(city.demand_i, Demand { num: 220, den: 460 });
    assert!(city.demand_r.is_negative());
    assert!(!city.demand_r.is_positive());
}

#[test]
fn raw_demands_and_squashing() {
    assert_eq!(raw_demands(0, 0, 0), (120, 40, 40));
    assert_eq!(raw_demands(10, 6, 8), (200, -10, 6));
    assert_eq!(Demand::from_raw(-30), Demand { num: -30, den: 270 });
    assert_eq!(Demand::from_raw(0), Demand { num: 0, den: 240 });
    let hi = raw_demands(u32::MAX, u32::MAX, u32::MAX);
    assert_eq!(hi.1, 7 * (u32::MAX as i64) - 20 * (u32::MAX as i64) + 40);
}

#[test]
fn demand_stays_inside_the_unit_interval() {
    for v in [-1_000_000_000i64, -241, -1, 0, 1, 240, 1_000_000_000] {
        let d = Demand::from_raw(v);
        assert!(d.num.abs() < d.den);
        assert_eq!(d.num > 0, v > 0);
    }
}

#[test]
fn demand_order() {
    let a = Demand { num: 1, den: 3 };
    let b = Demand { num: 1, den: 2 };
    assert!(a.less_than(&b));
    assert!(!b.less_than(&a));
    assert!(!a.less_than(&a));
    // R falls as housing grows: pop 10 vs pop 30 with the same jobs.
    let (r10, _, _) = raw_demands(10, 3, 4);
    let (r30, _, _) = raw_demands(30, 3, 4);
    assert!(Demand::from_raw(r30).less_than(&Demand::from_raw(r10)));
}

#[test]
fn growth_decisions() {
    let pos = Demand { num: 1, den: 2 }; // 0.5
    let neg = Demand { num: -3, den: 4 }; // -0.75
    let mild = Demand { num: -1, den: 5 }; // -0.2
    // Growth chance 0.5 * 0.15 = 0.075 of ROLL_RANGE.
    assert_eq!(level_after(2, true, pos, 0), 3);
    assert_eq!(level_after(2, true, pos, 1_258_291), 3);
    assert_eq!(level_after(2, true, pos, 1_258_292), 2);
    assert_eq!(level_after(MAX_LEVEL, true, pos, 0), MAX_LEVEL);
    // Decay chance (0.75 - 0.25) * 0.2 = 0.1 of ROLL_RANGE.
    assert_eq!(level_after(2, true, neg, 0), 1);
    assert_eq!(level_after(2, true, neg, 1_677_721), 1);
    assert_eq!(level_after(2, true, neg, 1_677_722), 2);
    assert_eq!(level_after(0, true, neg, 0), 0);
    assert_eq!(level_after(3, true, mild, 0), 3);
    // Without road access: abandonment chance 0.1, never growth.
    assert_eq!(level_after(3, false, pos, 0), 2);
    assert_eq!(level_after(3, false, pos, 1_677_721), 2);
    assert_eq!(level_after(3, false, pos, 1_677_722), 3);
    assert_eq!(level_after(0, false, pos, 0), 0);
}

#[test]
fn roll_is_needed_only_when_the_level_can_move() {
    let pos = Demand { num: 1, den: 2 };
    let neg = Demand { num: -3, den: 4 };
    let mild = Demand { num: -1, den: 5 };
    assert!(needs_roll(0, true, pos));
    assert!(!needs_roll(MAX_LEVEL, true, pos));
    assert!(needs_roll(1, true, neg));
    assert!(!needs_roll(0, true, neg));
    assert!(!needs_roll(3, true, mild));
    assert!(needs_roll(1, false, pos));
    assert!(!needs_roll(0, false, pos));
}

#[test]
fn rolls_stay_in_range_and_vary() {
    let rolls: Vec<u32> = (0..1000).map(|_| draw_roll()).collect();
    assert!(rolls.iter().all(|r| *r < ROLL_RANGE));
    assert!(rolls.iter().any(|r| *r != rolls[0]));
    assert!(rolls.iter().any(|r| *r > ROLL_RANGE / 2));
}

#[test]
fn tick_taxes_levels_and_charges_road_upkeep() {
    let mut city = City::new();
    city.apply_tool(Tool::Road, 40, 40).unwrap();
    let before = city.funds;
    city.tick();
    assert_eq!(city.funds, before - 5);
    // Levels without access elsewhere pay 45 cents each while they last.
    let mut city = City::new();
    city.tiles[0] = Tile::Zone { kind: ZoneKind::Commercial, level: 0 };
    city.tick();
    assert_eq!(city.funds, STARTING_FUNDS);
    assert_eq!(city.tiles[0], Tile::Zone { kind: ZoneKind::Commercial, level: 0 });
}

#[test]
fn tick_funds_saturate_at_the_bound() {
    let mut city = City::new();
    city.tiles[0] = Tile::Zone { kind: ZoneKind::Residential, level: 5 };
    city.tiles[1] = Tile::Zone { kind: ZoneKind::Residential, level: 5 };
    city.funds = i64::MAX - 10;
    city.tick();
    assert_eq!(city.funds, i64::MAX);
}

#[test]
fn tick_keeps_kinds_and_moves_levels_by_one() {
    let mut city = City::new();
    for x in 0..30 {
        city.apply_tool(Tool::Road, x, 20).unwrap();
        city.apply_tool(Tool::Zone(ZoneKind::Residential), x, 21).unwrap();
        city.apply_tool(Tool::Zone(ZoneKind::Industrial), x, 19).unwrap();
    }
    for _ in 0..40 {
        let before = city.tiles.clone();
        city.tick();
        for (a, b) in before.iter().zip(city.tiles.iter()) {
            match (a, b) {
                (Tile::Zone { kind: k1, level: l1 }, Tile::Zone { kind: k2, level: l2 }) => {
                    assert_eq!(k1, k2);
                    assert!((*l1 as i32 - *l2 as i32).abs() <= 1);
                    assert!(*l2 <= MAX_LEVEL);
                }
                _ => assert_eq!(a, b),
            }
        }
    }
}

#[test]
fn format_money_groups_whole_dollars() {
    assert_eq!(format_money(0), "$0");
    assert_eq!(format_money(99), "$0");
    assert_eq!(format_money(-50), "-$0");
    assert_eq!(format_money(STARTING_FUNDS), "$5,000");
    assert_eq!(format_money(123_456), "$1,234");
    assert_eq!(format_money(-123_456_789), "-$1,234,567");
    assert_eq!(format_money(100_000_000), "$1,000,000");
    assert_eq!(format_money(100_005_000), "$1,000,050");
    assert_eq!(format_money(99_999), "$999");
    assert_eq!(format_money(i64::MIN), "-$92,233,720,368,547,758");
    assert_eq!(format_money(i64::MAX), "$92,233,720,368,547,758");
}

#[test]
fn stroke_fills_the_gaps_of_a_drag() {
    let mut city = City::new();
    let msg = city.paint_stroke(Tool::Road, Some((0, 0)), (3, 1), false);
    assert_eq!(msg, None);
    assert_eq!(city.tile(0, 0), Tile::Grass);
    assert_eq!(city.tile(1, 0), Tile::Road);
    assert_eq!(city.tile(2, 1), Tile::Road);
    assert_eq!(city.tile(3, 1), Tile::Road);
    assert_eq!(city.tiles.iter().filter(|t| **t == Tile::Road).count(), 3);
    assert_eq!(city.funds, STARTING_FUNDS - 3 * ROAD_COST);
}

#[test]
fn stroke_rounds_halves_away_from_zero() {
    let mut city = City::new();
    city.paint_stroke(Tool::Road, Some((0, 0)), (1, 2), false);
    assert_eq!(city.tile(1, 1), Tile::Road);
    assert_eq!(city.tile(1, 2), Tile::Road);
    assert_eq!(city.tiles.iter().filter(|t| **t == Tile::Road).count(), 2);
}

#[test]
fn stroke_without_previous_tile_paints_one() {
    let mut city = City::new();
    let msg = city.paint_stroke(Tool::Zone(ZoneKind::Commercial), None, (7, 8), true);
    assert_eq!(msg, None);
    assert_eq!(city.tile(7, 8), Tile::Zone { kind: ZoneKind::Commercial, level: 0 });
    assert_eq!(city.funds, STARTING_FUNDS - ZONE_COST);
}

#[test]
fn stroke_reports_refusals_on_first_click_and_lack_of_funds() {
    let mut city = City::new();
    assert_eq!(city.paint_stroke(Tool::Road, Some((0, 0)), (-1, -2), false), None);
    assert_eq!(city.paint_stroke(Tool::Road, Some((0, 0)), (-1, -2), true), Some("out of bounds"));
    city.funds = ROAD_COST;
    assert_eq!(city.paint_stroke(Tool::Road, Some((5, 5)), (7, 5), false), Some("not enough funds"));
    assert_eq!(city.tile(6, 5), Tile::Road);
    assert_eq!(city.tile(7, 5), Tile::Grass);
    assert_eq!(city.funds, 0);
}

#[test]
fn road_at_checks_bounds_and_kind() {
    let mut city = City::new();
    city.apply_tool(Tool::Road, 0, 0).unwrap();
    assert!(city.road_at(0, 0));
    assert!(!city.road_at(-1, 0));
    assert!(!city.road_at(1, 0));
}

#[test]
fn long_diagonal_stroke_is_connected() {
    let mut city = City::new();
    city.paint_stroke(Tool::Road, Some((0, 0)), (11, 22), false);
    let mut prev_x: i32 = 0;
    for y in 1..=22 {
        let xs: Vec<i32> = (0..64).filter(|x| city.tile(*x, y) == Tile::Road).collect();
        assert_eq!(xs.len(), 1);
        assert!((xs[0] - prev_x).abs() <= 1);
        prev_x = xs[0];
    }
    assert_eq!(prev_x, 11);
    // Step 13 lies exactly half-way, at x = 6.5, and rounds away from zero.
    assert_eq!(city.tile(7, 13), Tile::Road);
}

#[test]
fn develop_zones_follows_the_given_rolls() {
    let mut city = City::new();
    for x in 0..4 {
        city.apply_tool(Tool::Road, x, 10).unwrap();
        city.apply_tool(Tool::Zone(ZoneKind::Residential), x, 11).unwrap();
    }
    city.apply_tool(Tool::Zone(ZoneKind::Residential), 50, 50).unwrap();
    city.tiles[City::idx(40, 40)] = Tile::Zone { kind: ZoneKind::Commercial, level: 3 };
    city.update_demand();
    // Nine commercial jobs, nobody housed: demand_r = 300 / 540 = 5/9, so a
    // connected zone grows when the roll is below 5/9 * 0.15 of ROLL_RANGE.
    assert_eq!(city.demand_r, Demand { num: 300, den: 540 });
    let mut rolls = vec![ROLL_RANGE - 1; GRID_CELLS];
    rolls[City::idx(0, 11)] = 0;
    rolls[City::idx(1, 11)] = 1_398_101;
    rolls[City::idx(2, 11)] = 1_398_102;
    rolls[City::idx(50, 50)] = 0;
    rolls[City::idx(40, 40)] = 0;
    city.develop_zones(&rolls);
    assert_eq!(city.tile(0, 11), Tile::Zone { kind: ZoneKind::Residential, level: 1 });
    assert_eq!(city.tile(1, 11), Tile::Zone { kind: ZoneKind::Residential, level: 1 });
    assert_eq!(city.tile(2, 11), Tile::Zone { kind: ZoneKind::Residential, level: 0 });
    assert_eq!(city.tile(3, 11), Tile::Zone { kind: ZoneKind::Residential, level: 0 });
    // No road near: never grows, and a developed zone is abandoned by one level.
    assert_eq!(city.tile(50, 50), Tile::Zone { kind: ZoneKind::Residential, level: 0 });
    assert_eq!(city.tile(40, 40), Tile::Zone { kind: ZoneKind::Commercial, level: 2 });
    assert_eq!(city.tile(0, 10), Tile::Road);
    assert_eq!(city.funds, STARTING_FUNDS - 4 * ROAD_COST - 5 * ZONE_COST);
}

#[test]
fn from_raw_accepts_wide_values() {
    let v = i64::MAX - 240;
    assert_eq!(Demand::from_raw(v), Demand { num: v, den: i64::MAX });
    assert_eq!(Demand::from_raw(-v), Demand { num: -v, den: i64::MAX });
}
