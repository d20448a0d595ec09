use rust_sim_city::city::{City, ROAD_COST, STARTING_FUNDS};
use rust_sim_city::grid::{Tile, Tool, ZoneKind};

/// Build a city with a horizontal road and a strip of zones beside it.
fn city_with_road_and_zones(kind: ZoneKind) -> City {
    let mut city = City::new();
    for x in 0..20 {
        city.apply_tool(Tool::Road, x, 10).unwrap();
    }
    for x in 0..20 {
        city.apply_tool(Tool::Zone(kind), x, 11).unwrap();
    }
    city
}

fn total_level(city: &City, kind: ZoneKind) -> u32 {
    city.tiles
        .iter()
        .filter_map(|t| match t {
            Tile::Zone { kind: k, level } if *k == kind => Some(*level as u32),
            _ => None,
        })
        .sum()
}

#[test]
fn connected_residential_develops_unconnected_stays_dirt() {
    let mut city = city_with_road_and_zones(ZoneKind::Residential);
    // A far-away zone with no road anywhere near it.
    city.apply_tool(Tool::Zone(ZoneKind::Residential), 50, 50).unwrap();
    for _ in 0..60 {
        city.tick();
    }
    assert!(
        total_level(&city, ZoneKind::Residential) > 0,
        "road-adjacent residential should develop under positive demand"
    );
    assert_eq!(
        city.tile(50, 50),
        Tile::Zone { kind: ZoneKind::Residential, level: 0 },
        "zone without road access must stay undeveloped"
    );
    assert!(city.population > 0);
}

#[test]
fn residential_demand_drops_when_housing_far_exceeds_jobs() {
    let mut city = city_with_road_and_zones(ZoneKind::Residential);
    let initial = city.demand_r;
    assert!(initial.is_positive(), "young city should want residents");
    for _ in 0..200 {
        city.tick();
    }
    assert!(
        city.demand_r.less_than(&initial),
        "housing with no jobs should push R demand down (was {:?}, now {:?})",
        initial,
        city.demand_r
    );
    assert!(city.demand_c.is_positive(), "population should create commercial demand");
    assert!(city.demand_i.is_positive(), "population should create industrial demand");
}

#[test]
fn bulldozing_road_causes_abandonment() {
    let mut city = city_with_road_and_zones(ZoneKind::Residential);
    for _ in 0..60 {
        city.tick();
    }
    assert!(total_level(&city, ZoneKind::Residential) > 0);
    for x in 0..20 {
        city.apply_tool(Tool::Bulldoze, x, 10).unwrap();
    }
    for _ in 0..300 {
        city.tick();
    }
    assert_eq!(
        total_level(&city, ZoneKind::Residential),
        0,
        "zones that lost road access should decay back to dirt"
    );
}

#[test]
fn mixed_city_grows_and_earns_net_tax_income() {
    // Road row with residential on one side, commercial + industrial on
    // the other: the full feedback loop (jobs <-> population).
    let mut city = City::new();
    for x in 0..20 {
        city.apply_tool(Tool::Road, x, 10).unwrap();
        city.apply_tool(Tool::Zone(ZoneKind::Residential), x, 11).unwrap();
        let kind = if x < 10 { ZoneKind::Commercial } else { ZoneKind::Industrial };
        city.apply_tool(Tool::Zone(kind), x, 9).unwrap();
    }
    for _ in 0..100 {
        city.tick();
    }
    assert!(city.population > 50, "mixed city should grow (pop {})", city.population);
    assert!(city.jobs > 50, "mixed city should create jobs (jobs {})", city.jobs);
    let funds_before = city.funds;
    for _ in 0..50 {
        city.tick();
    }
    assert!(
        city.funds > funds_before,
        "developed city should earn net tax income ({funds_before} -> {})",
        city.funds
    );
}

#[test]
fn build_costs_charged_and_invalid_builds_rejected() {
    let mut city = City::new();
    assert_eq!(city.funds, STARTING_FUNDS);
    city.apply_tool(Tool::Road, 5, 5).unwrap();
    assert_eq!(city.funds, STARTING_FUNDS - ROAD_COST);
    assert!(city.apply_tool(Tool::Road, 5, 5).is_err(), "no double-build");
    assert!(
        city.apply_tool(Tool::Zone(ZoneKind::Commercial), 5, 5).is_err(),
        "zones only on grass"
    );
    city.apply_tool(Tool::Bulldoze, 5, 5).unwrap();
    assert_eq!(city.tile(5, 5), Tile::Grass);
    assert!(city.apply_tool(Tool::Bulldoze, 5, 5).is_err());
    assert!(city.apply_tool(Tool::Road, -1, 3).is_err());

    // One dollar, in cents.
    city.funds = 100;
    assert_eq!(city.apply_tool(Tool::Road, 6, 6), Err("not enough funds"));
    assert_eq!(city.tile(6, 6), Tile::Grass);
}
