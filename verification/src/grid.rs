//! Tiles, tools and the grid's geometry.

use vstd::prelude::*;

verus! {

/// Width of the grid in tiles.
pub const GRID_W: i32 = 64;

/// Height of the grid in tiles.
pub const GRID_H: i32 = 64;

/// Number of cells of the grid.
pub const GRID_CELLS: usize = 4096;

/// Max development level of a zone.
pub const MAX_LEVEL: u8 = 5;

/// A zone develops only if a road lies within this Chebyshev distance.
pub const ROAD_REACH: i32 = 3;

#[derive(Clone, Copy, PartialEq, Eq, Debug, Structural)]
pub enum ZoneKind {
    Residential,
    Commercial,
    Industrial,
}

#[derive(Clone, Copy, PartialEq, Eq, Debug, Structural)]
pub enum Tile {
    Grass,
    Road,
    Zone { kind: ZoneKind, level: u8 },
}

#[derive(Clone, Copy, PartialEq, Eq, Debug, Structural)]
pub enum Tool {
    Road,
    Bulldoze,
    Zone(ZoneKind),
}

/// Whether (x, y) lies on the grid.
pub open spec fn on_grid(x: int, y: int) -> bool {
    0 <= x < GRID_W && 0 <= y < GRID_H
}

/// The row-major index of (x, y).
pub open spec fn cell(x: int, y: int) -> int {
    y * GRID_W + x
}

} // verus!
