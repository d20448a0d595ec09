//! A small city builder's simulation: a square grid of tiles, roads and
//! residential / commercial / industrial zones, a demand feedback loop that
//! drives growth and decay, and the funds that building and taxes move.
//!
//! Money is held in whole cents and demand as an exact fraction, so every
//! rule of the simulation is integer arithmetic.

pub mod city;
pub mod demand;
pub mod grid;
pub mod growth;
pub mod laws;
pub mod money;
pub mod tools;
