//! Tile-grid light propagation engine for a 2-D top-down game board.
//!
//! The board is a 3-D grid of tiles. Each tile carries collision and
//! occlusion flags, a temperature, and a light value. A one-time static bake
//! records per-tile lux, color, source id and wave-edge marks; the runtime
//! propagator applies the bake for the currently active sources, resumes the
//! wavefront past opened gates, floods fully dynamic sources, and derives the
//! global exposure from the average lux.
//!
//! All continuous quantities (lux, color channels, transmissivity,
//! temperatures, world coordinates) are fixed-point integers in milli-units:
//! the value 1000 stands for 1.0.

use vstd::prelude::*;

pub mod baker;
pub mod behavior;
pub mod board;
pub mod boarddata;
pub mod boardposition;
pub mod fielddata;
pub mod game;
pub mod gear;
pub mod grids;
pub mod lighting;
pub mod mainmenu;
pub mod manual;
pub mod position;
pub mod repellent;
pub mod summary;

verus! {

/// Number of fixed-point milli-units in one whole unit.
pub const MILLI: i64 = 1000;

} // verus!
