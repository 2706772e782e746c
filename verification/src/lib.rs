//! Procedural generation of two-dimensional dungeon-like tile maps.
//!
//! Four interchangeable algorithms fill a shared wall/floor grid: cellular
//! automata smoothing, a binary-space-partition room layout, a drunkard's
//! walk carver, and diffusion-limited aggregation. A uniform builder
//! interface lets a driver rebuild or incrementally iterate any of them and
//! pull snapshots and statistics for display.

pub mod bsp;
pub mod builder;
pub mod cellular;
pub mod df_aggregation;
pub mod drunkard;
pub mod grid;
pub mod rect;
pub mod rng;
pub mod rooms;
pub mod text;
