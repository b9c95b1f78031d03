//! Simulation core of a top-down shooter: exact fixed-point geometry, the
//! tile-wall catalog, the wall grid, bullets with swept collision and bounce,
//! a player with axis-separated wall correction, guns, lights and the
//! day/night cycle.
//!
//! Every quantity is an integer. Lengths are in thousandths of a world unit
//! (`geometry::UNIT` to the unit; a tile is 32 units), speeds in those
//! sub-units per second, times in microseconds, and shares (bounce
//! retention, colour channels) in per mille.
pub mod geometry;
pub mod tile;
pub mod world_map;
pub mod bullet;
pub mod world;
pub mod player;
pub mod map_text;
pub mod items;
pub mod lighting;
pub mod day_cycle;
