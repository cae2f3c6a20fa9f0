//! A small game-engine core: a generic 3-D tile grid, and voxel-grid
//! collision with swept-movement resolution over fixed-point coordinates.
//!
//! World coordinates are integers counting subunits; one voxel (one world
//! unit) is [`geom::SUB`] subunits.  All movement resolution is exact
//! integer arithmetic.

pub mod audio;
pub mod game;
pub mod geom;
pub mod graphics;
pub mod grid;
pub mod physics;
pub mod time;
pub mod world;
