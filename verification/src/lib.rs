//! Line-of-sight visibility over a binary occupancy grid.
//!
//! A raster image is reduced to a grid of passable and blocked cells; for each
//! query cell the library lists the candidate cells that an unobstructed
//! rasterized straight segment connects to it.

pub mod args;
pub mod builder;
pub mod bundle;
pub mod error;
pub mod grid;
pub mod keys;
pub mod line;
pub mod sight;
pub mod visibility;
