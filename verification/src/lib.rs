//! A hierarchical sparse voxel volume: a coarse grid of subchunks, each a grid
//! of bricks, each a bitset of voxels, built from a table of column heights.

pub mod bitset;
pub mod brick;
pub mod builder;
pub mod config;
pub mod coord;
pub mod grid;
pub mod height;
pub mod laws;
pub mod mask;
pub mod slot;
pub mod sparse;
pub mod subchunk;
pub mod superchunk;
pub mod terrain;
