//! Tools for building assets for a fixed tile-based pixel processor: a sprite
//! sheet compiler that packs 8x8 tiles of 2-bit pixels into planar pattern
//! tables, and a stage compiler that turns ASCII stage grids into run-length
//! encoded binaries with palette and metatile headers.

pub mod sprites;
pub mod stage;
