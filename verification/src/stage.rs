//! The stage format: ASCII stage grids compiled into compressed binary
//! stages with palette and metatile headers.

pub mod serialize;
