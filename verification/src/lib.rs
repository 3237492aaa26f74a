//! A bounded (non-wrapping) Conway's Game of Life simulation core:
//! a fixed-size board of cells, 8-neighbor lookup, and the
//! generation-update rule, independent of any presentation layer.

pub mod board;
pub mod life;
