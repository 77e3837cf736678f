//! A rail network on a grid: the graph of buildable directions, a best-first
//! search over it, the geometry of track pieces, and trains that run along
//! the pieces that have been laid.

pub mod grid;
pub mod path;
pub mod train;
