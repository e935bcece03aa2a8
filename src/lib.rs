//! A network of curved track segments on an integer tile grid, the
//! placement rules that lay new segments toward a target tile, and the
//! motion of trains along the network.
//!
//! Positions on the grid are tiles; orientations are octants. Continuous
//! quantities (curve parameters, lengths, distances) are held as integers in
//! fixed units so that every rule here is exact.

pub mod utils;
pub mod track_types;
pub mod track_graph;
pub mod placement;
pub mod train;
pub mod placement_tool;
mod pathing;
mod random;
