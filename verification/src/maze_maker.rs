//! The maze maker: square, triangle and circular cells, wall connections,
//! and the square and circular grids that mazes are carved in.
pub mod grids;
