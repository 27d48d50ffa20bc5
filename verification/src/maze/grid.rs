//! Grid coordinates, the cell interface, and the hexagonal grid.
pub mod types;
pub mod hex_grid;
