//! The maze generator: square and hexagonal cells and grids, distances from
//! a start cell, and the growing-tree generator.
pub mod common;
pub mod cell;
pub mod canvas;
pub mod grid;
pub mod maze;
pub mod djikstra;
pub mod growing_tree;
pub mod app_state;
