//! Directions and constants shared by the maze generator.
use vstd::prelude::*;

verus! {

/// The four directions of a square grid.
#[derive(Clone, Copy, PartialEq, Eq, Structural, Debug)]
pub enum Direction {
    North,
    East,
    South,
    West,
}

/// The margin around the maze, in pixels.
pub const MARGIN: i32 = 10;

/// The colour of the cell the generator works on.
pub const CELL_ACTIVE_COLOR: u32 = 0xffffff00;

} // verus!
