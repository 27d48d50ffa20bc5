//! The coordinates and the cell interface of the hexagonal grid.
use vstd::prelude::*;

verus! {

/// The position of a cell: column and row.
#[derive(Clone, Copy, Debug)]
pub struct CellCoord {
    pub x_pos: i32,
    pub y_pos: i32,
}

impl CellCoord {
    pub fn new(x: i32, y: i32) -> (c: CellCoord)
        ensures
            c == (CellCoord { x_pos: x, y_pos: y }),
    {
        CellCoord { x_pos: x, y_pos: y }
    }
}

/// What every kind of cell offers: its position, whether it is part of the
/// maze, its colour and distance, and the cells it is linked to.
pub trait Cell {
    fn get_coord(&self) -> CellCoord;

    fn is_part_of_maze(&self) -> bool;

    fn set_part_of_maze(&mut self, part: bool);

    fn set_color(&mut self, color: Option<u32>);

    fn get_distance(&self) -> i32;

    fn set_distance(&mut self, dist: i32);

    fn get_neighbours(&self) -> Vec<CellCoord>;
}

} // verus!
