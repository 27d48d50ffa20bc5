//! Grid coordinates and directions shared by the cell kinds, and the cell
//! interface.
use vstd::prelude::*;

pub mod cell_connection;
pub mod square_cell;
pub mod tri_cell;
pub mod circle_cell;
pub mod circle_grid;
pub mod square_grid;

verus! {

/// The position of a cell: column and row.
#[derive(Clone, Copy, Debug, PartialEq, Eq, Structural)]
pub struct CellCoord {
    pub x_pos: i32,
    pub y_pos: i32,
}

impl CellCoord {
    pub fn new(x: i32, y: i32) -> (c: CellCoord)
        ensures
            c == (CellCoord { x_pos: x, y_pos: y }),
    {
        CellCoord { x_pos: x, y_pos: y }
    }
}

/// The directions a passage can be carved in.
#[derive(Clone, Copy, PartialEq, Eq, Structural, Debug)]
pub enum Direction {
    North,
    NorthEast,
    NorthWest,
    East,
    South,
    SouthEast,
    SouthWest,
    West,
}

/// The kinds of grid.
#[derive(PartialEq, Eq, Structural, Debug, Copy, Clone)]
pub enum GridType {
    Square,
    Hex,
    Triangle,
}

/// A colour given as red, green, blue and alpha.
#[derive(Clone, Copy, Debug, PartialEq, Eq, Structural)]
pub struct Color {
    pub r: u8,
    pub g: u8,
    pub b: u8,
    pub a: u8,
}

/// The link to a neighbour as a sequence of at most one coordinate.
pub open spec fn link_seq(l: Option<CellCoord>) -> Seq<CellCoord> {
    match l {
        Some(c) => seq![c],
        None => Seq::empty(),
    }
}

/// What every kind of cell offers: its position, whether it is part of the
/// maze, its colour and distance, and the cells it is linked to.
pub trait Cell {
    fn get_coord(&self) -> CellCoord;

    fn is_part_of_maze(&self) -> bool;

    fn set_part_of_maze(&mut self, part: bool);

    fn set_color(&mut self, color: Option<Color>);

    fn get_distance(&self) -> i32;

    fn set_distance(&mut self, dist: i32);

    fn get_neighbours(&self) -> Vec<CellCoord>;
}

} // verus!
