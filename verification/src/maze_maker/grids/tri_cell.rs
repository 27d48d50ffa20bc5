//! A triangle cell: links through its two slanted sides and its base.
use vstd::prelude::*;
use crate::maze_maker::grids::{Cell, CellCoord, Color, link_seq};

verus! {

/// A triangle cell: the links through its sides (`None` is a wall; the base
/// is linked through `top` or `bottom`), its position, whether it is part of the maze, its colour and its distance
/// from the start (`-1` where unknown).
#[derive(Clone, Copy, Debug)]
pub struct TriangleCell {
    pub left: Option<CellCoord>,
    pub right: Option<CellCoord>,
    pub top: Option<CellCoord>,
    pub bottom: Option<CellCoord>,
    pub coord: CellCoord,
    pub part_of_maze: bool,
    pub color: Option<Color>,
    pub distance: i32,
}

impl TriangleCell {
    /// The cells linked to, in the order top, bottom, left, right.
    pub open spec fn neighbours(self) -> Seq<CellCoord> {
        link_seq(self.top) + link_seq(self.bottom) + link_seq(self.left) + link_seq(self.right)
    }

    /// A walled cell at `(x, y)`, not part of the maze, with no colour and
    /// no distance.
    pub fn default(x: i32, y: i32) -> (c: TriangleCell)
        ensures
            c == (TriangleCell {
                bottom: None,
                left: None,
                top: None,
                right: None,
                coord: CellCoord { x_pos: x, y_pos: y },
                part_of_maze: false,
                color: None,
                distance: -1i32,
            }),
    {
        TriangleCell {
            bottom: None,
            left: None,
            top: None,
            right: None,
            coord: CellCoord::new(x, y),
            part_of_maze: false,
            color: None,
            distance: -1,
        }
    }
}

impl TriangleCell {
    /// The triangle points up where its column and row add up to an even
    /// number, and down otherwise.
    pub fn points_up(&self) -> (r: bool)
        requires
            i32::MIN <= self.coord.x_pos + self.coord.y_pos <= i32::MAX,
        ensures
            r == ((self.coord.x_pos + self.coord.y_pos) % 2 == 0),
    {
        (self.coord.x_pos + self.coord.y_pos) % 2 == 0
    }

    /// Which walls the triangle shows: its left side where not linked, its
    /// right side where not linked, and its base where linked neither up nor
    /// down.
    pub fn drawn_walls(&self) -> (r: (bool, bool, bool))
        ensures
            r == (self.left is None, self.right is None, self.top is None && self.bottom is None),
    {
        (self.left.is_none(), self.right.is_none(), self.top.is_none() && self.bottom.is_none())
    }
}

impl Cell for TriangleCell {
    fn get_coord(&self) -> (c: CellCoord)
        ensures
            c == self.coord,
    {
        self.coord
    }

    fn is_part_of_maze(&self) -> (r: bool)
        ensures
            r == self.part_of_maze,
    {
        self.part_of_maze
    }

    fn set_part_of_maze(&mut self, part: bool)
        ensures
            *final(self) == (TriangleCell { part_of_maze: part, ..*old(self) }),
    {
        self.part_of_maze = part
    }

    fn set_color(&mut self, color: Option<Color>)
        ensures
            *final(self) == (TriangleCell { color: color, ..*old(self) }),
    {
        self.color = color;
    }

    fn get_distance(&self) -> (d: i32)
        ensures
            d == self.distance,
    {
        self.distance
    }

    fn set_distance(&mut self, dist: i32)
        ensures
            *final(self) == (TriangleCell { distance: dist, ..*old(self) }),
    {
        self.distance = dist;
    }

    fn get_neighbours(&self) -> (r: Vec<CellCoord>)
        ensures
            r@ == self.neighbours(),
    {
        let mut neighbours = Vec::new();
        if self.top.is_some() {
            neighbours.push(self.top.unwrap());
        }
        if self.bottom.is_some() {
            neighbours.push(self.bottom.unwrap());
        }
        if self.left.is_some() {
            neighbours.push(self.left.unwrap());
        }
        if self.right.is_some() {
            neighbours.push(self.right.unwrap());
        }
        proof {
            assert(neighbours@ =~= self.neighbours());
        }
        neighbours
    }
}

} // verus!
