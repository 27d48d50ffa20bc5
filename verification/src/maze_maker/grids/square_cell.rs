//! A square cell with a link to each of its four neighbours.
use vstd::prelude::*;
use crate::maze_maker::grids::{Cell, CellCoord, Color, link_seq};

verus! {

/// A square cell: the links through its four sides (`None` is a wall), its
/// position, whether it is part of the maze, its colour and its distance
/// from the start (`-1` where unknown).
#[derive(Clone, Copy, Debug)]
pub struct SquareCell {
    pub left: Option<CellCoord>,
    pub right: Option<CellCoord>,
    pub top: Option<CellCoord>,
    pub bottom: Option<CellCoord>,
    pub coord: CellCoord,
    pub part_of_maze: bool,
    pub color: Option<Color>,
    pub distance: i32,
}

impl SquareCell {
    /// The cells linked to, in the order top, bottom, left, right.
    pub open spec fn neighbours(self) -> Seq<CellCoord> {
        link_seq(self.top) + link_seq(self.bottom) + link_seq(self.left) + link_seq(self.right)
    }

    /// A walled cell at `(x, y)`, not part of the maze, with no colour and
    /// no distance.
    pub fn default(x: i32, y: i32) -> (c: SquareCell)
        ensures
            c == (SquareCell {
                bottom: None,
                left: None,
                top: None,
                right: None,
                coord: CellCoord { x_pos: x, y_pos: y },
                part_of_maze: false,
                color: None,
                distance: -1i32,
            }),
    {
        SquareCell {
            bottom: None,
            left: None,
            top: None,
            right: None,
            coord: CellCoord::new(x, y),
            part_of_maze: false,
            color: None,
            distance: -1,
        }
    }
}

/// A point of a drawing, in pixels.
pub type Point = (i32, i32);

/// Every value that drawing the cell at `c` with a `width` by `height` cell
/// size and a margin computes fits in an `i32`: the next row and column, the
/// cell's edges, and the edges shifted by the margin.
pub open spec fn square_draw_fits(c: CellCoord, width: int, height: int, margin: int) -> bool {
    let x = c.x_pos as int;
    let y = c.y_pos as int;
    &&& x < i32::MAX && y < i32::MAX
    &&& i32::MIN <= x * width <= i32::MAX && i32::MIN <= (x + 1) * width <= i32::MAX
    &&& i32::MIN <= y * height <= i32::MAX && i32::MIN <= (y + 1) * height <= i32::MAX
    &&& i32::MIN <= x * width + margin <= i32::MAX && i32::MIN <= (x + 1) * width + margin <= i32::MAX
    &&& i32::MIN <= y * height + margin <= i32::MAX && i32::MIN <= (y + 1) * height + margin <= i32::MAX
}

/// The point at `(px, py)` shifted by the margin.
pub open spec fn shifted(px: int, py: int, margin: int) -> Point {
    ((px + margin) as i32, (py + margin) as i32)
}

/// A line for each side of the cell without a link, in the order top,
/// bottom, left, right, at `size` pixels a cell and shifted by `margin`.
pub open spec fn square_walls(c: SquareCell, size: int, margin: int) -> Seq<(Point, Point)> {
    let x = c.coord.x_pos as int;
    let y = c.coord.y_pos as int;
    (if c.top is None {
        seq![(shifted(x * size, (y + 1) * size, margin), shifted((x + 1) * size, (y + 1) * size, margin))]
    } else {
        Seq::empty()
    }) + (if c.bottom is None {
        seq![(shifted(x * size, y * size, margin), shifted((x + 1) * size, y * size, margin))]
    } else {
        Seq::empty()
    }) + (if c.left is None {
        seq![(shifted(x * size, y * size, margin), shifted(x * size, (y + 1) * size, margin))]
    } else {
        Seq::empty()
    }) + (if c.right is None {
        seq![(shifted((x + 1) * size, y * size, margin), shifted((x + 1) * size, (y + 1) * size, margin))]
    } else {
        Seq::empty()
    })
}

impl SquareCell {
    /// The cell's rectangle, corner to corner, shifted by the margin, with
    /// its colour; nothing where the cell has no colour.
    pub fn draw_background(&self, cell_width: i32, cell_height: i32, margin: i32) -> (r: Option<(Point, Point, Color)>)
        requires
            square_draw_fits(self.coord, cell_width as int, cell_height as int, margin as int),
        ensures
            r == match self.color {
                Some(color) => {
                    let x = self.coord.x_pos as int;
                    let y = self.coord.y_pos as int;
                    Some(
                        (
                            shifted(x * cell_width, y * cell_height, margin as int),
                            shifted((x + 1) * cell_width, (y + 1) * cell_height, margin as int),
                            color,
                        ),
                    )
                },
                None => None::<(Point, Point, Color)>,
            },
    {
        match self.color {
            Some(color) => {
                let x = self.coord.x_pos;
                let y = self.coord.y_pos;
                let top_left = (x * cell_width + margin, y * cell_height + margin);
                let bottom_right = ((x + 1) * cell_width + margin, (y + 1) * cell_height + margin);
                Some((top_left, bottom_right, color))
            },
            None => None,
        }
    }

    /// The lines of the cell's walls (see `square_walls`); the inset is not
    /// drawn.
    pub fn draw(&self, _cell_inset: i32, cell_size: i32, margin: i32) -> (r: Vec<(Point, Point)>)
        requires
            square_draw_fits(self.coord, cell_size as int, cell_size as int, margin as int),
        ensures
            r@ == square_walls(*self, cell_size as int, margin as int),
    {
        let mut points: Vec<(Point, Point)> = Vec::new();
        let x = self.coord.x_pos;
        let y = self.coord.y_pos;
        let s = cell_size;
        if self.top.is_none() {
            let y_pos = (y + 1) * s + margin;
            points.push(((x * s + margin, y_pos), ((x + 1) * s + margin, y_pos)));
        }
        if self.bottom.is_none() {
            let y_pos = y * s + margin;
            points.push(((x * s + margin, y_pos), ((x + 1) * s + margin, y_pos)));
        }
        if self.left.is_none() {
            let x_pos = x * s + margin;
            points.push(((x_pos, y * s + margin), (x_pos, (y + 1) * s + margin)));
        }
        if self.right.is_none() {
            let x_pos = (x + 1) * s + margin;
            points.push(((x_pos, y * s + margin), (x_pos, (y + 1) * s + margin)));
        }
        proof {
            assert(points@ =~= square_walls(*self, cell_size as int, margin as int));
        }
        points
    }
}

impl Cell for SquareCell {
    fn get_coord(&self) -> (c: CellCoord)
        ensures
            c == self.coord,
    {
        self.coord
    }

    fn is_part_of_maze(&self) -> (r: bool)
        ensures
            r == self.part_of_maze,
    {
        self.part_of_maze
    }

    fn set_part_of_maze(&mut self, part: bool)
        ensures
            *final(self) == (SquareCell { part_of_maze: part, ..*old(self) }),
    {
        self.part_of_maze = part
    }

    fn set_color(&mut self, color: Option<Color>)
        ensures
            *final(self) == (SquareCell { color: color, ..*old(self) }),
    {
        self.color = color;
    }

    fn get_distance(&self) -> (d: i32)
        ensures
            d == self.distance,
    {
        self.distance
    }

    fn set_distance(&mut self, dist: i32)
        ensures
            *final(self) == (SquareCell { distance: dist, ..*old(self) }),
    {
        self.distance = dist;
    }

    fn get_neighbours(&self) -> (r: Vec<CellCoord>)
        ensures
            r@ == self.neighbours(),
    {
        let mut neighbours = Vec::new();
        if self.top.is_some() {
            neighbours.push(self.top.unwrap());
        }
        if self.bottom.is_some() {
            neighbours.push(self.bottom.unwrap());
        }
        if self.left.is_some() {
            neighbours.push(self.left.unwrap());
        }
        if self.right.is_some() {
            neighbours.push(self.right.unwrap());
        }
        proof {
            assert(neighbours@ =~= self.neighbours());
        }
        neighbours
    }
}

} // verus!
