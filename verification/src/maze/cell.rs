//! Square and hexagonal cells with links to their neighbours.
use vstd::prelude::*;

verus! {

/// Whether `num` is odd.
pub fn is_odd(num: i32) -> (r: bool)
    ensures
        r == (num % 2 != 0),
{
    proof {
        assert((num & 1i32) != 0i32 <==> num % 2 != 0) by (bit_vector);
    }
    num & 1 != 0
}

/// The position of a cell: column and row.
#[derive(Clone, Copy, Debug)]
pub struct CellCoord {
    pub x_pos: i32,
    pub y_pos: i32,
}

impl CellCoord {
    pub fn new(x: i32, y: i32) -> (c: CellCoord)
        ensures
            c == (CellCoord { x_pos: x, y_pos: y }),
    {
        CellCoord { x_pos: x, y_pos: y }
    }
}

/// The link to a neighbour as a sequence of at most one coordinate.
pub open spec fn link_seq(l: Option<CellCoord>) -> Seq<CellCoord> {
    match l {
        Some(c) => seq![c],
        None => Seq::empty(),
    }
}

/// A square cell: the links through its four sides (`None` is a wall), its
/// position, whether it is part of the maze, its colour and its distance
/// from the start (`-1` where unknown).
#[derive(Clone, Copy, Debug)]
pub struct SquareCell {
    pub left: Option<CellCoord>,
    pub right: Option<CellCoord>,
    pub top: Option<CellCoord>,
    pub bottom: Option<CellCoord>,
    pub coord: CellCoord,
    pub part_of_maze: bool,
    pub color: Option<u32>,
    pub distance: i32,
}

impl SquareCell {
    /// The cells linked to, in the order top, bottom, left, right.
    pub open spec fn neighbours(self) -> Seq<CellCoord> {
        link_seq(self.top) + link_seq(self.bottom) + link_seq(self.left) + link_seq(self.right)
    }

    /// A walled cell at `(x, y)`, not part of the maze, with no colour and
    /// no distance.
    pub fn default(x: i32, y: i32) -> (c: SquareCell)
        ensures
            c == (SquareCell {
                bottom: None,
                left: None,
                top: None,
                right: None,
                coord: CellCoord { x_pos: x, y_pos: y },
                part_of_maze: false,
                color: None,
                distance: -1i32,
            }),
    {
        SquareCell {
            bottom: None,
            left: None,
            top: None,
            right: None,
            coord: CellCoord::new(x, y),
            part_of_maze: false,
            color: None,
            distance: -1,
        }
    }

    /// The cells linked to, in the order top, bottom, left, right.
    pub fn get_neighbours(&self) -> (r: Vec<CellCoord>)
        ensures
            r@ == self.neighbours(),
    {
        let mut neighbours = Vec::new();
        if self.top.is_some() {
            neighbours.push(self.top.unwrap());
        }
        if self.bottom.is_some() {
            neighbours.push(self.bottom.unwrap());
        }
        if self.left.is_some() {
            neighbours.push(self.left.unwrap());
        }
        if self.right.is_some() {
            neighbours.push(self.right.unwrap());
        }
        proof {
            assert(neighbours@ =~= self.neighbours());
        }
        neighbours
    }

    /// The steps that fill the background of the cell (see `background_ops`).
    pub fn draw_background(&self, cell_inset: i32, cell_width: i32, cell_height: i32) -> (ops: Vec<DrawOp>)
        requires
            draw_fits(self.coord, cell_inset, cell_width, cell_height),
        ensures
            ops@ == background_ops(*self, cell_inset as int, cell_width as int, cell_height as int),
    {
        let mut ops: Vec<DrawOp> = Vec::new();
        let color: u32;
        if self.distance > 0 {
            let dist = (self.distance % (256 * 3)) as u32;
            let blue = dist / 3;
            let remain = dist - blue;
            let green = remain / 2;
            let remain = remain - green;
            let red = remain;
            let red = red << 16;
            let green = green << 8;
            color = red | green | blue;
        } else if self.color.is_some() {
            color = self.color.unwrap();
        } else {
            proof {
                assert(ops@ =~= background_ops(*self, cell_inset as int, cell_width as int, cell_height as int));
            }
            return ops;
        }
        let x = self.coord.x_pos;
        let y = self.coord.y_pos;
        let i = cell_inset;
        let w = cell_width;
        let h = cell_height;
        ops.push(DrawOp::Color(color));
        ops.push(DrawOp::Fill(x * w + i, y * h + i, w - i - i, h - i - i));
        if i > 0 {
            if self.top.is_some() {
                ops.push(DrawOp::Fill(x * w + i, (y + 1) * h - i, w - i - i, i));
            }
            if self.bottom.is_some() {
                ops.push(DrawOp::Fill(x * w + i, y * h, w - i - i, i));
            }
            if self.left.is_some() {
                ops.push(DrawOp::Fill(x * w, y * h + i, i, h - i - i));
            }
            if self.right.is_some() {
                ops.push(DrawOp::Fill((x + 1) * w - i, y * h + i, i, h - i - i));
            }
        }
        proof {
            assert(ops@ =~= background_ops(*self, cell_inset as int, cell_width as int, cell_height as int));
        }
        ops
    }

    /// A line along each side of the cell that has no link.
    fn wall_lines(&self, i: i32, w: i32, h: i32) -> (ops: Vec<DrawOp>)
        requires
            draw_fits(self.coord, i, w, h),
        ensures
            ops@ == wall_lines(*self, i as int, w as int, h as int),
    {
        let mut ops: Vec<DrawOp> = Vec::new();
        let x = self.coord.x_pos;
        let y = self.coord.y_pos;
        if self.top.is_none() {
            let y_pos = (y + 1) * h;
            ops.push(DrawOp::Line((x * w) + i, y_pos - i, ((x + 1) * w) - i, y_pos - i));
        }
        if self.bottom.is_none() {
            let y_pos = y * h;
            ops.push(DrawOp::Line((x * w) + i, y_pos + i, ((x + 1) * w) - i, y_pos + i));
        }
        if self.left.is_none() {
            let x_pos = x * w;
            ops.push(DrawOp::Line(x_pos + i, (y * h) + i, x_pos + i, ((y + 1) * h) - i));
        }
        if self.right.is_none() {
            let x_pos = (x + 1) * w;
            ops.push(DrawOp::Line(x_pos - i, (y * h) + i, x_pos - i, ((y + 1) * h) - i));
        }
        proof {
            assert(ops@ =~= wall_lines(*self, i as int, w as int, h as int));
        }
        ops
    }

    /// With an inset, the two sides of the passage towards each linked
    /// neighbour.
    fn passage_lines(&self, i: i32, w: i32, h: i32) -> (ops: Vec<DrawOp>)
        requires
            draw_fits(self.coord, i, w, h),
        ensures
            ops@ == passage_lines(*self, i as int, w as int, h as int),
    {
        let mut ops: Vec<DrawOp> = Vec::new();
        let x = self.coord.x_pos;
        let y = self.coord.y_pos;
        if i > 0 {
            if self.top.is_some() {
                let y_pos = (y + 1) * h;
                ops.push(DrawOp::Line((x * w) + i, y_pos, (x * w) + i, y_pos - i));
                ops.push(DrawOp::Line(((x + 1) * w) - i, y_pos, ((x + 1) * w) - i, y_pos - i));
            }
            if self.bottom.is_some() {
                let y_pos = y * h;
                ops.push(DrawOp::Line((x * w) + i, y_pos, (x * w) + i, y_pos + i));
                ops.push(DrawOp::Line(((x + 1) * w) - i, y_pos, ((x + 1) * w) - i, y_pos + i));
            }
            if self.left.is_some() {
                let x_pos = x * w;
                ops.push(DrawOp::Line(x_pos, (y * h) + i, x_pos + i, (y * h) + i));
                ops.push(DrawOp::Line(x_pos, ((y + 1) * h) - i, x_pos + i, ((y + 1) * h) - i));
            }
            if self.right.is_some() {
                let x_pos = (x + 1) * w;
                ops.push(DrawOp::Line(x_pos, (y * h) + i, x_pos - i, (y * h) + i));
                ops.push(DrawOp::Line(x_pos, ((y + 1) * h) - i, x_pos - i, ((y + 1) * h) - i));
            }
        }
        proof {
            assert(ops@ =~= passage_lines(*self, i as int, w as int, h as int));
        }
        ops
    }

    /// The steps that draw the cell (see `draw_ops`).
    pub fn draw(&self, cell_inset: i32, cell_width: i32, cell_height: i32) -> (ops: Vec<DrawOp>)
        requires
            draw_fits(self.coord, cell_inset, cell_width, cell_height),
        ensures
            ops@ == draw_ops(*self, cell_inset as int, cell_width as int, cell_height as int),
    {
        let mut ops = self.draw_background(cell_inset, cell_width, cell_height);
        ops.push(DrawOp::Color(0));
        let mut walls = self.wall_lines(cell_inset, cell_width, cell_height);
        let mut passages = self.passage_lines(cell_inset, cell_width, cell_height);
        ops.append(&mut walls);
        ops.append(&mut passages);
        ops
    }
}

/// A drawing step: set the colour, draw a line from one point to another,
/// or fill the rectangle at a point with a width and a height.
#[derive(Clone, Copy, Debug, PartialEq, Eq, Structural)]
pub enum DrawOp {
    Color(u32),
    Line(i32, i32, i32, i32),
    Fill(i32, i32, i32, i32),
}

/// The colour that shows a distance: the distance modulo 768 is shared out
/// between blue (a third), green (half of the rest) and red (what is left).
pub open spec fn distance_color(distance: i32) -> u32 {
    let dist = (distance % 768) as u32;
    let blue = dist / 3;
    let remain = (dist - blue) as u32;
    let green = remain / 2;
    let red = (remain - green) as u32;
    (red << 16u32) | (green << 8u32) | blue
}

/// `v` is a value of an `i32`.
pub open spec fn fits_i32(v: int) -> bool {
    i32::MIN <= v <= i32::MAX
}

/// Every value that drawing a cell at `(x, y)` with inset `inset` and size
/// `w` by `h` computes fits in an `i32`: the next row and column, the cell's
/// edges, the edges moved in by the inset, and the size less the inset once
/// and twice.
pub open spec fn draw_fits(c: CellCoord, inset: i32, w: i32, h: i32) -> bool {
    let x = c.x_pos as int;
    let y = c.y_pos as int;
    let i = inset as int;
    &&& x < i32::MAX && y < i32::MAX
    &&& fits_i32(x * w) && fits_i32((x + 1) * w) && fits_i32(y * h) && fits_i32((y + 1) * h)
    &&& fits_i32(x * w + i) && fits_i32((x + 1) * w - i) && fits_i32(y * h + i) && fits_i32((y + 1) * h - i)
    &&& fits_i32(w - i) && fits_i32(w - i - i) && fits_i32(h - i) && fits_i32(h - i - i)
}

/// The steps that fill the background of a cell, where it shows a distance
/// or has a colour: the colour, the cell less its inset, and, with an inset,
/// the strips of the inset towards each linked neighbour.
pub open spec fn background_ops(c: SquareCell, i: int, w: int, h: int) -> Seq<DrawOp> {
    let x = c.coord.x_pos as int;
    let y = c.coord.y_pos as int;
    if c.distance <= 0 && c.color is None {
        Seq::empty()
    } else {
        let color = if c.distance > 0 {
            distance_color(c.distance)
        } else {
            c.color.unwrap()
        };
        let strips = if i > 0 {
            (if c.top is Some {
                seq![DrawOp::Fill((x * w + i) as i32, ((y + 1) * h - i) as i32, (w - i - i) as i32, i as i32)]
            } else {
                Seq::empty()
            }) + (if c.bottom is Some {
                seq![DrawOp::Fill((x * w + i) as i32, (y * h) as i32, (w - i - i) as i32, i as i32)]
            } else {
                Seq::empty()
            }) + (if c.left is Some {
                seq![DrawOp::Fill((x * w) as i32, (y * h + i) as i32, i as i32, (h - i - i) as i32)]
            } else {
                Seq::empty()
            }) + (if c.right is Some {
                seq![DrawOp::Fill(((x + 1) * w - i) as i32, (y * h + i) as i32, i as i32, (h - i - i) as i32)]
            } else {
                Seq::empty()
            })
        } else {
            Seq::empty()
        };
        seq![
            DrawOp::Color(color),
            DrawOp::Fill((x * w + i) as i32, (y * h + i) as i32, (w - i - i) as i32, (h - i - i) as i32),
        ] + strips
    }
}

/// The steps that draw a cell: its background, then in black a wall on each
/// side without a link, and, with an inset, the sides of the passage towards
/// each linked neighbour.
pub open spec fn draw_ops(c: SquareCell, i: int, w: int, h: int) -> Seq<DrawOp> {
    background_ops(c, i, w, h) + seq![DrawOp::Color(0)] + wall_lines(c, i, w, h) + passage_lines(c, i, w, h)
}

/// A line along each side of a cell that has no link, inset by `i`.
pub open spec fn wall_lines(c: SquareCell, i: int, w: int, h: int) -> Seq<DrawOp> {
    let x = c.coord.x_pos as int;
    let y = c.coord.y_pos as int;
    (if c.top is None {
        seq![DrawOp::Line((x * w + i) as i32, ((y + 1) * h - i) as i32, ((x + 1) * w - i) as i32, ((y + 1) * h - i) as i32)]
    } else {
        Seq::empty()
    }) + (if c.bottom is None {
        seq![DrawOp::Line((x * w + i) as i32, (y * h + i) as i32, ((x + 1) * w - i) as i32, (y * h + i) as i32)]
    } else {
        Seq::empty()
    }) + (if c.left is None {
        seq![DrawOp::Line((x * w + i) as i32, (y * h + i) as i32, (x * w + i) as i32, ((y + 1) * h - i) as i32)]
    } else {
        Seq::empty()
    }) + (if c.right is None {
        seq![DrawOp::Line(((x + 1) * w - i) as i32, (y * h + i) as i32, ((x + 1) * w - i) as i32, ((y + 1) * h - i) as i32)]
    } else {
        Seq::empty()
    })
}

/// With an inset `i`, the two sides of the passage towards each linked
/// neighbour.
pub open spec fn passage_lines(c: SquareCell, i: int, w: int, h: int) -> Seq<DrawOp> {
    let x = c.coord.x_pos as int;
    let y = c.coord.y_pos as int;
    if i > 0 {
        (if c.top is Some {
            seq![
                DrawOp::Line((x * w + i) as i32, ((y + 1) * h) as i32, (x * w + i) as i32, ((y + 1) * h - i) as i32),
                DrawOp::Line(((x + 1) * w - i) as i32, ((y + 1) * h) as i32, ((x + 1) * w - i) as i32, ((y + 1) * h - i) as i32),
            ]
        } else {
            Seq::empty()
        }) + (if c.bottom is Some {
            seq![
                DrawOp::Line((x * w + i) as i32, (y * h) as i32, (x * w + i) as i32, (y * h + i) as i32),
                DrawOp::Line(((x + 1) * w - i) as i32, (y * h) as i32, ((x + 1) * w - i) as i32, (y * h + i) as i32),
            ]
        } else {
            Seq::empty()
        }) + (if c.left is Some {
            seq![
                DrawOp::Line((x * w) as i32, (y * h + i) as i32, (x * w + i) as i32, (y * h + i) as i32),
                DrawOp::Line((x * w) as i32, ((y + 1) * h - i) as i32, (x * w + i) as i32, ((y + 1) * h - i) as i32),
            ]
        } else {
            Seq::empty()
        }) + (if c.right is Some {
            seq![
                DrawOp::Line(((x + 1) * w) as i32, (y * h + i) as i32, ((x + 1) * w - i) as i32, (y * h + i) as i32),
                DrawOp::Line(((x + 1) * w) as i32, ((y + 1) * h - i) as i32, ((x + 1) * w - i) as i32, ((y + 1) * h - i) as i32),
            ]
        } else {
            Seq::empty()
        })
    } else {
        Seq::empty()
    }
}

/// A hexagonal cell: the links through its six sides (`None` is a wall),
/// its position, whether it is part of the maze, its colour and its distance
/// from the start (`-1` where unknown).
#[derive(Clone, Copy, Debug)]
pub struct HexCell {
    pub north: Option<CellCoord>,
    pub south: Option<CellCoord>,
    pub north_east: Option<CellCoord>,
    pub north_west: Option<CellCoord>,
    pub south_east: Option<CellCoord>,
    pub south_west: Option<CellCoord>,
    pub coord: CellCoord,
    pub part_of_maze: bool,
    pub color: Option<u32>,
    pub distance: i32,
}

impl HexCell {
    /// The cells linked to, in the order north, north-west, north-east,
    /// south, south-west, south-east.
    pub open spec fn neighbours(self) -> Seq<CellCoord> {
        link_seq(self.north) + link_seq(self.north_west) + link_seq(self.north_east) + link_seq(self.south)
            + link_seq(self.south_west) + link_seq(self.south_east)
    }

    /// A walled cell at `(x, y)`, not part of the maze, with no colour and
    /// no distance.
    pub fn default(x: i32, y: i32) -> (c: HexCell)
        ensures
            c == (HexCell {
                north: None,
                north_east: None,
                north_west: None,
                south: None,
                south_east: None,
                south_west: None,
                coord: CellCoord { x_pos: x, y_pos: y },
                part_of_maze: false,
                color: None,
                distance: -1i32,
            }),
    {
        HexCell {
            north: None,
            north_east: None,
            north_west: None,
            south: None,
            south_east: None,
            south_west: None,
            coord: CellCoord::new(x, y),
            part_of_maze: false,
            color: None,
            distance: -1,
        }
    }

    /// The cells linked to, in the order north, north-west, north-east,
    /// south, south-west, south-east.
    pub fn get_neighbours(&self) -> (r: Vec<CellCoord>)
        ensures
            r@ == self.neighbours(),
    {
        let mut neighbours = Vec::new();
        if self.north.is_some() {
            neighbours.push(self.north.unwrap());
        }
        if self.north_west.is_some() {
            neighbours.push(self.north_west.unwrap());
        }
        if self.north_east.is_some() {
            neighbours.push(self.north_east.unwrap());
        }
        if self.south.is_some() {
            neighbours.push(self.south.unwrap());
        }
        if self.south_west.is_some() {
            neighbours.push(self.south_west.unwrap());
        }
        if self.south_east.is_some() {
            neighbours.push(self.south_east.unwrap());
        }
        proof {
            assert(neighbours@ =~= self.neighbours());
        }
        neighbours
    }
}

} // verus!
