//! A cell of a circular maze: a segment of a ring, linked along the ring
//! and across to the rings inside and outside it.
use vstd::prelude::*;
use crate::maze_maker::grids::{Cell, CellCoord, Color};

verus! {

/// A segment of a ring: the links clockwise and counter-clockwise, to the
/// ring inside, and to the one or two segments of the ring outside (`None`
/// is a wall; a link to a negative position leads out of the maze), its
/// position (ring, segment), whether it is part of the maze, its colour and
/// its distance from the start (`-1` where unknown).
#[derive(Clone, Copy, Debug)]
pub struct CircleCell {
    pub inward: Option<CellCoord>,
    pub outward_1: Option<CellCoord>,
    pub outward_2: Option<CellCoord>,
    pub cw: Option<CellCoord>,
    pub ccw: Option<CellCoord>,
    pub coord: CellCoord,
    pub part_of_maze: bool,
    pub color: Option<Color>,
    pub distance: i32,
}

/// A link as a sequence of at most one position, where it is a position of
/// the maze (neither coordinate negative).
pub open spec fn kept(l: Option<CellCoord>) -> Seq<CellCoord> {
    match l {
        Some(c) => if c.x_pos >= 0 && c.y_pos >= 0 {
            seq![c]
        } else {
            Seq::empty()
        },
        None => Seq::empty(),
    }
}

/// The marker that the outer sides of the outermost ring carry.
pub open spec fn rim() -> Option<CellCoord> {
    Some(CellCoord { x_pos: -10i32, y_pos: -10i32 })
}

/// The walled segment at `coord`, not part of the maze, with no colour and
/// no distance.
pub open spec fn fresh_circle_cell(coord: CellCoord) -> CircleCell {
    CircleCell {
        outward_1: None,
        outward_2: None,
        inward: None,
        ccw: None,
        coord: coord,
        part_of_maze: false,
        color: None,
        cw: None,
        distance: -1i32,
    }
}

impl CircleCell {
    /// The positions of the maze linked to, in the order counter-clockwise,
    /// clockwise, inward, first and second outward.
    pub open spec fn neighbours(self) -> Seq<CellCoord> {
        kept(self.ccw) + kept(self.cw) + kept(self.inward) + kept(self.outward_1) + kept(self.outward_2)
    }

    /// A walled segment at `coord` (see `fresh_circle_cell`).
    pub fn new(coord: CellCoord) -> (c: CircleCell)
        ensures
            c == fresh_circle_cell(coord),
    {
        CircleCell {
            outward_1: None,
            outward_2: None,
            inward: None,
            ccw: None,
            coord,
            part_of_maze: false,
            color: None,
            cw: None,
            distance: -1,
        }
    }

    /// Which walls the segment shows: its clockwise side where that is not
    /// linked, its inner arc where it is not linked inward, and its outer arc
    /// where both outer sides carry the outermost-ring marker.
    pub fn drawn_walls(&self) -> (r: (bool, bool, bool))
        ensures
            r.0 == (self.cw is None),
            r.1 == (self.inward is None),
            r.2 == (self.outward_1 == rim() && self.outward_2 == rim()),
    {
        let side = self.cw.is_none();
        let inner = self.inward.is_none();
        let mut outer = false;
        if let Some(out1) = self.outward_1 {
            if let Some(out2) = self.outward_2 {
                if out1.x_pos == -10 && out1.y_pos == -10 && out2.x_pos == -10 && out2.y_pos == -10 {
                    outer = true;
                }
            }
        }
        (side, inner, outer)
    }
}

/// Appends the link to `v` where it is a position of the maze.
fn push_kept(v: &mut Vec<CellCoord>, l: Option<CellCoord>)
    ensures
        final(v)@ == old(v)@ + kept(l),
{
    if let Some(c) = l {
        if c.x_pos >= 0 && c.y_pos >= 0 {
            v.push(c);
        }
    }
    proof {
        assert(v@ =~= old(v)@ + kept(l));
    }
}

impl Cell for CircleCell {
    fn get_coord(&self) -> (c: CellCoord)
        ensures
            c == self.coord,
    {
        self.coord
    }

    fn is_part_of_maze(&self) -> (r: bool)
        ensures
            r == self.part_of_maze,
    {
        self.part_of_maze
    }

    fn set_part_of_maze(&mut self, part: bool)
        ensures
            *final(self) == (CircleCell { part_of_maze: part, ..*old(self) }),
    {
        self.part_of_maze = part
    }

    fn set_color(&mut self, color: Option<Color>)
        ensures
            *final(self) == (CircleCell { color: color, ..*old(self) }),
    {
        self.color = color;
    }

    fn get_distance(&self) -> (d: i32)
        ensures
            d == self.distance,
    {
        self.distance
    }

    fn set_distance(&mut self, dist: i32)
        ensures
            *final(self) == (CircleCell { distance: dist, ..*old(self) }),
    {
        self.distance = dist;
    }

    fn get_neighbours(&self) -> (r: Vec<CellCoord>)
        ensures
            r@ == self.neighbours(),
    {
        let mut neighbours = Vec::new();
        push_kept(&mut neighbours, self.ccw);
        push_kept(&mut neighbours, self.cw);
        push_kept(&mut neighbours, self.inward);
        push_kept(&mut neighbours, self.outward_1);
        push_kept(&mut neighbours, self.outward_2);
        proof {
            assert(neighbours@ =~= self.neighbours());
        }
        neighbours
    }
}

} // verus!
