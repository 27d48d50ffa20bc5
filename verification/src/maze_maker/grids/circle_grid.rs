//! The circular grid: rings of segments around a centre, each ring with as
//! many segments as the one inside it or twice as many.
use vstd::prelude::*;
use crate::maze_maker::grids::{Cell, CellCoord};
use crate::maze_maker::grids::circle_cell::{CircleCell, fresh_circle_cell, rim};

verus! {

/// The directions a passage can be carved in on a circular grid: clockwise
/// and counter-clockwise along a ring, inward, and outward to the first or
/// second of the segments outside (the same one where the ring outside has
/// no more segments).
#[derive(Clone, Copy, PartialEq, Eq, Structural, Debug)]
pub enum RingDirection {
    CW,
    CCW,
    Inward1,
    Inward2,
    Outward1,
    Outward2,
}

/// The segments of one ring, in counter-clockwise order.
struct Ring {
    cells: Vec<CircleCell>,
}

impl Ring {
    fn len(&self) -> (r: usize)
        ensures
            r == self.cells@.len(),
    {
        self.cells.len()
    }
}

/// A circular grid: its rings from the centre out, their number, the
/// radius of a ring, the margin around the maze, its entrance and exit,
/// whether a solution is shown, and the dead ends last found.
pub struct CircleGrid {
    rings: Vec<Ring>,
    num_rings: i32,
    pub cell_radius: i32,
    pub margin: i32,
    entrance: CellCoord,
    exit: CellCoord,
    has_solution: bool,
    dead_ends: Vec<CellCoord>,
}

/// The value of a circular grid.
pub struct CircleGridV {
    pub rings: Seq<Seq<CircleCell>>,
    pub num_rings: i32,
    pub cell_radius: i32,
    pub margin: i32,
    pub entrance: CellCoord,
    pub exit: CellCoord,
    pub has_solution: bool,
    pub dead_ends: Seq<CellCoord>,
}

impl View for CircleGrid {
    type V = CircleGridV;

    closed spec fn view(&self) -> CircleGridV {
        CircleGridV {
            rings: self.rings@.map_values(|r: Ring| r.cells@),
            num_rings: self.num_rings,
            cell_radius: self.cell_radius,
            margin: self.margin,
            entrance: self.entrance,
            exit: self.exit,
            has_solution: self.has_solution,
            dead_ends: self.dead_ends@,
        }
    }
}

/// The most segments a ring may have.
pub open spec fn max_segments() -> int {
    0x4000_0000
}

/// Rust's division by two, which rounds toward zero.
pub open spec fn half(y: int) -> int {
    if y >= 0 {
        y / 2
    } else {
        -((-y) / 2)
    }
}

/// The side of the segment reached through which it links back.
pub open spec fn ring_back(d: RingDirection) -> RingDirection {
    match d {
        RingDirection::CW => RingDirection::CCW,
        RingDirection::CCW => RingDirection::CW,
        RingDirection::Inward1 => RingDirection::Outward1,
        RingDirection::Inward2 => RingDirection::Outward2,
        RingDirection::Outward1 => RingDirection::Inward1,
        RingDirection::Outward2 => RingDirection::Inward2,
    }
}

/// The segment with its link on side `d` set to `to`, part of the maze.
pub open spec fn ring_linked(c: CircleCell, d: RingDirection, to: CellCoord) -> CircleCell {
    let c = CircleCell { part_of_maze: true, ..c };
    match d {
        RingDirection::CCW => CircleCell { ccw: Some(to), ..c },
        RingDirection::CW => CircleCell { cw: Some(to), ..c },
        RingDirection::Inward1 => CircleCell { inward: Some(to), ..c },
        RingDirection::Inward2 => CircleCell { inward: Some(to), ..c },
        RingDirection::Outward1 => CircleCell { outward_1: Some(to), ..c },
        RingDirection::Outward2 => CircleCell { outward_2: Some(to), ..c },
    }
}

/// The six directions in the order they are tried.
pub open spec fn ring_directions() -> Seq<RingDirection> {
    seq![
        RingDirection::CW,
        RingDirection::CCW,
        RingDirection::Inward1,
        RingDirection::Inward2,
        RingDirection::Outward1,
        RingDirection::Outward2,
    ]
}

impl CircleGridV {
    /// The number of segments of ring `k`.
    pub open spec fn ring_len(self, k: int) -> int {
        self.rings[k].len() as int
    }

    /// As many rings as `num_rings`, each with one to `max_segments()`
    /// segments, as many as the ring inside it or twice as many, each
    /// segment at its own position.
    pub open spec fn wf(self) -> bool {
        &&& self.rings.len() == self.num_rings
        &&& forall|k: int| 0 <= k < self.rings.len() ==> 1 <= #[trigger] self.ring_len(k) <= max_segments()
        &&& forall|k: int|
            0 < k < self.rings.len() ==> #[trigger] self.ring_len(k) == self.ring_len(k - 1) || self.ring_len(k) == 2
                * self.ring_len(k - 1)
        &&& forall|k: int, i: int|
            0 <= k < self.rings.len() && 0 <= i < self.ring_len(k) ==> (#[trigger] self.rings[k][i]).coord == (
            CellCoord { x_pos: k as i32, y_pos: i as i32 })
    }

    /// `c` is the position of a segment.
    pub open spec fn in_grid(self, c: CellCoord) -> bool {
        0 <= c.x_pos < self.rings.len() && 0 <= c.y_pos < self.ring_len(c.x_pos as int)
    }

    /// The segment at `c`, where there is one.
    pub open spec fn cell_at(self, c: CellCoord) -> Option<CircleCell> {
        if self.in_grid(c) {
            Some(self.rings[c.x_pos as int][c.y_pos as int])
        } else {
            None
        }
    }

    /// The grid with the segment at `c` replaced by `cell`.
    pub open spec fn with_cell(self, c: CellCoord, cell: CircleCell) -> CircleGridV {
        let k = c.x_pos as int;
        CircleGridV { rings: self.rings.update(k, self.rings[k].update(c.y_pos as int, cell)), ..self }
    }

    /// The step from `c` in direction `d` stays within `i32`: this holds
    /// for every position of the grid.
    pub open spec fn step_fits(self, c: CellCoord, d: RingDirection) -> bool {
        let k = c.x_pos as int;
        let y = c.y_pos as int;
        0 <= k < self.rings.len() ==> match d {
            RingDirection::CW => y > i32::MIN,
            RingDirection::CCW => y < i32::MAX,
            RingDirection::Outward1 => k + 1 < self.rings.len() && self.ring_len(k + 1) != self.ring_len(k) ==> 2 * y
                <= i32::MAX && 2 * y >= i32::MIN,
            RingDirection::Outward2 => k + 1 < self.rings.len() && self.ring_len(k + 1) != self.ring_len(k) ==> 2 * y
                + 1 <= i32::MAX && 2 * y + 1 >= i32::MIN,
            _ => true,
        }
    }

    /// The position one step from `c` in direction `d`, where ring `c.x_pos`
    /// and the ring stepped to exist. Along the ring the step wraps around;
    /// across to a ring with a different number of segments the segment
    /// number is halved (inward, toward zero) or doubled (outward, and one
    /// more for the second outward segment).
    pub open spec fn cell_in_dir(self, c: CellCoord, d: RingDirection) -> Option<CellCoord> {
        let k = c.x_pos as int;
        let y = c.y_pos as int;
        if !(0 <= k < self.rings.len()) {
            None
        } else {
            let len = self.ring_len(k);
            match d {
                RingDirection::CW => Some(
                    CellCoord {
                        x_pos: c.x_pos,
                        y_pos: (if y - 1 < 0 {
                            len - 1
                        } else {
                            y - 1
                        }) as i32,
                    },
                ),
                RingDirection::CCW => Some(
                    CellCoord {
                        x_pos: c.x_pos,
                        y_pos: (if y + 1 >= len {
                            0
                        } else {
                            y + 1
                        }) as i32,
                    },
                ),
                RingDirection::Inward1 | RingDirection::Inward2 => if k - 1 < 0 {
                    None
                } else {
                    Some(
                        CellCoord {
                            x_pos: (k - 1) as i32,
                            y_pos: (if self.ring_len(k - 1) != len {
                                half(y)
                            } else {
                                y
                            }) as i32,
                        },
                    )
                },
                RingDirection::Outward1 => if k + 1 >= self.rings.len() {
                    None
                } else {
                    Some(
                        CellCoord {
                            x_pos: (k + 1) as i32,
                            y_pos: (if self.ring_len(k + 1) != len {
                                2 * y
                            } else {
                                y
                            }) as i32,
                        },
                    )
                },
                RingDirection::Outward2 => if k + 1 >= self.rings.len() {
                    None
                } else {
                    Some(
                        CellCoord {
                            x_pos: (k + 1) as i32,
                            y_pos: (if self.ring_len(k + 1) != len {
                                2 * y + 1
                            } else {
                                y
                            }) as i32,
                        },
                    )
                },
            }
        }
    }

    /// A passage can be carved from `c` in direction `d`: the position
    /// stepped to is a segment not yet part of the maze.
    pub open spec fn can_carve(self, c: CellCoord, d: RingDirection) -> bool {
        match self.cell_in_dir(c, d) {
            Some(t) => match self.cell_at(t) {
                Some(cell) => !cell.part_of_maze,
                None => false,
            },
            None => false,
        }
    }

    /// The directions a passage can be carved in from `c`, in the order
    /// clockwise, counter-clockwise, inward, outward.
    pub open spec fn allowed_directions(self, c: CellCoord) -> Seq<RingDirection> {
        ring_directions().filter(|d: RingDirection| self.can_carve(c, d))
    }

    /// The grid after carving from `s` in direction `d`: where there is a
    /// position that way, the segment at `s` links to it and the segment
    /// there links back, both then part of the maze.
    pub open spec fn carved(self, s: CellCoord, d: RingDirection) -> CircleGridV {
        match self.cell_in_dir(s, d) {
            None => self,
            Some(e) => {
                let g1 = self.with_cell(s, ring_linked(self.rings[s.x_pos as int][s.y_pos as int], d, e));
                g1.with_cell(e, ring_linked(g1.rings[e.x_pos as int][e.y_pos as int], ring_back(d), s))
            },
        }
    }
}

/// `b` has the rings of `a`, each with as many segments.
pub open spec fn same_shape(a: CircleGridV, b: CircleGridV) -> bool {
    &&& b.rings.len() == a.rings.len()
    &&& forall|k: int| 0 <= k < a.rings.len() ==> #[trigger] b.ring_len(k) == a.ring_len(k)
}

/// `segs` can be the numbers of segments of the rings of a grid: at least
/// two rings, each with eight to `max_segments()` segments, each ring with as
/// many segments as the ring inside it or twice as many.
pub open spec fn segments_ok(segs: Seq<i32>) -> bool {
    &&& segs.len() >= 2
    &&& forall|k: int| 0 <= k < segs.len() ==> 8 <= #[trigger] segs[k] <= max_segments()
    &&& forall|k: int| 0 < k < segs.len() ==> #[trigger] segs[k] == segs[k - 1] || segs[k] == 2 * segs[k - 1]
}

/// Ring `k` of `n` rings, with `len` walled segments; the outer sides of
/// the segments of the outermost ring carry the outermost-ring marker.
pub open spec fn built_ring(k: int, n: int, len: int) -> Seq<CircleCell> {
    Seq::new(
        len as nat,
        |i: int|
            {
                let c = fresh_circle_cell(CellCoord { x_pos: k as i32, y_pos: i as i32 });
                if k == n - 1 {
                    CircleCell { outward_1: rim(), outward_2: rim(), ..c }
                } else {
                    c
                }
            },
    )
}

/// The rings of `g` built anew with `segs[k]` segments in ring `k`, the
/// entrance at the first segment of the innermost ring, the exit at the
/// first segment of the outermost.
pub open spec fn built(g: CircleGridV, segs: Seq<i32>) -> CircleGridV {
    let n = g.num_rings as int;
    CircleGridV {
        rings: Seq::new(n as nat, |k: int| built_ring(k, n, segs[k] as int)),
        entrance: CellCoord { x_pos: 0i32, y_pos: 0i32 },
        exit: CellCoord { x_pos: (n - 1) as i32, y_pos: 0i32 },
        ..g
    }
}

/// `g` with passages carved counter-clockwise from the first `m` segments
/// of the innermost ring, in order.
pub open spec fn ring0_carved(g: CircleGridV, m: nat) -> CircleGridV
    decreases m,
{
    if m == 0 {
        g
    } else {
        ring0_carved(g, (m - 1) as nat).carved(CellCoord { x_pos: 0i32, y_pos: (m - 1) as i32 }, RingDirection::CCW)
    }
}

/// The grid as `init` leaves it: built anew, with passages counter-clockwise
/// from the first eight segments of the innermost ring and outward from its
/// first segment, the segment reached outward not counted as part of the
/// maze, and the exit's first outer side leading out of the maze.
pub open spec fn initialised(g: CircleGridV, segs: Seq<i32>) -> CircleGridV {
    let g1 = ring0_carved(built(g, segs), 8);
    let g2 = g1.carved(CellCoord { x_pos: 0i32, y_pos: 0i32 }, RingDirection::Outward1);
    let g3 = g2.with_cell(CellCoord { x_pos: 1i32, y_pos: 0i32 }, CircleCell { part_of_maze: false, ..g2.rings[1][0] });
    let x = g3.exit;
    g3.with_cell(x, CircleCell { outward_1: Some(CellCoord { x_pos: -1i32, y_pos: -1i32 }), ..g3.rings[x.x_pos as int][0] })
}

/// Every step from a segment of a well-formed grid stays within `i32` and
/// reaches a segment, where it reaches a position at all.
pub proof fn lemma_step_in_grid(g: CircleGridV, c: CellCoord, d: RingDirection)
    requires
        g.wf(),
        g.in_grid(c),
    ensures
        g.step_fits(c, d),
        g.cell_in_dir(c, d) matches Some(e) ==> g.in_grid(e),
{
    let k = c.x_pos as int;
    assert(1 <= g.ring_len(k) <= max_segments());
    if k > 0 {
        assert(g.ring_len(k) == g.ring_len(k - 1) || g.ring_len(k) == 2 * g.ring_len(k - 1));
        assert(1 <= g.ring_len(k - 1));
    }
    if k + 1 < g.rings.len() {
        assert(g.ring_len(k + 1) == g.ring_len(k) || g.ring_len(k + 1) == 2 * g.ring_len(k));
    }
}

impl CircleGrid {
    /// A grid of `rings` rings of radius `cell_radius` with the given margin,
    /// not yet built: no segments, entrance and exit at `(-1, -1)`, no
    /// solution and no dead ends.
    pub fn new(rings: i32, cell_radius: i32, margin: i32) -> (g: CircleGrid)
        ensures
            g@ == (CircleGridV {
                rings: Seq::empty(),
                num_rings: rings,
                cell_radius: cell_radius,
                margin: margin,
                entrance: CellCoord { x_pos: -1i32, y_pos: -1i32 },
                exit: CellCoord { x_pos: -1i32, y_pos: -1i32 },
                has_solution: false,
                dead_ends: Seq::empty(),
            }),
    {
        let g = CircleGrid {
            num_rings: rings,
            cell_radius,
            margin,
            entrance: CellCoord::new(-1, -1),
            exit: CellCoord::new(-1, -1),
            has_solution: false,
            dead_ends: Vec::new(),
            rings: Vec::new(),
        };
        proof {
            assert(g@.rings =~= Seq::empty());
        }
        g
    }

    /// The number of segments of ring `k`, where there is such a ring.
    fn ring_len_at(&self, k: i32) -> (r: Option<usize>)
        ensures
            r is Some <==> 0 <= k < self@.rings.len(),
            r matches Some(l) ==> l as int == self@.ring_len(k as int),
    {
        if k < 0 || k as usize >= self.rings.len() {
            None
        } else {
            Some(self.rings[k as usize].len())
        }
    }

    /// The segment at `coord`, where there is one.
    pub fn get_cell(&self, coord: CellCoord) -> (r: Option<&CircleCell>)
        ensures
            r matches Some(c) ==> self@.cell_at(coord) == Some(*c),
            r is None ==> self@.cell_at(coord) is None,
    {
        match self.ring_len_at(coord.x_pos) {
            None => None,
            Some(len) => {
                proof {
                    assert(self.rings@[coord.x_pos as int].cells@ == self@.rings[coord.x_pos as int]);
                }
                if coord.y_pos < 0 || coord.y_pos as usize >= len {
                    None
                } else {
                    Some(&self.rings[coord.x_pos as usize].cells[coord.y_pos as usize])
                }
            },
        }
    }

    /// The position one step from `coord` in direction `dir` (see
    /// `CircleGridV::cell_in_dir`).
    pub fn get_cell_in_dir(&self, coord: CellCoord, dir: RingDirection) -> (r: Option<CellCoord>)
        requires
            self@.wf(),
            self@.step_fits(coord, dir),
        ensures
            r == self@.cell_in_dir(coord, dir),
    {
        let mut target_x = coord.x_pos;
        let mut target_y = coord.y_pos;
        let len = match self.ring_len_at(coord.x_pos) {
            None => {
                return None;
            },
            Some(len) => len,
        };
        proof {
            assert(1 <= self@.ring_len(coord.x_pos as int) <= max_segments());
        }
        match dir {
            RingDirection::CW => {
                target_y = target_y - 1;
                if target_y < 0 {
                    target_y = (len - 1) as i32
                }
            },
            RingDirection::CCW => {
                target_y = target_y + 1;
                if target_y >= len as i32 {
                    target_y = 0
                }
            },
            RingDirection::Inward1 | RingDirection::Inward2 => {
                let inward = match self.ring_len_at(coord.x_pos - 1) {
                    None => {
                        return None;
                    },
                    Some(l) => l,
                };
                target_x = target_x - 1;
                if inward != len {
                    target_y = target_y / 2;
                }
            },
            RingDirection::Outward1 => {
                if coord.x_pos == i32::MAX {
                    return None;
                }
                let outward = match self.ring_len_at(coord.x_pos + 1) {
                    None => {
                        return None;
                    },
                    Some(l) => l,
                };
                target_x = target_x + 1;
                if len != outward {
                    target_y = target_y * 2;
                }
            },
            RingDirection::Outward2 => {
                if coord.x_pos == i32::MAX {
                    return None;
                }
                let outward = match self.ring_len_at(coord.x_pos + 1) {
                    None => {
                        return None;
                    },
                    Some(l) => l,
                };
                target_x = target_x + 1;
                if len != outward {
                    target_y = (target_y * 2) + 1;
                }
            },
        }
        Some(CellCoord::new(target_x, target_y))
    }

    /// Replaces the segment at `c`.
    fn set_cell(&mut self, c: CellCoord, cell: CircleCell)
        requires
            old(self)@.in_grid(c),
        ensures
            final(self)@ == old(self)@.with_cell(c, cell),
            same_shape(old(self)@, final(self)@),
    {
        let k = c.x_pos as usize;
        self.rings[k].cells.set(c.y_pos as usize, cell);
        proof {
            assert(self@.rings =~= old(self)@.with_cell(c, cell).rings);
        }
    }

    /// Carves a passage from the segment at `coord_start` in direction `dir`
    /// (see `CircleGridV::carved`).
    pub fn carve(&mut self, coord_start: CellCoord, dir: RingDirection)
        requires
            old(self)@.wf(),
            old(self)@.in_grid(coord_start),
        ensures
            final(self)@ == old(self)@.carved(coord_start, dir),
            final(self)@.wf(),
            same_shape(old(self)@, final(self)@),
    {
        proof {
            lemma_step_in_grid(self@, coord_start, dir);
        }
        let coord_end = self.get_cell_in_dir(coord_start, dir);
        if coord_end.is_none() {
            return;
        }
        let coord_end = coord_end.unwrap();
        let ghost g0 = self@;
        let mut start_cell = self.rings[coord_start.x_pos as usize].cells[coord_start.y_pos as usize];
        start_cell.part_of_maze = true;
        match dir {
            RingDirection::CCW => {
                start_cell.ccw = Some(coord_end);
            },
            RingDirection::CW => {
                start_cell.cw = Some(coord_end);
            },
            RingDirection::Inward1 => {
                start_cell.inward = Some(coord_end);
            },
            RingDirection::Inward2 => {
                start_cell.inward = Some(coord_end);
            },
            RingDirection::Outward1 => {
                start_cell.outward_1 = Some(coord_end);
            },
            RingDirection::Outward2 => {
                start_cell.outward_2 = Some(coord_end);
            },
        }
        self.set_cell(coord_start, start_cell);
        let ghost g1 = self@;
        proof {
            lemma_step_in_grid(g0, coord_start, dir);
            assert(g0.in_grid(coord_end));
            assert(g1.ring_len(coord_end.x_pos as int) == g0.ring_len(coord_end.x_pos as int));
            assert(self@.rings.len() == self.rings@.len());
            assert(self@.rings[coord_end.x_pos as int] == self.rings@[coord_end.x_pos as int].cells@);
        }
        let mut end_cell = self.rings[coord_end.x_pos as usize].cells[coord_end.y_pos as usize];
        end_cell.part_of_maze = true;
        match dir {
            RingDirection::CCW => {
                end_cell.cw = Some(coord_start);
            },
            RingDirection::CW => {
                end_cell.ccw = Some(coord_start);
            },
            RingDirection::Inward1 => {
                end_cell.outward_1 = Some(coord_start);
            },
            RingDirection::Inward2 => {
                end_cell.outward_2 = Some(coord_start);
            },
            RingDirection::Outward1 => {
                end_cell.inward = Some(coord_start);
            },
            RingDirection::Outward2 => {
                end_cell.inward = Some(coord_start);
            },
        }
        self.set_cell(coord_end, end_cell);
        proof {
            assert(forall|k: int| 0 <= k < self@.rings.len() ==> #[trigger] self@.ring_len(k) == g0.ring_len(k));
            assert forall|k: int, i: int| 0 <= k < self@.rings.len() && 0 <= i < self@.ring_len(k) implies (
            #[trigger] self@.rings[k][i]).coord == (CellCoord { x_pos: k as i32, y_pos: i as i32 }) by {
                assert(g1.rings[k][i].coord == g0.rings[k][i].coord);
                assert(self@.rings[k][i].coord == g1.rings[k][i].coord);
            }
        }
    }

    /// Whether a passage can be carved from `coord` in direction `dir` (see
    /// `CircleGridV::can_carve`).
    pub fn can_carve(&self, coord: CellCoord, dir: RingDirection) -> (r: bool)
        requires
            self@.wf(),
            self@.step_fits(coord, dir),
        ensures
            r == self@.can_carve(coord, dir),
    {
        if let Some(cell_coord) = self.get_cell_in_dir(coord, dir) {
            if let Some(cell) = self.get_cell(cell_coord) {
                return !cell.part_of_maze;
            }
        }
        false
    }

    /// The directions a passage can be carved in from the segment at
    /// `coord`, in the order clockwise, counter-clockwise, inward, outward.
    pub fn get_allowed_directions(&self, coord: CellCoord) -> (dirs: Vec<RingDirection>)
        requires
            self@.wf(),
            self@.in_grid(coord),
        ensures
            dirs@ == self@.allowed_directions(coord),
    {
        proof {
            lemma_step_in_grid(self@, coord, RingDirection::CW);
            lemma_step_in_grid(self@, coord, RingDirection::CCW);
            lemma_step_in_grid(self@, coord, RingDirection::Inward1);
            lemma_step_in_grid(self@, coord, RingDirection::Inward2);
            lemma_step_in_grid(self@, coord, RingDirection::Outward1);
            lemma_step_in_grid(self@, coord, RingDirection::Outward2);
        }
        let mut dirs = Vec::new();
        if self.can_carve(coord, RingDirection::CW) {
            dirs.push(RingDirection::CW);
        }
        if self.can_carve(coord, RingDirection::CCW) {
            dirs.push(RingDirection::CCW);
        }
        if self.can_carve(coord, RingDirection::Inward1) {
            dirs.push(RingDirection::Inward1);
        }
        if self.can_carve(coord, RingDirection::Inward2) {
            dirs.push(RingDirection::Inward2);
        }
        if self.can_carve(coord, RingDirection::Outward1) {
            dirs.push(RingDirection::Outward1);
        }
        if self.can_carve(coord, RingDirection::Outward2) {
            dirs.push(RingDirection::Outward2);
        }
        proof {
            let f = |d: RingDirection| self@.can_carve(coord, d);
            reveal_with_fuel(Seq::filter, 7);
            assert(dirs@ =~= ring_directions().filter(f));
        }
        dirs
    }

    /// Builds the rings, `segments[k]` segments in ring `k` (how many a ring
    /// gets rests on the circumference, so the count comes from the caller),
    /// and opens the maze (see `initialised`).
    pub fn init(&mut self, segments: &Vec<i32>)
        requires
            segments_ok(segments@),
            segments@.len() == old(self)@.num_rings,
        ensures
            final(self)@ == initialised(old(self)@, segments@),
            final(self)@.wf(),
    {
        let ghost g = self@;
        let ghost segs = segments@;
        let n = self.num_rings;
        self.rings = Vec::new();
        let mut k: i32 = 0;
        while k < n
            invariant
                0 <= k <= n,
                n == g.num_rings,
                segs == segments@,
                segments_ok(segs),
                segs.len() == n,
                self.rings@.len() == k,
                forall|j: int| 0 <= j < k ==> (#[trigger] self.rings@[j]).cells@ == built_ring(j, n as int, segs[j] as int),
                self.num_rings == g.num_rings,
                self.cell_radius == g.cell_radius,
                self.margin == g.margin,
                self.entrance == g.entrance,
                self.exit == g.exit,
                self.has_solution == g.has_solution,
                self.dead_ends@ == g.dead_ends,
            decreases n - k,
        {
            let len = segments[k as usize];
            let mut cells: Vec<CircleCell> = Vec::new();
            let mut i: i32 = 0;
            while i < len
                invariant
                    0 <= i <= len,
                    0 <= k < n,
                    cells@ == built_ring(k as int, n as int, len as int).take(i as int),
                decreases len - i,
            {
                let mut c = CircleCell::new(CellCoord::new(k, i));
                if k == n - 1 {
                    c.outward_1 = Some(CellCoord::new(-10, -10));
                    c.outward_2 = Some(CellCoord::new(-10, -10));
                }
                cells.push(c);
                i = i + 1;
                proof {
                    assert(cells@ =~= built_ring(k as int, n as int, len as int).take(i as int));
                }
            }
            proof {
                assert(cells@ =~= built_ring(k as int, n as int, len as int));
            }
            self.rings.push(Ring { cells });
            k = k + 1;
        }
        self.exit = CellCoord::new(n - 1, 0);
        self.entrance = CellCoord::new(0, 0);
        let ghost b = built(g, segs);
        proof {
            assert(self@.rings =~= b.rings);
            assert(self@ == b);
            assert forall|k: int| 0 <= k < b.rings.len() implies 1 <= #[trigger] b.ring_len(k) <= max_segments() by {
                assert(segs[k] >= 8);
            }
            assert forall|k: int| 0 < k < b.rings.len() implies #[trigger] b.ring_len(k) == b.ring_len(k - 1)
                || b.ring_len(k) == 2 * b.ring_len(k - 1) by {
                assert(segs[k] == segs[k - 1] || segs[k] == 2 * segs[k - 1]);
            }
            assert(b.wf());
        }
        let mut segment: i32 = 0;
        while segment < 8
            invariant
                0 <= segment <= 8,
                self@ == ring0_carved(b, segment as nat),
                self@.wf(),
                same_shape(b, self@),
                self@.exit == b.exit,
                b.exit == (CellCoord { x_pos: (n - 1) as i32, y_pos: 0i32 }),
                b.rings.len() == n,
                n >= 2,
                b.ring_len(0) >= 8,
            decreases 8 - segment,
        {
            assert(self@.ring_len(0) == b.ring_len(0));
            self.carve(CellCoord::new(0, segment), RingDirection::CCW);
            segment = segment + 1;
        }
        let ghost g1 = self@;
        self.carve(CellCoord::new(0, 0), RingDirection::Outward1);
        let ghost g2 = self@;
        proof {
            lemma_step_in_grid(g2, CellCoord { x_pos: 0i32, y_pos: 0i32 }, RingDirection::Outward1);
        }
        let cell2_coord = self.get_cell_in_dir(CellCoord::new(0, 0), RingDirection::Outward1).unwrap();
        proof {
            assert(cell2_coord == CellCoord { x_pos: 1i32, y_pos: 0i32 });
            assert(self.rings@[1].cells@ == self@.rings[1]);
        }
        let mut cell2 = self.rings[1].cells[0];
        cell2.part_of_maze = false;
        self.set_cell(cell2_coord, cell2);
        let ghost g3 = self@;
        let exit = self.exit;
        proof {
            assert(self@.ring_len(n - 1) == b.ring_len(n - 1));
            assert(self@.rings.len() == self.rings@.len());
            assert(self.rings@[exit.x_pos as int].cells@ == self@.rings[exit.x_pos as int]);
        }
        let mut exit_cell = self.rings[exit.x_pos as usize].cells[0];
        exit_cell.outward_1 = Some(CellCoord { x_pos: -1, y_pos: -1 });
        self.set_cell(exit, exit_cell);
        proof {
            assert forall|k: int, i: int| 0 <= k < self@.rings.len() && 0 <= i < self@.ring_len(k) implies (
            #[trigger] self@.rings[k][i]).coord == (CellCoord { x_pos: k as i32, y_pos: i as i32 }) by {
                assert(g3.rings[k][i].coord == g2.rings[k][i].coord);
            }
        }
    }

    /// Records as dead ends the positions of the segments linked to exactly
    /// one position of the maze, ring by ring from the centre.
    pub fn find_dead_ends(&mut self)
        ensures
            final(self)@ == (CircleGridV { dead_ends: dead_ends_of(old(self)@.rings), ..old(self)@ }),
    {
        let mut deadends: Vec<CellCoord> = Vec::new();
        let mut k: usize = 0;
        while k < self.rings.len()
            invariant
                k <= self.rings@.len(),
                deadends@ == dead_ends_of(self@.rings.take(k as int)),
            decreases self.rings@.len() - k,
        {
            let ghost before = deadends@;
            let mut i: usize = 0;
            while i < self.rings[k].cells.len()
                invariant
                    k < self.rings@.len(),
                    i <= self.rings@[k as int].cells@.len(),
                    deadends@ == before + ring_dead_ends(self.rings@[k as int].cells@.take(i as int)),
                decreases self.rings@[k as int].cells@.len() - i,
            {
                let cell = self.rings[k].cells[i];
                let num_neighbours = cell.get_neighbours().len();
                if num_neighbours == 1 {
                    deadends.push(cell.get_coord());
                }
                proof {
                    let cs = self.rings@[k as int].cells@;
                    assert(cs.take(i + 1) =~= cs.take(i as int).push(cs[i as int]));
                    lemma_ring_dead_ends_push(cs.take(i as int), cs[i as int]);
                }
                i = i + 1;
            }
            proof {
                let rs = self@.rings;
                assert(self.rings@[k as int].cells@ == rs[k as int]);
                assert(self.rings@[k as int].cells@.take(i as int) =~= rs[k as int]);
                assert(rs.take(k + 1).drop_last() =~= rs.take(k as int));
            }
            k = k + 1;
        }
        proof {
            assert(self@.rings.take(k as int) =~= self@.rings);
        }
        self.dead_ends = deadends;
    }

    pub fn count_dead_ends(&self) -> (r: usize)
        ensures
            r == self@.dead_ends.len(),
    {
        self.dead_ends.len()
    }

    /// The number of rings.
    pub fn get_num_cells_horizontal(&self) -> (r: i32)
        ensures
            r == self@.num_rings,
    {
        self.num_rings
    }

    /// The number of rings.
    pub fn get_num_cells_vertical(&self) -> (r: i32)
        ensures
            r == self@.num_rings,
    {
        self.num_rings
    }

    pub fn get_cell_size(&self) -> (r: i32)
        ensures
            r == self@.cell_radius,
    {
        self.cell_radius
    }

    pub fn get_margin(&self) -> (r: i32)
        ensures
            r == self@.margin,
    {
        self.margin
    }

    pub fn get_entrance(&self) -> (r: CellCoord)
        ensures
            r == self@.entrance,
    {
        self.entrance
    }

    pub fn get_exit(&self) -> (r: CellCoord)
        ensures
            r == self@.exit,
    {
        self.exit
    }

    pub fn has_solution(&self) -> (r: bool)
        ensures
            r == self@.has_solution,
    {
        self.has_solution
    }

    pub fn set_has_solution(&mut self, has_solution: bool)
        ensures
            final(self)@ == (CircleGridV { has_solution: has_solution, ..old(self)@ }),
    {
        self.has_solution = has_solution;
    }

    pub fn clear_solution(&mut self)
        ensures
            final(self)@ == (CircleGridV { has_solution: false, ..old(self)@ }),
    {
        self.has_solution = false;
    }

    /// The width and height in pixels: the diameter, two radii per ring.
    pub fn get_size_in_pixels(&self) -> (r: (i32, i32))
        requires
            i32::MIN <= self@.num_rings * self@.cell_radius <= i32::MAX,
            i32::MIN <= self@.num_rings * self@.cell_radius * 2 <= i32::MAX,
        ensures
            r.0 == self@.num_rings * self@.cell_radius * 2,
            r.1 == r.0,
    {
        let size = self.num_rings * self.cell_radius * 2;
        (size, size)
    }
}

/// The positions of the segments of one ring linked to exactly one position
/// of the maze, in order.
pub open spec fn ring_dead_ends(cells: Seq<CircleCell>) -> Seq<CellCoord>
    decreases cells.len(),
{
    if cells.len() == 0 {
        Seq::empty()
    } else {
        ring_dead_ends(cells.drop_last()) + if cells.last().neighbours().len() == 1 {
            seq![cells.last().coord]
        } else {
            Seq::empty()
        }
    }
}

/// The dead ends of the rings, ring by ring from the centre.
pub open spec fn dead_ends_of(rings: Seq<Seq<CircleCell>>) -> Seq<CellCoord>
    decreases rings.len(),
{
    if rings.len() == 0 {
        Seq::empty()
    } else {
        dead_ends_of(rings.drop_last()) + ring_dead_ends(rings.last())
    }
}

proof fn lemma_ring_dead_ends_push(cells: Seq<CircleCell>, c: CircleCell)
    ensures
        ring_dead_ends(cells.push(c)) == ring_dead_ends(cells) + if c.neighbours().len() == 1 {
            seq![c.coord]
        } else {
            Seq::empty()
        },
{
    assert(cells.push(c).drop_last() =~= cells);
}

/// The link of a segment on side `d`.
pub open spec fn ring_link(c: CircleCell, d: RingDirection) -> Option<CellCoord> {
    match d {
        RingDirection::CCW => c.ccw,
        RingDirection::CW => c.cw,
        RingDirection::Inward1 => c.inward,
        RingDirection::Inward2 => c.inward,
        RingDirection::Outward1 => c.outward_1,
        RingDirection::Outward2 => c.outward_2,
    }
}

/// Carving from a segment to another links the first to the second on the
/// side carved through and the second back to the first on the opposite
/// side; both are then part of the maze, and the grid stays well formed.
pub proof fn lemma_ring_carve_links_both_ways(g: CircleGridV, s: CellCoord, d: RingDirection)
    requires
        g.wf(),
        g.in_grid(s),
        g.cell_in_dir(s, d) is Some,
        g.cell_in_dir(s, d) != Some(s),
    ensures
        ({
            let e = g.cell_in_dir(s, d).unwrap();
            let h = g.carved(s, d);
            &&& h.cell_at(s) matches Some(cs) && ring_link(cs, d) == Some(e) && cs.part_of_maze
            &&& h.cell_at(e) matches Some(ce) && ring_link(ce, ring_back(d)) == Some(s) && ce.part_of_maze
            &&& same_shape(g, h)
        }),
{
    lemma_step_in_grid(g, s, d);
}

/// Stepping along a ring, or outward, and then back in the opposite
/// direction returns to the segment started from.
pub proof fn lemma_ring_step_back(g: CircleGridV, c: CellCoord, d: RingDirection)
    requires
        g.wf(),
        g.in_grid(c),
        !(d is Inward1) && !(d is Inward2),
        g.cell_in_dir(c, d) is Some,
    ensures
        g.cell_in_dir(g.cell_in_dir(c, d).unwrap(), ring_back(d)) == Some(c),
{
    lemma_step_in_grid(g, c, d);
}

} // verus!
