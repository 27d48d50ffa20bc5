//! The square grid: cells stored row by row, passages carved between
//! neighbours, the entrance and exit, and dead ends.
use vstd::prelude::*;
use crate::maze_maker::grids::{Cell, CellCoord, Direction};
use crate::maze_maker::grids::square_cell::{Point, SquareCell, shifted, square_draw_fits, square_walls};
use crate::maze_maker::grids::Color;
use crate::random::{random_below, random_ratio};

verus! {

/// A grid of `width` by `height` square cells. The cell at column `x` and row
/// `y` is stored at index `y * width + x`.
pub struct SquareGrid2D {
    cells: Vec<SquareCell>,
    pub width: i32,
    pub height: i32,
    pub cell_inset: i32,
    pub cell_size: i32,
    pub margin: i32,
    entrance: CellCoord,
    exit: CellCoord,
    has_solution: bool,
    dead_ends: Vec<CellCoord>,
}

/// The value of a grid.
pub struct GridV {
    pub cells: Seq<SquareCell>,
    pub width: i32,
    pub height: i32,
    pub cell_inset: i32,
    pub cell_size: i32,
    pub margin: i32,
    pub entrance: CellCoord,
    pub exit: CellCoord,
    pub has_solution: bool,
    pub dead_ends: Seq<CellCoord>,
}

impl View for SquareGrid2D {
    type V = GridV;

    closed spec fn view(&self) -> GridV {
        GridV {
            cells: self.cells@,
            width: self.width,
            height: self.height,
            cell_inset: self.cell_inset,
            cell_size: self.cell_size,
            margin: self.margin,
            entrance: self.entrance,
            exit: self.exit,
            has_solution: self.has_solution,
            dead_ends: self.dead_ends@,
        }
    }
}

/// The number of cells of a `w` by `h` grid.
pub open spec fn ncells(w: int, h: int) -> int {
    if w > 0 && h > 0 {
        w * h
    } else {
        0
    }
}

/// Every index of a cell at or next to the grid fits in an `i32`.
pub open spec fn dims_fit(w: int, h: int) -> bool {
    w >= 0 && h >= 0 ==> (w + 1) * (h + 1) <= i32::MAX
}

/// The storage index of the cell at `c`.
pub open spec fn index_of(c: CellCoord, w: int) -> int {
    c.y_pos * w + c.x_pos
}

/// `c` is a cell of a `w` by `h` grid.
pub open spec fn in_grid(c: CellCoord, w: int, h: int) -> bool {
    0 <= c.x_pos < w && 0 <= c.y_pos < h
}

/// The index of `c` can be computed in `i32` arithmetic.
pub open spec fn index_fits(c: CellCoord, w: int) -> bool {
    i32::MIN <= c.y_pos * w <= i32::MAX && i32::MIN <= c.y_pos * w + c.x_pos <= i32::MAX
}

/// The neighbouring position of `c` in direction `d` can be computed in
/// `i32` arithmetic.
pub open spec fn step_fits(c: CellCoord) -> bool {
    i32::MIN < c.x_pos < i32::MAX && i32::MIN < c.y_pos < i32::MAX
}

/// The position one step from `c` in direction `d`: north is up a row, south
/// down a row, east and west a column; the diagonal directions stay.
pub open spec fn step(c: CellCoord, d: Direction) -> CellCoord {
    CellCoord {
        x_pos: match d {
            Direction::West => (c.x_pos - 1) as i32,
            Direction::East => (c.x_pos + 1) as i32,
            _ => c.x_pos,
        },
        y_pos: match d {
            Direction::South => (c.y_pos - 1) as i32,
            Direction::North => (c.y_pos + 1) as i32,
            _ => c.y_pos,
        },
    }
}

/// The four directions a square cell has sides in.
pub open spec fn is_side(d: Direction) -> bool {
    d is North || d is South || d is East || d is West
}

/// The direction back.
pub open spec fn opposite(d: Direction) -> Direction {
    match d {
        Direction::North => Direction::South,
        Direction::South => Direction::North,
        Direction::East => Direction::West,
        Direction::West => Direction::East,
        Direction::NorthEast => Direction::SouthWest,
        Direction::SouthWest => Direction::NorthEast,
        Direction::NorthWest => Direction::SouthEast,
        Direction::SouthEast => Direction::NorthWest,
    }
}

/// The link of a cell through its side in direction `d`.
pub open spec fn link(c: SquareCell, d: Direction) -> Option<CellCoord> {
    match d {
        Direction::North => c.top,
        Direction::South => c.bottom,
        Direction::East => c.right,
        Direction::West => c.left,
        _ => None,
    }
}

/// The starting cell of a carve: part of the maze, linked to `end` through
/// its side in direction `d`.
pub open spec fn link_start(c: SquareCell, d: Direction, end: CellCoord) -> SquareCell {
    let c = SquareCell { part_of_maze: true, ..c };
    match d {
        Direction::North => SquareCell { top: Some(end), ..c },
        Direction::South => SquareCell { bottom: Some(end), ..c },
        Direction::East => SquareCell { right: Some(end), ..c },
        Direction::West => SquareCell { left: Some(end), ..c },
        _ => c,
    }
}

/// The end cell of a carve: part of the maze, linked back to `start`
/// through its side facing it.
pub open spec fn link_end(c: SquareCell, d: Direction, start: CellCoord) -> SquareCell {
    let c = SquareCell { part_of_maze: true, ..c };
    match d {
        Direction::North => SquareCell { bottom: Some(start), ..c },
        Direction::South => SquareCell { top: Some(start), ..c },
        Direction::East => SquareCell { left: Some(start), ..c },
        Direction::West => SquareCell { right: Some(start), ..c },
        _ => c,
    }
}

/// The bounds check of a carve: both ends have no negative coordinate and
/// none beyond the width or height (the width and height themselves pass).
pub open spec fn carve_in_bounds(w: int, h: int, s: CellCoord, e: CellCoord) -> bool {
    !(s.x_pos < 0 || e.x_pos < 0 || s.y_pos < 0 || e.y_pos < 0 || s.x_pos > w || e.x_pos > w || s.y_pos
        > h || e.y_pos > h)
}

/// The cells after carving from `start` in direction `d`: where the bounds
/// check passes, the cell stored at the index of `start` (if any) is linked
/// to the end, then the cell stored at the index of the end (if any) is
/// linked back.
pub open spec fn carve_cells(cells: Seq<SquareCell>, w: int, h: int, start: CellCoord, d: Direction) -> Seq<
    SquareCell,
> {
    let end = step(start, d);
    if !carve_in_bounds(w, h, start, end) {
        cells
    } else {
        let si = index_of(start, w);
        let c1 = if 0 <= si < cells.len() {
            cells.update(si, link_start(cells[si], d, end))
        } else {
            cells
        };
        let ei = index_of(end, w);
        if 0 <= ei < c1.len() {
            c1.update(ei, link_end(c1[ei], d, start))
        } else {
            c1
        }
    }
}

/// The walled sides of a cell, in the order north, south, west, east.
pub open spec fn walls_of(c: SquareCell) -> Seq<Direction> {
    (if c.top is None {
        seq![Direction::North]
    } else {
        Seq::empty()
    }) + (if c.bottom is None {
        seq![Direction::South]
    } else {
        Seq::empty()
    }) + (if c.left is None {
        seq![Direction::West]
    } else {
        Seq::empty()
    }) + (if c.right is None {
        seq![Direction::East]
    } else {
        Seq::empty()
    })
}

/// The positions of the first `n` cells that have exactly one neighbour.
pub open spec fn dead_end_coords(cells: Seq<SquareCell>, n: nat) -> Seq<CellCoord>
    decreases n,
{
    if n == 0 {
        Seq::empty()
    } else {
        dead_end_coords(cells, (n - 1) as nat) + if cells[n - 1].neighbours().len() == 1 {
            seq![cells[n - 1].coord]
        } else {
            Seq::empty()
        }
    }
}

/// The cells after carving, one after the other, from the first `n` wall
/// sets, each through its wall picked by `picks`.
pub open spec fn carve_all(
    cells: Seq<SquareCell>,
    w: int,
    h: int,
    sets: Seq<(CellCoord, Seq<Direction>)>,
    picks: Seq<usize>,
    n: nat,
) -> Seq<SquareCell>
    decreases n,
{
    if n == 0 {
        cells
    } else {
        let k = n - 1;
        carve_cells(carve_all(cells, w, h, sets, picks, k as nat), w, h, sets[k].0, sets[k].1[picks[k] as int])
    }
}

/// Row-major indices of cells of the grid lie within the cells.
pub proof fn lemma_index_in_grid(c: CellCoord, w: int, h: int)
    requires
        in_grid(c, w, h),
    ensures
        0 <= index_of(c, w) < ncells(w, h),
        0 <= c.y_pos * w,
{
    let x = c.x_pos as int;
    let y = c.y_pos as int;
    assert(0 <= y * w && y * w + x < w * h) by (nonlinear_arith)
        requires
            0 <= x < w,
            0 <= y < h,
    ;
}

/// Indices of positions at or next to the grid fit in an `i32`.
pub proof fn lemma_index_fits(c: CellCoord, w: int, h: int)
    requires
        dims_fit(w, h),
        0 <= c.x_pos <= w,
        0 <= c.y_pos <= h,
    ensures
        index_fits(c, w),
        0 <= index_of(c, w),
{
    let x = c.x_pos as int;
    let y = c.y_pos as int;
    assert(0 <= y * w && y * w + x <= (w + 1) * (h + 1)) by (nonlinear_arith)
        requires
            0 <= x <= w,
            0 <= y <= h,
    ;
}

/// The product of two `i32` values fits in an `i64`.
pub proof fn lemma_i32_product_fits(a: i32, b: i32)
    ensures
        i64::MIN <= a * b <= i64::MAX,
{
    let x = a as int;
    let y = b as int;
    assert(-0x4000_0000_0000_0000 <= x * y <= 0x4000_0000_0000_0000) by (nonlinear_arith)
        requires
            -0x8000_0000 <= x <= 0x7fff_ffff,
            -0x8000_0000 <= y <= 0x7fff_ffff,
    ;
}

impl GridV {
    /// The grid holds `width * height` cells (none for a non-positive side),
    /// each at a position of the grid; its dead ends are positions of the
    /// grid; and indices of positions at or next to the grid fit in an `i32`.
    pub open spec fn wf(self) -> bool {
        &&& self.cells.len() == ncells(self.width as int, self.height as int)
        &&& dims_fit(self.width as int, self.height as int)
        &&& forall|i: int|
            0 <= i < self.cells.len() ==> in_grid(#[trigger] self.cells[i].coord, self.width as int, self.height as int)
        &&& forall|i: int|
            0 <= i < self.dead_ends.len() ==> in_grid(#[trigger] self.dead_ends[i], self.width as int, self.height as int)
    }

    /// `keep` has a flag for each dead end, and `picks` picks a wall for each
    /// dead end kept.
    pub open spec fn valid_picks(self, keep: Seq<bool>, picks: Seq<usize>) -> bool {
        let sets = self.kept_walls(keep, self.dead_ends.len());
        &&& keep.len() == self.dead_ends.len()
        &&& picks.len() == sets.len()
        &&& forall|i: int| 0 <= i < sets.len() ==> #[trigger] picks[i] < sets[i].1.len()
    }

    /// The grid after carving from each dead end that `keep` keeps through
    /// the wall that `picks` picks for it.
    pub open spec fn dead_ends_opened(self, keep: Seq<bool>, picks: Seq<usize>) -> GridV {
        let sets = self.kept_walls(keep, self.dead_ends.len());
        GridV { cells: carve_all(self.cells, self.width as int, self.height as int, sets, picks, sets.len()), ..self }
    }

    /// The cell stored at the index of `c`, if there is one.
    pub open spec fn cell_at(self, c: CellCoord) -> Option<SquareCell> {
        let i = index_of(c, self.width as int);
        if 0 <= i < self.cells.len() {
            Some(self.cells[i])
        } else {
            None
        }
    }

    /// The position next to `c` in direction `d`, where it is in the grid.
    pub open spec fn cell_in_dir(self, c: CellCoord, d: Direction) -> Option<CellCoord> {
        let t = step(c, d);
        if in_grid(t, self.width as int, self.height as int) {
            Some(t)
        } else {
            None
        }
    }

    /// A passage can be carved from `c` in direction `d`: the neighbour there
    /// is in the grid and not yet part of the maze.
    pub open spec fn can_carve(self, c: CellCoord, d: Direction) -> bool {
        match self.cell_in_dir(c, d) {
            Some(t) => match self.cell_at(t) {
                Some(cell) => !cell.part_of_maze,
                None => false,
            },
            None => false,
        }
    }

    /// The directions, among north, south, east and west in that order, in
    /// which a passage can be carved from `c`.
    pub open spec fn allowed_directions(self, c: CellCoord) -> Seq<Direction> {
        (if self.can_carve(c, Direction::North) {
            seq![Direction::North]
        } else {
            Seq::empty()
        }) + (if self.can_carve(c, Direction::South) {
            seq![Direction::South]
        } else {
            Seq::empty()
        }) + (if self.can_carve(c, Direction::East) {
            seq![Direction::East]
        } else {
            Seq::empty()
        }) + (if self.can_carve(c, Direction::West) {
            seq![Direction::West]
        } else {
            Seq::empty()
        })
    }

    /// The grid after carving from `c` in direction `d`.
    pub open spec fn carved(self, c: CellCoord, d: Direction) -> GridV {
        GridV { cells: carve_cells(self.cells, self.width as int, self.height as int, c, d), ..self }
    }

    /// For the first `n` dead ends that `keep` keeps and that have a wall:
    /// the dead end with its walls.
    pub open spec fn kept_walls(self, keep: Seq<bool>, n: nat) -> Seq<(CellCoord, Seq<Direction>)>
        decreases n,
    {
        if n == 0 {
            Seq::empty()
        } else {
            let prev = self.kept_walls(keep, (n - 1) as nat);
            let d = self.dead_ends[n - 1];
            let ws = walls_of(self.cells[index_of(d, self.width as int)]);
            if keep[n - 1] && ws.len() > 0 {
                prev.push((d, ws))
            } else {
                prev
            }
        }
    }
}

/// The cell of a grid at its start position.
pub open spec fn default_cell(c: CellCoord) -> SquareCell {
    SquareCell {
        bottom: None,
        left: None,
        top: None,
        right: None,
        coord: c,
        part_of_maze: false,
        color: None,
        distance: -1i32,
    }
}

/// Wall sets as values.
pub open spec fn sets_view(sets: Seq<(CellCoord, Vec<Direction>)>) -> Seq<(CellCoord, Seq<Direction>)> {
    sets.map_values(|p: (CellCoord, Vec<Direction>)| (p.0, p.1@))
}

impl SquareGrid2D {
    /// A grid of `width` by `height` walled cells, stored row by row, with no
    /// entrance or exit yet (both at `(-1, -1)`), no solution and no dead ends.
    pub fn new(width: i32, height: i32, cell_size: i32, cell_inset: i32, margin: i32) -> (g: SquareGrid2D)
        requires
            dims_fit(width as int, height as int),
        ensures
            g@.wf(),
            g@.width == width,
            g@.height == height,
            g@.cell_size == cell_size,
            g@.cell_inset == cell_inset,
            g@.margin == margin,
            g@.entrance == (CellCoord { x_pos: -1i32, y_pos: -1i32 }),
            g@.exit == (CellCoord { x_pos: -1i32, y_pos: -1i32 }),
            !g@.has_solution,
            g@.dead_ends.len() == 0,
            forall|c: CellCoord| in_grid(c, width as int, height as int) ==> #[trigger] g@.cell_at(c) == Some(
                default_cell(c),
            ),
    {
        let mut cells: Vec<SquareCell> = Vec::new();
        let mut y: i32 = 0;
        while y < height
            invariant
                0 <= y <= height || height < 0 && y == 0,
                width > 0 ==> cells@.len() == y * width,
                width <= 0 ==> cells@.len() == 0,
                dims_fit(width as int, height as int),
                forall|i: int| 0 <= i < cells@.len() ==> in_grid(#[trigger] cells@[i].coord, width as int, height as int),
                forall|c: CellCoord|
                    0 <= c.x_pos < width && 0 <= c.y_pos < y ==> #[trigger] index_of(c, width as int) < cells@.len()
                        && cells@[index_of(c, width as int)] == default_cell(c),
            decreases height - y,
        {
            let mut x: i32 = 0;
            let ghost row_start = cells@.len();
            while x < width
                invariant
                    0 <= y < height,
                    0 <= x <= width || width < 0 && x == 0,
                    width > 0 ==> row_start == y * width,
                    width <= 0 ==> row_start == 0,
                    cells@.len() == row_start + x,
                    dims_fit(width as int, height as int),
                    forall|i: int|
                        0 <= i < cells@.len() ==> in_grid(#[trigger] cells@[i].coord, width as int, height as int),
                    forall|c: CellCoord|
                        0 <= c.x_pos < width && 0 <= c.y_pos < y ==> #[trigger] index_of(c, width as int)
                            < row_start && cells@[index_of(c, width as int)] == default_cell(c),
                    forall|c: CellCoord|
                        0 <= c.x_pos < x && c.y_pos == y ==> #[trigger] index_of(c, width as int) < cells@.len()
                            && cells@[index_of(c, width as int)] == default_cell(c),
                decreases width - x,
            {
                let ghost before = cells@;
                cells.push(SquareCell::default(x, y));
                proof {
                    assert forall|c: CellCoord|
                        0 <= c.x_pos < x + 1 && c.y_pos == y implies #[trigger] index_of(c, width as int)
                            < cells@.len() && cells@[index_of(c, width as int)] == default_cell(c) by {
                        if c.x_pos < x {
                            assert(before[index_of(c, width as int)] == default_cell(c));
                        } else {
                            assert(index_of(c, width as int) == before.len());
                        }
                    }
                }
                x = x + 1;
            }
            proof {
                if width > 0 {
                    assert(row_start + width == (y + 1) * width) by (nonlinear_arith)
                        requires
                            row_start == y * width,
                    ;
                }
                assert forall|c: CellCoord|
                    0 <= c.x_pos < width && 0 <= c.y_pos < y + 1 implies #[trigger] index_of(c, width as int)
                        < cells@.len() && cells@[index_of(c, width as int)] == default_cell(c) by {
                    if c.y_pos < y {
                        assert(index_of(c, width as int) < row_start);
                    } else {
                        assert(c.y_pos == y);
                    }
                }
            }
            y = y + 1;
        }
        proof {
            if width > 0 && height > 0 {
                assert(cells@.len() == width * height) by (nonlinear_arith)
                    requires
                        cells@.len() == y * width,
                        y == height,
                ;
            }
            if width > 0 && height <= 0 {
                assert(y == 0);
            }
        }
        let g = SquareGrid2D {
            cells,
            width,
            height,
            cell_inset,
            cell_size,
            margin,
            entrance: CellCoord::new(-1, -1),
            exit: CellCoord::new(-1, -1),
            has_solution: false,
            dead_ends: Vec::new(),
        };
        proof {
            assert forall|c: CellCoord| in_grid(c, width as int, height as int) implies #[trigger] g@.cell_at(c)
                == Some(default_cell(c)) by {
                lemma_index_in_grid(c, width as int, height as int);
                assert(index_of(c, width as int) < g@.cells.len());
            }
        }
        g
    }

    /// Sets the distance of every cell to `-1`.
    pub fn reset_cell_dist(&mut self)
        requires
            old(self)@.wf(),
        ensures
            final(self)@ == (GridV {
                cells: old(self)@.cells.map_values(|c: SquareCell| SquareCell { distance: -1i32, ..c }),
                ..old(self)@
            }),
            final(self)@.wf(),
    {
        let ghost start = self@;
        let mut i: usize = 0;
        while i < self.cells.len()
            invariant
                i <= self.cells@.len(),
                self.cells@.len() == start.cells.len(),
                self@ == (GridV { cells: self.cells@, ..start }),
                forall|j: int| 0 <= j < i ==> #[trigger] self.cells@[j] == (SquareCell { distance: -1i32, ..start.cells[j] }),
                forall|j: int| i <= j < self.cells@.len() ==> #[trigger] self.cells@[j] == start.cells[j],
            decreases self.cells@.len() - i,
        {
            let mut c = self.cells[i];
            c.distance = -1;
            self.cells.set(i, c);
            i = i + 1;
        }
        proof {
            assert(self.cells@ =~= start.cells.map_values(|c: SquareCell| SquareCell { distance: -1i32, ..c }));
        }
    }

    /// The cell stored at the index of `coord`, if there is one.
    fn get_cell_internal(&self, coord: CellCoord) -> (r: Option<&SquareCell>)
        requires
            index_fits(coord, self.width as int),
        ensures
            r matches Some(c) ==> self@.cell_at(coord) == Some(*c),
            r is None ==> self@.cell_at(coord) is None,
    {
        let index = coord.y_pos * self.width + coord.x_pos;
        if index >= 0 && (index as usize) < self.cells.len() {
            return Some(&self.cells[index as usize]);
        }
        None
    }

    /// The cell stored at the index of `coord`, if there is one.
    pub fn get_cell(&self, coord: CellCoord) -> (r: Option<&SquareCell>)
        requires
            index_fits(coord, self@.width as int),
        ensures
            r matches Some(c) ==> self@.cell_at(coord) == Some(*c),
            r is None ==> self@.cell_at(coord) is None,
    {
        if let Some(c) = self.get_cell_internal(coord) {
            return Some(c);
        }
        None
    }

    /// The position next to `coord` in direction `dir`, where it is in the grid.
    pub fn get_cell_in_dir(&self, coord: CellCoord, dir: Direction) -> (r: Option<CellCoord>)
        requires
            step_fits(coord),
        ensures
            r == self@.cell_in_dir(coord, dir),
    {
        let target_x = match dir {
            Direction::West => coord.x_pos - 1,
            Direction::East => coord.x_pos + 1,
            _ => coord.x_pos,
        };
        let target_y = match dir {
            Direction::South => coord.y_pos - 1,
            Direction::North => coord.y_pos + 1,
            _ => coord.y_pos,
        };
        if target_x < 0 || target_x >= self.width || target_y < 0 || target_y >= self.height {
            return None;
        }
        Some(CellCoord::new(target_x, target_y))
    }

    /// Whether a passage can be carved from `coord` in direction `dir`.
    pub fn can_carve(&self, coord: CellCoord, dir: Direction) -> (r: bool)
        requires
            self@.wf(),
            step_fits(coord),
        ensures
            r == self@.can_carve(coord, dir),
    {
        if let Some(cell_coord) = self.get_cell_in_dir(coord, dir) {
            proof {
                lemma_index_fits(cell_coord, self.width as int, self.height as int);
            }
            if let Some(cell) = self.get_cell(cell_coord) {
                return !cell.is_part_of_maze();
            }
        }
        false
    }

    /// Carves a passage from `coord_start` in direction `dir`: where both
    /// ends pass the bounds check, the cells stored at their indices become
    /// part of the maze and are linked to each other.
    #[verifier::spinoff_prover]
    pub fn carve(&mut self, coord_start: CellCoord, dir: Direction)
        requires
            old(self)@.wf(),
            step_fits(coord_start),
        ensures
            final(self)@ == old(self)@.carved(coord_start, dir),
            final(self)@.wf(),
    {
        let ghost start = self@;
        let x_end = match dir {
            Direction::West => coord_start.x_pos - 1,
            Direction::East => coord_start.x_pos + 1,
            _ => coord_start.x_pos,
        };
        let y_end = match dir {
            Direction::South => coord_start.y_pos - 1,
            Direction::North => coord_start.y_pos + 1,
            _ => coord_start.y_pos,
        };
        let coord_end = CellCoord { x_pos: x_end, y_pos: y_end };
        proof {
            assert(coord_end == step(coord_start, dir));
        }
        if coord_start.x_pos < 0 || coord_end.x_pos < 0 || coord_start.y_pos < 0 || coord_end.y_pos < 0
            || coord_start.x_pos > self.width || coord_end.x_pos > self.width || coord_start.y_pos
            > self.height || coord_end.y_pos > self.height {
            return;
        }
        proof {
            lemma_index_fits(coord_start, self.width as int, self.height as int);
            lemma_index_fits(coord_end, self.width as int, self.height as int);
        }
        let si = coord_start.y_pos * self.width + coord_start.x_pos;
        if (si as usize) < self.cells.len() {
            let mut start_cell = self.cells[si as usize];
            start_cell.part_of_maze = true;
            match dir {
                Direction::North => {
                    start_cell.top = Some(coord_end);
                },
                Direction::South => {
                    start_cell.bottom = Some(coord_end);
                },
                Direction::East => {
                    start_cell.right = Some(coord_end);
                },
                Direction::West => {
                    start_cell.left = Some(coord_end);
                },
                _ => {},
            }
            self.cells.set(si as usize, start_cell);
        }
        let ghost c1 = self.cells@;
        let ei = coord_end.y_pos * self.width + coord_end.x_pos;
        if (ei as usize) < self.cells.len() {
            let mut end_cell = self.cells[ei as usize];
            end_cell.part_of_maze = true;
            match dir {
                Direction::North => {
                    end_cell.bottom = Some(coord_start);
                },
                Direction::South => {
                    end_cell.top = Some(coord_start);
                },
                Direction::East => {
                    end_cell.left = Some(coord_start);
                },
                Direction::West => {
                    end_cell.right = Some(coord_start);
                },
                _ => {},
            }
            self.cells.set(ei as usize, end_cell);
        }
        proof {
            assert(self.cells@ =~= carve_cells(start.cells, start.width as int, start.height as int, coord_start, dir));
            assert forall|i: int| 0 <= i < self.cells@.len() implies in_grid(
                #[trigger] self.cells@[i].coord,
                self.width as int,
                self.height as int,
            ) by {
                assert(self.cells@[i].coord == start.cells[i].coord);
            }
        }
    }

    /// The directions, among north, south, east and west in that order, in
    /// which a passage can be carved from `coord`.
    pub fn get_allowed_directions(&self, coord: CellCoord) -> (dirs: Vec<Direction>)
        requires
            self@.wf(),
            step_fits(coord),
        ensures
            dirs@ == self@.allowed_directions(coord),
    {
        let mut dirs = Vec::new();
        if self.can_carve(coord, Direction::North) {
            dirs.push(Direction::North);
        }
        if self.can_carve(coord, Direction::South) {
            dirs.push(Direction::South);
        }
        if self.can_carve(coord, Direction::East) {
            dirs.push(Direction::East);
        }
        if self.can_carve(coord, Direction::West) {
            dirs.push(Direction::West);
        }
        proof {
            assert(dirs@ =~= self@.allowed_directions(coord));
        }
        dirs
    }

    /// Places the entrance in the middle of the first row and the exit in the
    /// middle of the last, and opens the entrance's bottom and the exit's top
    /// to the outside, marked `(-1, -1)`.
    pub fn init(&mut self)
        requires
            old(self)@.wf(),
            old(self)@.width > 0,
            old(self)@.height > 0,
        ensures
            ({
                let g = old(self)@;
                let outside = Some(CellCoord { x_pos: -1i32, y_pos: -1i32 });
                let entrance = CellCoord { x_pos: (g.width / 2) as i32, y_pos: 0 };
                let exit = CellCoord { x_pos: (g.width / 2) as i32, y_pos: (g.height - 1) as i32 };
                let ie = index_of(entrance, g.width as int);
                let ix = index_of(exit, g.width as int);
                let c1 = g.cells.update(ie, SquareCell { bottom: outside, ..g.cells[ie] });
                &&& final(self)@ == (GridV {
                    entrance: entrance,
                    exit: exit,
                    cells: c1.update(ix, SquareCell { top: outside, ..c1[ix] }),
                    ..g
                })
                &&& 0 <= ie < g.cells.len()
                &&& 0 <= ix < g.cells.len()
            }),
            final(self)@.wf(),
    {
        let ghost g = self@;
        self.entrance = CellCoord::new(self.width / 2, 0);
        self.exit = CellCoord::new(self.width / 2, self.height - 1);
        proof {
            lemma_index_in_grid(self.entrance, self.width as int, self.height as int);
            lemma_index_in_grid(self.exit, self.width as int, self.height as int);
            lemma_index_fits(self.entrance, self.width as int, self.height as int);
            lemma_index_fits(self.exit, self.width as int, self.height as int);
        }
        let ie = (self.entrance.y_pos * self.width + self.entrance.x_pos) as usize;
        let mut c = self.cells[ie];
        c.bottom = Some(CellCoord { x_pos: -1i32, y_pos: -1i32 });
        self.cells.set(ie, c);
        let ix = (self.exit.y_pos * self.width + self.exit.x_pos) as usize;
        let mut c = self.cells[ix];
        c.top = Some(CellCoord { x_pos: -1i32, y_pos: -1i32 });
        self.cells.set(ix, c);
        proof {
            assert forall|i: int| 0 <= i < self.cells@.len() implies in_grid(
                #[trigger] self.cells@[i].coord,
                self.width as int,
                self.height as int,
            ) by {
                assert(self.cells@[i].coord == g.cells[i].coord);
            }
        }
    }

    /// The size of the grid in pixels: the numbers of cells across and down
    /// times the cell size.
    pub fn get_size_in_pixels(&self) -> (r: (i64, i64))
        ensures
            r.0 == self@.width * self@.cell_size,
            r.1 == self@.height * self@.cell_size,
    {
        proof {
            lemma_i32_product_fits(self.width, self.cell_size);
            lemma_i32_product_fits(self.height, self.cell_size);
        }
        (self.width as i64 * self.cell_size as i64, self.height as i64 * self.cell_size as i64)
    }

    pub fn get_num_cells_horizontal(&self) -> (r: i32)
        ensures
            r == self@.width,
    {
        self.width
    }

    pub fn get_num_cells_vertical(&self) -> (r: i32)
        ensures
            r == self@.height,
    {
        self.height
    }

    pub fn get_cell_size(&self) -> (r: i32)
        ensures
            r == self@.cell_size,
    {
        self.cell_size
    }

    pub fn get_margin(&self) -> (r: i32)
        ensures
            r == self@.margin,
    {
        self.margin
    }

    pub fn get_entrance(&self) -> (r: CellCoord)
        ensures
            r == self@.entrance,
    {
        self.entrance
    }

    pub fn get_exit(&self) -> (r: CellCoord)
        ensures
            r == self@.exit,
    {
        self.exit
    }

    pub fn has_solution(&self) -> (r: bool)
        ensures
            r == self@.has_solution,
    {
        self.has_solution
    }

    pub fn set_has_solution(&mut self, has_solution: bool)
        ensures
            final(self)@ == (GridV { has_solution: has_solution, ..old(self)@ }),
    {
        self.has_solution = has_solution;
    }

    /// Forgets the solution: no cell keeps a colour or a distance.
    pub fn clear_solution(&mut self)
        requires
            old(self)@.wf(),
        ensures
            final(self)@ == (GridV {
                has_solution: false,
                cells: old(self)@.cells.map_values(
                    |c: SquareCell| SquareCell { color: None, distance: -1i32, ..c },
                ),
                ..old(self)@
            }),
            final(self)@.wf(),
    {
        self.set_has_solution(false);
        let ghost start = self@;
        let mut i: usize = 0;
        while i < self.cells.len()
            invariant
                i <= self.cells@.len(),
                self.cells@.len() == start.cells.len(),
                self@ == (GridV { cells: self.cells@, ..start }),
                forall|j: int|
                    0 <= j < i ==> #[trigger] self.cells@[j] == (SquareCell {
                        color: None,
                        distance: -1i32,
                        ..start.cells[j]
                    }),
                forall|j: int| i <= j < self.cells@.len() ==> #[trigger] self.cells@[j] == start.cells[j],
            decreases self.cells@.len() - i,
        {
            let mut c = self.cells[i];
            c.color = None;
            c.distance = -1;
            self.cells.set(i, c);
            i = i + 1;
        }
        proof {
            assert(self.cells@ =~= start.cells.map_values(
                |c: SquareCell| SquareCell { color: None, distance: -1i32, ..c },
            ));
        }
    }

    /// Records as dead ends the positions of the cells with exactly one
    /// neighbour, in storage order.
    pub fn find_dead_ends(&mut self)
        requires
            old(self)@.wf(),
        ensures
            final(self)@ == (GridV {
                dead_ends: dead_end_coords(old(self)@.cells, old(self)@.cells.len()),
                ..old(self)@
            }),
            final(self)@.wf(),
    {
        let ghost g = self@;
        let mut deadends: Vec<CellCoord> = Vec::new();
        let mut i: usize = 0;
        while i < self.cells.len()
            invariant
                i <= self.cells@.len(),
                self@ == g,
                g.wf(),
                deadends@ == dead_end_coords(g.cells, i as nat),
                forall|j: int|
                    0 <= j < deadends@.len() ==> in_grid(#[trigger] deadends@[j], g.width as int, g.height as int),
            decreases self.cells@.len() - i,
        {
            let c = &self.cells[i];
            let num_neighbours = c.get_neighbours().len();
            if num_neighbours == 1 {
                deadends.push(c.get_coord());
            }
            i = i + 1;
        }
        self.dead_ends = deadends;
    }

    /// The number of dead ends recorded.
    pub fn count_dead_ends(&self) -> (r: usize)
        ensures
            r == self@.dead_ends.len(),
    {
        self.dead_ends.len()
    }

    /// The walls of the cell at `coord` (a position of the grid), in the
    /// order north, south, west, east.
    fn walled_neighbours(&self, coord: CellCoord) -> (r: Vec<Direction>)
        requires
            self@.wf(),
            in_grid(coord, self@.width as int, self@.height as int),
        ensures
            r@ == walls_of(self@.cells[index_of(coord, self@.width as int)]),
            0 <= index_of(coord, self@.width as int) < self@.cells.len(),
    {
        proof {
            lemma_index_in_grid(coord, self.width as int, self.height as int);
            lemma_index_fits(coord, self.width as int, self.height as int);
        }
        let cell = self.get_cell_internal(coord).unwrap();
        let mut walled_neighbors = Vec::new();
        if cell.top.is_none() {
            walled_neighbors.push(Direction::North);
        }
        if cell.bottom.is_none() {
            walled_neighbors.push(Direction::South);
        }
        if cell.left.is_none() {
            walled_neighbors.push(Direction::West);
        }
        if cell.right.is_none() {
            walled_neighbors.push(Direction::East);
        }
        proof {
            assert(walled_neighbors@ =~= walls_of(self@.cells[index_of(coord, self@.width as int)]));
        }
        walled_neighbors
    }

    /// For each dead end that `keep` keeps (one flag per dead end) and that
    /// has a wall: the dead end with its walls, in the order of the dead ends.
    pub fn kept_dead_end_walls(&self, keep: &Vec<bool>) -> (r: Vec<(CellCoord, Vec<Direction>)>)
        requires
            self@.wf(),
            keep@.len() == self@.dead_ends.len(),
        ensures
            sets_view(r@) == self@.kept_walls(keep@, self@.dead_ends.len()),
            forall|i: int| 0 <= i < r@.len() ==> in_grid(#[trigger] r@[i].0, self@.width as int, self@.height as int),
            forall|i: int| 0 <= i < r@.len() ==> #[trigger] r@[i].1@.len() > 0,
    {
        let mut wall_sets: Vec<(CellCoord, Vec<Direction>)> = Vec::new();
        let mut i: usize = 0;
        while i < self.dead_ends.len()
            invariant
                i <= self@.dead_ends.len(),
                self@.wf(),
                keep@.len() == self@.dead_ends.len(),
                sets_view(wall_sets@) == self@.kept_walls(keep@, i as nat),
                forall|j: int|
                    0 <= j < wall_sets@.len() ==> in_grid(#[trigger] wall_sets@[j].0, self@.width as int, self@.height as int),
                forall|j: int| 0 <= j < wall_sets@.len() ==> #[trigger] wall_sets@[j].1@.len() > 0,
            decreases self@.dead_ends.len() - i,
        {
            let cell_coord = self.dead_ends[i];
            if keep[i] {
                let walled_neighbors = self.walled_neighbours(cell_coord);
                if walled_neighbors.len() > 0 {
                    let ghost before = wall_sets@;
                    wall_sets.push((cell_coord, walled_neighbors));
                    proof {
                        assert(sets_view(wall_sets@) =~= sets_view(before).push(
                            (cell_coord, walls_of(self@.cells[index_of(cell_coord, self@.width as int)])),
                        ));
                    }
                }
            }
            i = i + 1;
        }
        wall_sets
    }

    /// Carves from each dead end of `sets`, one after the other, through the
    /// wall that `picks` picks for it.
    pub fn carve_walls(&mut self, sets: &Vec<(CellCoord, Vec<Direction>)>, picks: &Vec<usize>)
        requires
            old(self)@.wf(),
            picks@.len() == sets@.len(),
            forall|i: int| 0 <= i < sets@.len() ==> #[trigger] picks@[i] < sets@[i].1@.len(),
            forall|i: int| 0 <= i < sets@.len() ==> in_grid(#[trigger] sets@[i].0, old(self)@.width as int, old(self)@.height as int),
        ensures
            final(self)@ == (GridV {
                cells: carve_all(
                    old(self)@.cells,
                    old(self)@.width as int,
                    old(self)@.height as int,
                    sets_view(sets@),
                    picks@,
                    sets@.len(),
                ),
                ..old(self)@
            }),
            final(self)@.wf(),
    {
        let ghost g = self@;
        let mut i: usize = 0;
        while i < sets.len()
            invariant
                i <= sets@.len(),
                picks@.len() == sets@.len(),
                forall|k: int| 0 <= k < sets@.len() ==> #[trigger] picks@[k] < sets@[k].1@.len(),
                forall|k: int| 0 <= k < sets@.len() ==> in_grid(#[trigger] sets@[k].0, g.width as int, g.height as int),
                self@.wf(),
                self@ == (GridV {
                    cells: carve_all(g.cells, g.width as int, g.height as int, sets_view(sets@), picks@, i as nat),
                    ..g
                }),
            decreases sets@.len() - i,
        {
            let coord = sets[i].0;
            let dir = sets[i].1[picks[i]];
            self.carve(coord, dir);
            i = i + 1;
        }
    }

    /// Opens some dead ends: each is kept with chance 2 in 10, and a kept
    /// dead end with a wall is carved through one of its walls picked at
    /// random.
    pub fn remove_dead_end(&mut self)
        requires
            old(self)@.wf(),
        ensures
            exists|keep: Seq<bool>, picks: Seq<usize>|
                #[trigger] old(self)@.valid_picks(keep, picks) && final(self)@ == old(self)@.dead_ends_opened(
                    keep,
                    picks,
                ),
            final(self)@.wf(),
    {
        let mut keep: Vec<bool> = Vec::new();
        let mut i: usize = 0;
        while i < self.dead_ends.len()
            invariant
                i <= self@.dead_ends.len(),
                keep@.len() == i,
            decreases self@.dead_ends.len() - i,
        {
            keep.push(random_ratio(2, 10));
            i = i + 1;
        }
        let wall_sets = self.kept_dead_end_walls(&keep);
        let mut picks: Vec<usize> = Vec::new();
        let mut i: usize = 0;
        while i < wall_sets.len()
            invariant
                i <= wall_sets@.len(),
                picks@.len() == i,
                forall|k: int| 0 <= k < wall_sets@.len() ==> #[trigger] wall_sets@[k].1@.len() > 0,
                forall|k: int| 0 <= k < i ==> #[trigger] picks@[k] < wall_sets@[k].1@.len(),
            decreases wall_sets@.len() - i,
        {
            let random = random_below(wall_sets[i].1.len());
            picks.push(random);
            i = i + 1;
        }
        let ghost g = self@;
        self.carve_walls(&wall_sets, &picks);
        proof {
            let sets = g.kept_walls(keep@, g.dead_ends.len());
            assert(sets == sets_view(wall_sets@));
            assert forall|i: int| 0 <= i < sets.len() implies #[trigger] picks@[i] < sets[i].1.len() by {
                assert(sets[i].1 == wall_sets@[i].1@);
            }
            assert(g.valid_picks(keep@, picks@));
        }
    }
}

/// Carving between two cells of the grid through a side links each to the
/// other and makes both part of the maze.
pub proof fn lemma_carve_links_both_ways(g: GridV, c: CellCoord, d: Direction)
    requires
        g.wf(),
        is_side(d),
        g.cell_in_dir(c, d) is Some,
        in_grid(c, g.width as int, g.height as int),
    ensures
        ({
            let n = step(c, d);
            let after = g.carved(c, d);
            &&& after.cell_at(c) == Some(link_start(g.cells[index_of(c, g.width as int)], d, n))
            &&& after.cell_at(n) == Some(link_end(g.cells[index_of(n, g.width as int)], d, c))
            &&& link(after.cells[index_of(c, g.width as int)], d) == Some(n)
            &&& link(after.cells[index_of(n, g.width as int)], opposite(d)) == Some(c)
            &&& after.cells[index_of(c, g.width as int)].part_of_maze
            &&& after.cells[index_of(n, g.width as int)].part_of_maze
        }),
{
    let w = g.width as int;
    let n = step(c, d);
    lemma_index_in_grid(c, w, g.height as int);
    lemma_index_in_grid(n, w, g.height as int);
    let y = c.y_pos as int;
    assert((y + 1) * w == y * w + w && (y - 1) * w == y * w - w) by (nonlinear_arith);
    assert(index_of(c, w) != index_of(n, w));
}

/// A step to a neighbour in the grid through a side, and a step back through
/// the opposite side, return to the start.
pub proof fn lemma_cell_in_dir_back(g: GridV, c: CellCoord, d: Direction)
    requires
        is_side(d),
        in_grid(c, g.width as int, g.height as int),
        g.cell_in_dir(c, d) is Some,
    ensures
        g.cell_in_dir(g.cell_in_dir(c, d).unwrap(), opposite(d)) == Some(c),
{
}

/// Two positions of the grid with one index are one position.
proof fn lemma_index_unique(p: CellCoord, q: CellCoord, w: int, h: int)
    requires
        in_grid(p, w, h),
        in_grid(q, w, h),
        index_of(p, w) == index_of(q, w),
    ensures
        p == q,
{
    let (px, py, qx, qy) = (p.x_pos as int, p.y_pos as int, q.x_pos as int, q.y_pos as int);
    assert(py == qy) by (nonlinear_arith)
        requires
            0 <= px < w,
            0 <= qx < w,
            py * w + px == qy * w + qx,
    {
        if py < qy {
            assert(py * w + w <= qy * w);
        } else if py > qy {
            assert(qy * w + w <= py * w);
        }
    }
}

/// Every link of a cell to a position of the grid goes to the neighbour on
/// that side, and that neighbour links back through the opposite side.
pub open spec fn links_paired(g: GridV) -> bool {
    forall|c: CellCoord, d: Direction|
        #![trigger link(g.cells[index_of(c, g.width as int)], d)]
        in_grid(c, g.width as int, g.height as int) && is_side(d) && (link(
            g.cells[index_of(c, g.width as int)],
            d,
        ) matches Some(y) && in_grid(y, g.width as int, g.height as int)) ==> ({
            let y = link(g.cells[index_of(c, g.width as int)], d).unwrap();
            y == step(c, d) && link(g.cells[index_of(y, g.width as int)], opposite(d)) == Some(c)
        })
}

/// Carving keeps links paired: where every link to a cell of the grid goes
/// to the neighbour on its side and is returned, it still is after a carve
/// through a side to a neighbour in the grid. (Links to cells that are not
/// neighbours are not kept paired: a carve replaces the link on its side.)
pub proof fn lemma_carve_keeps_links_paired(g: GridV, c: CellCoord, d: Direction)
    requires
        g.wf(),
        links_paired(g),
        is_side(d),
        in_grid(c, g.width as int, g.height as int),
        g.cell_in_dir(c, d) is Some,
    ensures
        links_paired(g.carved(c, d)),
{
    let w = g.width as int;
    let h = g.height as int;
    let n = step(c, d);
    let after = g.carved(c, d);
    lemma_carve_links_both_ways(g, c, d);
    lemma_index_in_grid(c, w, h);
    lemma_index_in_grid(n, w, h);
    let ci = index_of(c, w);
    let ni = index_of(n, w);
    assert(after.cells == g.cells.update(ci, link_start(g.cells[ci], d, n)).update(
        ni,
        link_end(g.cells[ni], d, c),
    ));
    assert forall|p: CellCoord, e: Direction|
        #![trigger link(after.cells[index_of(p, w)], e)]
        in_grid(p, w, h) && is_side(e) && (link(after.cells[index_of(p, w)], e) matches Some(y) && in_grid(y, w, h))
            implies ({
        let y = link(after.cells[index_of(p, w)], e).unwrap();
        y == step(p, e) && link(after.cells[index_of(y, w)], opposite(e)) == Some(p)
    }) by {
        lemma_index_in_grid(p, w, h);
        let pi = index_of(p, w);
        if pi == ci {
            lemma_index_unique(p, c, w, h);
        }
        if pi == ni {
            lemma_index_unique(p, n, w, h);
        }
        let y = link(after.cells[pi], e).unwrap();
        lemma_index_in_grid(y, w, h);
        let yi = index_of(y, w);
        if yi == ci {
            lemma_index_unique(y, c, w, h);
        }
        if yi == ni {
            lemma_index_unique(y, n, w, h);
        }
        if pi != ci && pi != ni {
            assert(after.cells[pi] == g.cells[pi]);
            assert(link(g.cells[index_of(p, w)], e) == Some(y));
            if yi != ci && yi != ni {
                assert(after.cells[yi] == g.cells[yi]);
            }
        } else if pi == ci && e != d {
            assert(link(g.cells[index_of(p, w)], e) == Some(y));
            assert(y != n);
            assert(yi != ci);
            assert(after.cells[yi] == g.cells[yi]);
        } else if pi == ni && e != opposite(d) {
            assert(link(g.cells[index_of(p, w)], e) == Some(y));
            assert(y != c);
            assert(yi != ni);
            assert(after.cells[yi] == g.cells[yi]);
        }
    }
}

/// The wall lines of the cells, cell after cell.
pub open spec fn grid_walls(cells: Seq<SquareCell>, size: int, margin: int) -> Seq<(Point, Point)>
    decreases cells.len(),
{
    if cells.len() == 0 {
        Seq::empty()
    } else {
        grid_walls(cells.drop_last(), size, margin) + square_walls(cells.last(), size, margin)
    }
}

/// The rectangle and colour of each cell that has a colour, cell after
/// cell.
pub open spec fn grid_backgrounds(cells: Seq<SquareCell>, size: int, margin: int) -> Seq<(Point, Point, Color)>
    decreases cells.len(),
{
    if cells.len() == 0 {
        Seq::empty()
    } else {
        let c = cells.last();
        let x = c.coord.x_pos as int;
        let y = c.coord.y_pos as int;
        grid_backgrounds(cells.drop_last(), size, margin) + match c.color {
            Some(color) => seq![
                (shifted(x * size, y * size, margin), shifted((x + 1) * size, (y + 1) * size, margin), color),
            ],
            None => Seq::empty(),
        }
    }
}

impl SquareGrid2D {
    /// Every cell can be drawn at the grid's cell size and margin.
    pub open spec fn drawable(&self) -> bool {
        forall|i: int|
            0 <= i < self@.cells.len() ==> square_draw_fits(
                #[trigger] self@.cells[i].coord,
                self@.cell_size as int,
                self@.cell_size as int,
                self@.margin as int,
            )
    }

    /// The lines of the walls of all cells (see `square_walls`).
    pub fn draw(&self) -> (r: Vec<(Point, Point)>)
        requires
            self.drawable(),
        ensures
            r@ == grid_walls(self@.cells, self@.cell_size as int, self@.margin as int),
    {
        let mut points: Vec<(Point, Point)> = Vec::new();
        let mut i: usize = 0;
        while i < self.cells.len()
            invariant
                i <= self.cells@.len(),
                self.drawable(),
                points@ == grid_walls(self@.cells.take(i as int), self@.cell_size as int, self@.margin as int),
            decreases self.cells@.len() - i,
        {
            let mut lines = self.cells[i].draw(self.cell_inset, self.cell_size, self.margin);
            proof {
                let cs = self@.cells;
                assert(cs.take(i + 1).drop_last() =~= cs.take(i as int));
            }
            points.append(&mut lines);
            i = i + 1;
        }
        proof {
            assert(self@.cells.take(i as int) =~= self@.cells);
        }
        points
    }

    /// The rectangle and colour of each cell that has a colour.
    pub fn draw_background(&self) -> (r: Vec<(Point, Point, Color)>)
        requires
            self.drawable(),
        ensures
            r@ == grid_backgrounds(self@.cells, self@.cell_size as int, self@.margin as int),
    {
        let mut backgrounds: Vec<(Point, Point, Color)> = Vec::new();
        let mut i: usize = 0;
        while i < self.cells.len()
            invariant
                i <= self.cells@.len(),
                self.drawable(),
                backgrounds@ == grid_backgrounds(self@.cells.take(i as int), self@.cell_size as int, self@.margin as int),
            decreases self.cells@.len() - i,
        {
            let b = self.cells[i].draw_background(self.cell_size, self.cell_size, self.margin);
            proof {
                let cs = self@.cells;
                assert(cs.take(i + 1).drop_last() =~= cs.take(i as int));
            }
            if let Some(rect) = b {
                backgrounds.push(rect);
            }
            proof {
                let cs = self@.cells;
                assert(backgrounds@ =~= grid_backgrounds(cs.take(i + 1), self@.cell_size as int, self@.margin as int));
            }
            i = i + 1;
        }
        proof {
            assert(self@.cells.take(i as int) =~= self@.cells);
        }
        backgrounds
    }
}

} // verus!
