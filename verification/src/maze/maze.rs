//! The square grid of the maze generator, and its hexagonal counterpart.
use vstd::prelude::*;
use crate::maze::cell::{CellCoord, HexCell, SquareCell};
use crate::maze::common::Direction;
use crate::maze_maker::grids::square_grid::{dims_fit, ncells};
use crate::maze::djikstra::DistanceGrid;

verus! {

/// A grid of `width` by `height` square cells. The cell at column `x` and row
/// `y` is stored at index `y * width + x`.
pub struct SquareGrid2D {
    cells: Vec<SquareCell>,
    pub width: i32,
    pub height: i32,
    pub cell_inset: i32,
    pub cell_width: i32,
    pub cell_height: i32,
}

/// The value of a grid.
pub struct GridV {
    pub cells: Seq<SquareCell>,
    pub width: i32,
    pub height: i32,
    pub cell_inset: i32,
    pub cell_width: i32,
    pub cell_height: i32,
}

impl View for SquareGrid2D {
    type V = GridV;

    closed spec fn view(&self) -> GridV {
        GridV {
            cells: self.cells@,
            width: self.width,
            height: self.height,
            cell_inset: self.cell_inset,
            cell_width: self.cell_width,
            cell_height: self.cell_height,
        }
    }
}

/// The storage index of the cell at `c`.
pub open spec fn index_of(c: CellCoord, w: int) -> int {
    c.y_pos * w + c.x_pos
}

/// `c` is a cell of a `w` by `h` grid.
pub open spec fn in_grid(c: CellCoord, w: int, h: int) -> bool {
    0 <= c.x_pos < w && 0 <= c.y_pos < h
}

/// The index of `c` can be computed in `i32` arithmetic.
pub open spec fn index_fits(c: CellCoord, w: int) -> bool {
    i32::MIN <= c.y_pos * w <= i32::MAX && i32::MIN <= c.y_pos * w + c.x_pos <= i32::MAX
}

/// The neighbouring positions of `c` can be computed in `i32` arithmetic.
pub open spec fn step_fits(c: CellCoord) -> bool {
    i32::MIN < c.x_pos < i32::MAX && i32::MIN < c.y_pos < i32::MAX
}

/// The position one step from `c` in direction `d`: north is up a row, south
/// down a row, east and west a column.
pub open spec fn step(c: CellCoord, d: Direction) -> CellCoord {
    match d {
        Direction::North => CellCoord { y_pos: (c.y_pos + 1) as i32, ..c },
        Direction::South => CellCoord { y_pos: (c.y_pos - 1) as i32, ..c },
        Direction::East => CellCoord { x_pos: (c.x_pos + 1) as i32, ..c },
        Direction::West => CellCoord { x_pos: (c.x_pos - 1) as i32, ..c },
    }
}

/// The direction back.
pub open spec fn opposite(d: Direction) -> Direction {
    match d {
        Direction::North => Direction::South,
        Direction::South => Direction::North,
        Direction::East => Direction::West,
        Direction::West => Direction::East,
    }
}

/// The link of a cell through its side in direction `d`.
pub open spec fn link(c: SquareCell, d: Direction) -> Option<CellCoord> {
    match d {
        Direction::North => c.top,
        Direction::South => c.bottom,
        Direction::East => c.right,
        Direction::West => c.left,
    }
}

/// The cell, part of the maze, linked to `to` through its side `d`.
pub open spec fn linked(c: SquareCell, d: Direction, to: CellCoord) -> SquareCell {
    let c = SquareCell { part_of_maze: true, ..c };
    match d {
        Direction::North => SquareCell { top: Some(to), ..c },
        Direction::South => SquareCell { bottom: Some(to), ..c },
        Direction::East => SquareCell { right: Some(to), ..c },
        Direction::West => SquareCell { left: Some(to), ..c },
    }
}

/// The bounds check of a carve: both ends have no negative coordinate and
/// none beyond the width or height (the width and height themselves pass).
pub open spec fn carve_in_bounds(w: int, h: int, s: CellCoord, e: CellCoord) -> bool {
    !(s.x_pos < 0 || e.x_pos < 0 || s.y_pos < 0 || e.y_pos < 0 || s.x_pos > w || e.x_pos > w || s.y_pos
        > h || e.y_pos > h)
}

/// The cells after carving from `start` in direction `d`: where the bounds
/// check passes, the cell stored at the index of `start` (if any) is linked
/// to the end through side `d`, then the cell stored at the index of the end
/// (if any) is linked back through the opposite side.
pub open spec fn carve_cells(cells: Seq<SquareCell>, w: int, h: int, start: CellCoord, d: Direction) -> Seq<
    SquareCell,
> {
    let end = step(start, d);
    if !carve_in_bounds(w, h, start, end) {
        cells
    } else {
        let si = index_of(start, w);
        let c1 = if 0 <= si < cells.len() {
            cells.update(si, linked(cells[si], d, end))
        } else {
            cells
        };
        let ei = index_of(end, w);
        if 0 <= ei < c1.len() {
            c1.update(ei, linked(c1[ei], opposite(d), start))
        } else {
            c1
        }
    }
}

/// The walled cell at `c`, not part of the maze, with no colour and no
/// distance.
pub open spec fn default_cell(c: CellCoord) -> SquareCell {
    SquareCell {
        bottom: None,
        left: None,
        top: None,
        right: None,
        coord: c,
        part_of_maze: false,
        color: None,
        distance: -1i32,
    }
}

/// Row-major indices of cells of the grid lie within the cells and fit in
/// an `i32`.
pub proof fn lemma_index_in_grid(c: CellCoord, w: int, h: int)
    requires
        in_grid(c, w, h),
        dims_fit(w, h),
    ensures
        0 <= index_of(c, w) < ncells(w, h),
        index_fits(c, w),
{
    let x = c.x_pos as int;
    let y = c.y_pos as int;
    assert(0 <= y * w && y * w + x < w * h && w * h <= (w + 1) * (h + 1)) by (nonlinear_arith)
        requires
            0 <= x < w,
            0 <= y < h,
    ;
}

/// Indices of positions at or next to the grid fit in an `i32`.
pub proof fn lemma_index_fits(c: CellCoord, w: int, h: int)
    requires
        dims_fit(w, h),
        0 <= c.x_pos <= w,
        0 <= c.y_pos <= h,
    ensures
        index_fits(c, w),
        0 <= index_of(c, w),
{
    let x = c.x_pos as int;
    let y = c.y_pos as int;
    assert(0 <= y * w && y * w + x <= (w + 1) * (h + 1)) by (nonlinear_arith)
        requires
            0 <= x <= w,
            0 <= y <= h,
    ;
}

impl GridV {
    /// The grid holds `width * height` cells, each at a position of the grid,
    /// and indices of positions at or next to the grid fit in an `i32`.
    pub open spec fn wf(self) -> bool {
        &&& self.cells.len() == ncells(self.width as int, self.height as int)
        &&& dims_fit(self.width as int, self.height as int)
        &&& forall|i: int|
            0 <= i < self.cells.len() ==> in_grid(#[trigger] self.cells[i].coord, self.width as int, self.height as int)
    }

    /// The cell stored at the index of `c`, if there is one.
    pub open spec fn cell_at(self, c: CellCoord) -> Option<SquareCell> {
        let i = index_of(c, self.width as int);
        if 0 <= i < self.cells.len() {
            Some(self.cells[i])
        } else {
            None
        }
    }

    /// A passage can be carved from `c` in direction `d`: the neighbour there
    /// is in the grid and not yet part of the maze.
    pub open spec fn can_carve(self, c: CellCoord, d: Direction) -> bool {
        let t = step(c, d);
        in_grid(t, self.width as int, self.height as int) && match self.cell_at(t) {
            Some(cell) => !cell.part_of_maze,
            None => false,
        }
    }

    /// The directions, among north, south, east and west in that order, in
    /// which a passage can be carved from `c`.
    pub open spec fn allowed_directions(self, c: CellCoord) -> Seq<Direction> {
        seq![Direction::North, Direction::South, Direction::East, Direction::West].filter(
            |d: Direction| self.can_carve(c, d),
        )
    }

    /// The grid after carving from `c` in direction `d`.
    pub open spec fn carved(self, c: CellCoord, d: Direction) -> GridV {
        GridV { cells: carve_cells(self.cells, self.width as int, self.height as int, c, d), ..self }
    }
}

impl SquareGrid2D {
    /// A grid of `width` by `height` walled cells, stored row by row.
    pub fn new(width: i32, height: i32, cell_width: i32, cell_height: i32, cell_inset: i32) -> (g: SquareGrid2D)
        requires
            dims_fit(width as int, height as int),
        ensures
            g@.wf(),
            g@.width == width,
            g@.height == height,
            g@.cell_width == cell_width,
            g@.cell_height == cell_height,
            g@.cell_inset == cell_inset,
            forall|c: CellCoord| in_grid(c, width as int, height as int) ==> #[trigger] g@.cell_at(c) == Some(
                default_cell(c),
            ),
    {
        let mut cells: Vec<SquareCell> = Vec::new();
        let mut y: i32 = 0;
        while y < height
            invariant
                0 <= y <= height || height < 0 && y == 0,
                width > 0 ==> cells@.len() == y * width,
                width <= 0 ==> cells@.len() == 0,
                dims_fit(width as int, height as int),
                forall|i: int| 0 <= i < cells@.len() ==> in_grid(#[trigger] cells@[i].coord, width as int, height as int),
                forall|c: CellCoord|
                    0 <= c.x_pos < width && 0 <= c.y_pos < y ==> #[trigger] index_of(c, width as int) < cells@.len()
                        && cells@[index_of(c, width as int)] == default_cell(c),
            decreases height - y,
        {
            let mut x: i32 = 0;
            let ghost row_start = cells@.len();
            while x < width
                invariant
                    0 <= y < height,
                    0 <= x <= width || width < 0 && x == 0,
                    width > 0 ==> row_start == y * width,
                    width <= 0 ==> row_start == 0,
                    cells@.len() == row_start + x,
                    dims_fit(width as int, height as int),
                    forall|i: int|
                        0 <= i < cells@.len() ==> in_grid(#[trigger] cells@[i].coord, width as int, height as int),
                    forall|c: CellCoord|
                        0 <= c.x_pos < width && 0 <= c.y_pos < y ==> #[trigger] index_of(c, width as int)
                            < row_start && cells@[index_of(c, width as int)] == default_cell(c),
                    forall|c: CellCoord|
                        0 <= c.x_pos < x && c.y_pos == y ==> #[trigger] index_of(c, width as int) < cells@.len()
                            && cells@[index_of(c, width as int)] == default_cell(c),
                decreases width - x,
            {
                let ghost before = cells@;
                cells.push(SquareCell::default(x, y));
                proof {
                    assert forall|c: CellCoord|
                        0 <= c.x_pos < x + 1 && c.y_pos == y implies #[trigger] index_of(c, width as int)
                            < cells@.len() && cells@[index_of(c, width as int)] == default_cell(c) by {
                        if c.x_pos < x {
                            assert(before[index_of(c, width as int)] == default_cell(c));
                        } else {
                            assert(index_of(c, width as int) == before.len());
                        }
                    }
                }
                x = x + 1;
            }
            proof {
                if width > 0 {
                    assert(row_start + width == (y + 1) * width) by (nonlinear_arith)
                        requires
                            row_start == y * width,
                    ;
                }
                assert forall|c: CellCoord|
                    0 <= c.x_pos < width && 0 <= c.y_pos < y + 1 implies #[trigger] index_of(c, width as int)
                        < cells@.len() && cells@[index_of(c, width as int)] == default_cell(c) by {
                    if c.y_pos < y {
                        assert(index_of(c, width as int) < row_start);
                    } else {
                        assert(c.y_pos == y);
                    }
                }
            }
            y = y + 1;
        }
        proof {
            if width > 0 && height > 0 {
                assert(cells@.len() == width * height) by (nonlinear_arith)
                    requires
                        cells@.len() == y * width,
                        y == height,
                ;
            }
            if width > 0 && height <= 0 {
                assert(y == 0);
            }
        }
        let g = SquareGrid2D { cells, width, height, cell_inset, cell_height, cell_width };
        proof {
            assert forall|c: CellCoord| in_grid(c, width as int, height as int) implies #[trigger] g@.cell_at(c)
                == Some(default_cell(c)) by {
                lemma_index_in_grid(c, width as int, height as int);
            }
        }
        g
    }

    /// Sets the distance of every cell to `-1`.
    pub fn reset_cell_dist(&mut self)
        requires
            old(self)@.wf(),
        ensures
            final(self)@ == (GridV {
                cells: old(self)@.cells.map_values(|c: SquareCell| SquareCell { distance: -1i32, ..c }),
                ..old(self)@
            }),
            final(self)@.wf(),
    {
        let ghost start = self@;
        let mut i: usize = 0;
        while i < self.cells.len()
            invariant
                i <= self.cells@.len(),
                self.cells@.len() == start.cells.len(),
                self@ == (GridV { cells: self.cells@, ..start }),
                forall|j: int| 0 <= j < i ==> #[trigger] self.cells@[j] == (SquareCell { distance: -1i32, ..start.cells[j] }),
                forall|j: int| i <= j < self.cells@.len() ==> #[trigger] self.cells@[j] == start.cells[j],
            decreases self.cells@.len() - i,
        {
            let mut c = self.cells[i];
            c.distance = -1;
            self.cells.set(i, c);
            i = i + 1;
        }
        proof {
            assert(self.cells@ =~= start.cells.map_values(|c: SquareCell| SquareCell { distance: -1i32, ..c }));
        }
    }

    /// The index at which the cell at `coord` is stored, if one is.
    pub fn index_of_cell(&self, coord: CellCoord) -> (r: Option<usize>)
        requires
            index_fits(coord, self@.width as int),
        ensures
            r matches Some(i) ==> i == index_of(coord, self@.width as int) && i < self@.cells.len(),
            r is None ==> self@.cell_at(coord) is None,
    {
        let index = coord.y_pos * self.width + coord.x_pos;
        if index >= 0 && (index as usize) < self.cells.len() {
            return Some(index as usize);
        }
        None
    }

    /// The cell stored at the index of `coord`, if there is one.
    pub fn get_cell(&self, coord: CellCoord) -> (r: Option<&SquareCell>)
        requires
            index_fits(coord, self@.width as int),
        ensures
            r matches Some(c) ==> self@.cell_at(coord) == Some(*c),
            r is None ==> self@.cell_at(coord) is None,
    {
        match self.index_of_cell(coord) {
            Some(i) => Some(&self.cells[i]),
            None => None,
        }
    }

    /// The number of cells.
    pub fn num_cells(&self) -> (r: usize)
        ensures
            r == self@.cells.len(),
    {
        self.cells.len()
    }

    /// The cell stored at index `i`.
    pub fn cell(&self, i: usize) -> (r: &SquareCell)
        requires
            i < self@.cells.len(),
        ensures
            *r == self@.cells[i as int],
    {
        &self.cells[i]
    }

    /// Sets the distance of the cell stored at index `i`.
    pub fn set_distance(&mut self, i: usize, dist: i32)
        requires
            i < old(self)@.cells.len(),
        ensures
            final(self)@ == (GridV {
                cells: old(self)@.cells.update(i as int, SquareCell { distance: dist, ..old(self)@.cells[i as int] }),
                ..old(self)@
            }),
    {
        let mut c = self.cells[i];
        c.distance = dist;
        self.cells.set(i, c);
    }

    /// Whether a passage can be carved from `coord` in direction `dir`.
    pub fn can_carve(&self, coord: CellCoord, dir: Direction) -> (r: bool)
        requires
            self@.wf(),
            step_fits(coord),
        ensures
            r == self@.can_carve(coord, dir),
    {
        let target_x = match dir {
            Direction::West => coord.x_pos - 1,
            Direction::East => coord.x_pos + 1,
            _ => coord.x_pos,
        };
        let target_y = match dir {
            Direction::South => coord.y_pos - 1,
            Direction::North => coord.y_pos + 1,
            _ => coord.y_pos,
        };
        if target_x < 0 || target_x >= self.width || target_y < 0 || target_y >= self.height {
            return false;
        }
        let target = CellCoord::new(target_x, target_y);
        proof {
            assert(target == step(coord, dir));
            lemma_index_in_grid(target, self.width as int, self.height as int);
        }
        if let Some(target_cell) = self.get_cell(target) {
            if !target_cell.part_of_maze {
                return true;
            }
        }
        false
    }

    /// The position one step from `coord` in direction `dir`.
    pub fn get_cell_in_dir(&self, coord: CellCoord, dir: Direction) -> (r: CellCoord)
        requires
            step_fits(coord),
        ensures
            r == step(coord, dir),
    {
        match dir {
            Direction::North => CellCoord::new(coord.x_pos, coord.y_pos + 1),
            Direction::South => CellCoord::new(coord.x_pos, coord.y_pos - 1),
            Direction::East => CellCoord::new(coord.x_pos + 1, coord.y_pos),
            Direction::West => CellCoord::new(coord.x_pos - 1, coord.y_pos),
        }
    }

    /// Carves a passage from `coord_start` in direction `dir`: where both
    /// ends pass the bounds check, the cells stored at their indices become
    /// part of the maze and are linked to each other.
    pub fn carve(&mut self, coord_start: CellCoord, dir: Direction)
        requires
            old(self)@.wf(),
            step_fits(coord_start),
        ensures
            final(self)@ == old(self)@.carved(coord_start, dir),
            final(self)@.wf(),
    {
        let ghost start = self@;
        let coord_end = self.get_cell_in_dir(coord_start, dir);
        if coord_start.x_pos < 0 || coord_end.x_pos < 0 || coord_start.y_pos < 0 || coord_end.y_pos < 0
            || coord_start.x_pos > self.width || coord_end.x_pos > self.width || coord_start.y_pos
            > self.height || coord_end.y_pos > self.height {
            return;
        }
        proof {
            lemma_index_fits(coord_start, self.width as int, self.height as int);
            lemma_index_fits(coord_end, self.width as int, self.height as int);
        }
        if let Some(si) = self.index_of_cell(coord_start) {
            let mut start_cell = self.cells[si];
            start_cell.part_of_maze = true;
            match dir {
                Direction::North => {
                    start_cell.top = Some(coord_end);
                },
                Direction::South => {
                    start_cell.bottom = Some(coord_end);
                },
                Direction::East => {
                    start_cell.right = Some(coord_end);
                },
                Direction::West => {
                    start_cell.left = Some(coord_end);
                },
            }
            self.cells.set(si, start_cell);
        }
        if let Some(ei) = self.index_of_cell(coord_end) {
            let mut end_cell = self.cells[ei];
            end_cell.part_of_maze = true;
            match dir {
                Direction::North => {
                    end_cell.bottom = Some(coord_start);
                },
                Direction::South => {
                    end_cell.top = Some(coord_start);
                },
                Direction::East => {
                    end_cell.left = Some(coord_start);
                },
                Direction::West => {
                    end_cell.right = Some(coord_start);
                },
            }
            self.cells.set(ei, end_cell);
        }
        proof {
            assert(self.cells@ =~= carve_cells(start.cells, start.width as int, start.height as int, coord_start, dir));
            assert forall|i: int| 0 <= i < self.cells@.len() implies in_grid(
                #[trigger] self.cells@[i].coord,
                self.width as int,
                self.height as int,
            ) by {
                assert(self.cells@[i].coord == start.cells[i].coord);
            }
        }
    }

    /// The directions, among north, south, east and west in that order, in
    /// which a passage can be carved from `coord`.
    pub fn get_allowed_directions(&self, coord: CellCoord) -> (dirs: Vec<Direction>)
        requires
            self@.wf(),
            step_fits(coord),
        ensures
            dirs@ == self@.allowed_directions(coord),
    {
        let mut dirs = Vec::new();
        if self.can_carve(coord, Direction::North) {
            dirs.push(Direction::North);
        }
        if self.can_carve(coord, Direction::South) {
            dirs.push(Direction::South);
        }
        if self.can_carve(coord, Direction::East) {
            dirs.push(Direction::East);
        }
        if self.can_carve(coord, Direction::West) {
            dirs.push(Direction::West);
        }
        proof {
            let ds = seq![Direction::North, Direction::South, Direction::East, Direction::West];
            reveal_with_fuel(Seq::filter, 5);
            assert(ds.drop_last().drop_last().drop_last().drop_last() =~= Seq::<Direction>::empty());
            assert(dirs@ =~= ds.filter(|d: Direction| self@.can_carve(coord, d)));
        }
        dirs
    }
}

/// Carving between two cells of the grid links each to the other through
/// facing sides and makes both part of the maze.
pub proof fn lemma_carve_links_both_ways(g: GridV, c: CellCoord, d: Direction)
    requires
        g.wf(),
        in_grid(c, g.width as int, g.height as int),
        in_grid(step(c, d), g.width as int, g.height as int),
    ensures
        ({
            let n = step(c, d);
            let after = g.carved(c, d);
            &&& link(after.cell_at(c).unwrap(), d) == Some(n)
            &&& link(after.cell_at(n).unwrap(), opposite(d)) == Some(c)
            &&& after.cell_at(c).unwrap().part_of_maze
            &&& after.cell_at(n).unwrap().part_of_maze
        }),
{
    let w = g.width as int;
    let n = step(c, d);
    lemma_index_in_grid(c, w, g.height as int);
    lemma_index_in_grid(n, w, g.height as int);
    let y = c.y_pos as int;
    assert((y + 1) * w == y * w + w && (y - 1) * w == y * w - w) by (nonlinear_arith);
    assert(index_of(c, w) != index_of(n, w));
}

/// A step and a step back in the opposite direction return to the start.
pub proof fn lemma_step_back(c: CellCoord, d: Direction)
    requires
        step_fits(c),
    ensures
        step(step(c, d), opposite(d)) == c,
{
}

/// A grid of `width` by `height` walled hexagonal cells, stored row by row.
pub struct HexGrid {
    cells: Vec<HexCell>,
    pub width: i32,
    pub height: i32,
    pub cell_size: i32,
}

impl HexGrid {
    /// The cells, in storage order.
    pub closed spec fn cells(&self) -> Seq<HexCell> {
        self.cells@
    }

    /// The width, height and cell size.
    pub closed spec fn dims(&self) -> (i32, i32, i32) {
        (self.width, self.height, self.cell_size)
    }

    /// A grid of `width` by `height` walled cells, stored row by row: the
    /// cell at `(x, y)` is at index `y * width + x`.
    pub fn new(width: i32, height: i32, cell_size: i32) -> (g: HexGrid)
        requires
            dims_fit(width as int, height as int),
        ensures
            g.dims() == (width, height, cell_size),
            g.cells().len() == ncells(width as int, height as int),
            forall|c: CellCoord| in_grid(c, width as int, height as int) ==> #[trigger] g.cells()[index_of(
                c,
                width as int,
            )].coord == c && !g.cells()[index_of(c, width as int)].part_of_maze,
    {
        let mut cells: Vec<HexCell> = Vec::new();
        let mut y: i32 = 0;
        while y < height
            invariant
                0 <= y <= height || height < 0 && y == 0,
                width > 0 ==> cells@.len() == y * width,
                width <= 0 ==> cells@.len() == 0,
                dims_fit(width as int, height as int),
                forall|c: CellCoord|
                    0 <= c.x_pos < width && 0 <= c.y_pos < y ==> #[trigger] index_of(c, width as int) < cells@.len()
                        && cells@[index_of(c, width as int)].coord == c && !cells@[index_of(c, width as int)].part_of_maze,
            decreases height - y,
        {
            let mut x: i32 = 0;
            let ghost row_start = cells@.len();
            while x < width
                invariant
                    0 <= y < height,
                    0 <= x <= width || width < 0 && x == 0,
                    width > 0 ==> row_start == y * width,
                    width <= 0 ==> row_start == 0,
                    cells@.len() == row_start + x,
                    dims_fit(width as int, height as int),
                    forall|c: CellCoord|
                        0 <= c.x_pos < width && 0 <= c.y_pos < y ==> #[trigger] index_of(c, width as int)
                            < row_start && cells@[index_of(c, width as int)].coord == c
                            && !cells@[index_of(c, width as int)].part_of_maze,
                    forall|c: CellCoord|
                        0 <= c.x_pos < x && c.y_pos == y ==> #[trigger] index_of(c, width as int) < cells@.len()
                            && cells@[index_of(c, width as int)].coord == c
                            && !cells@[index_of(c, width as int)].part_of_maze,
                decreases width - x,
            {
                let ghost before = cells@;
                cells.push(HexCell::default(x, y));
                proof {
                    assert forall|c: CellCoord|
                        0 <= c.x_pos < x + 1 && c.y_pos == y implies #[trigger] index_of(c, width as int)
                            < cells@.len() && cells@[index_of(c, width as int)].coord == c
                            && !cells@[index_of(c, width as int)].part_of_maze by {
                        if c.x_pos < x {
                            assert(before[index_of(c, width as int)].coord == c);
                        } else {
                            assert(index_of(c, width as int) == before.len());
                        }
                    }
                }
                x = x + 1;
            }
            proof {
                if width > 0 {
                    assert(row_start + width == (y + 1) * width) by (nonlinear_arith)
                        requires
                            row_start == y * width,
                    ;
                }
                assert forall|c: CellCoord|
                    0 <= c.x_pos < width && 0 <= c.y_pos < y + 1 implies #[trigger] index_of(c, width as int)
                        < cells@.len() && cells@[index_of(c, width as int)].coord == c
                        && !cells@[index_of(c, width as int)].part_of_maze by {
                    if c.y_pos < y {
                        assert(index_of(c, width as int) < row_start);
                    } else {
                        assert(c.y_pos == y);
                    }
                }
            }
            y = y + 1;
        }
        proof {
            if width > 0 && height > 0 {
                assert(cells@.len() == width * height) by (nonlinear_arith)
                    requires
                        cells@.len() == y * width,
                        y == height,
                ;
            }
            if width > 0 && height <= 0 {
                assert(y == 0);
            }
        }
        HexGrid { cells, width, height, cell_size }
    }
}

/// `b` is `a` with only distances changed.
pub open spec fn same_but_distances(a: GridV, b: GridV) -> bool {
    &&& b.cells.len() == a.cells.len()
    &&& b == (GridV { cells: b.cells, ..a })
    &&& forall|i: int| 0 <= i < a.cells.len() ==> #[trigger] b.cells[i] == (SquareCell { distance: b.cells[i].distance, ..a.cells[i] })
}

impl DistanceGrid<CellCoord> for SquareGrid2D {
    open spec fn cols(&self) -> int {
        self@.width as int
    }

    open spec fn rows(&self) -> int {
        self@.height as int
    }

    open spec fn distances(&self) -> Seq<i32> {
        self@.cells.map_values(|c: SquareCell| c.distance)
    }

    open spec fn links(&self, i: int) -> Seq<CellCoord> {
        self@.cells[i].neighbours()
    }

    open spec fn unchanged_but_distances(self, other: Self) -> bool {
        same_but_distances(self@, other@)
    }

    proof fn lemma_unchanged_refl(a: Self) {
    }

    proof fn lemma_unchanged_trans(a: Self, b: Self, c: Self) {
        assert forall|i: int| 0 <= i < a@.cells.len() implies #[trigger] c@.cells[i] == (SquareCell {
            distance: c@.cells[i].distance,
            ..a@.cells[i]
        }) by {
            assert(b@.cells[i] == (SquareCell { distance: b@.cells[i].distance, ..a@.cells[i] }));
            assert(c@.cells[i] == (SquareCell { distance: c@.cells[i].distance, ..b@.cells[i] }));
        }
    }

    proof fn lemma_unchanged_keeps(a: Self, b: Self) {
        assert forall|i: int| 0 <= i < a.distances().len() implies #[trigger] b.links(i) == a.links(i) by {
            assert(b@.cells[i] == (SquareCell { distance: b@.cells[i].distance, ..a@.cells[i] }));
        }
    }

    fn cell_count(&self) -> (n: usize) {
        self.cells.len()
    }

    fn col_count(&self) -> (w: i32) {
        self.width
    }

    fn row_count(&self) -> (h: i32) {
        self.height
    }

    fn cell_index(&self, p: CellCoord) -> (r: Option<usize>) {
        self.index_of_cell(p)
    }

    fn cell_links(&self, i: usize) -> (r: Vec<CellCoord>) {
        self.cell(i).get_neighbours()
    }

    fn cell_distance(&self, i: usize) -> (d: i32) {
        self.cell(i).distance
    }

    fn put_distance(&mut self, i: usize, d: i32) {
        let ghost a = self@;
        self.set_distance(i, d);
        proof {
            assert(self.distances() =~= a.cells.map_values(|c: SquareCell| c.distance).update(i as int, d));
            assert forall|k: int| 0 <= k < a.cells.len() implies #[trigger] self@.cells[k] == (SquareCell {
                distance: self@.cells[k].distance,
                ..a.cells[k]
            }) by {
                if k == i {
                } else {
                    assert(self@.cells[k] == a.cells[k]);
                }
            }
        }
    }
}

} // verus!
