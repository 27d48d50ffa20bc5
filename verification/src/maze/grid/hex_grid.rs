//! The hexagonal grid: columns of hexagons, odd columns half a cell higher,
//! with passages carved through the six sides.
use vstd::prelude::*;
use crate::maze::cell::is_odd;
use crate::maze::grid::types::{Cell, CellCoord};
use crate::maze_maker::grids::Direction;
use crate::maze_maker::grids::square_grid::{dims_fit, ncells};
use crate::maze::djikstra::DistanceGrid;

verus! {

/// A hexagonal cell: the links through its six sides (`None` is a wall), its
/// position, whether it is part of the maze, its colour and its distance.
#[derive(Clone, Copy, Debug)]
pub struct HexCell {
    north: Option<CellCoord>,
    south: Option<CellCoord>,
    north_east: Option<CellCoord>,
    north_west: Option<CellCoord>,
    south_east: Option<CellCoord>,
    south_west: Option<CellCoord>,
    coord: CellCoord,
    part_of_maze: bool,
    color: Option<u32>,
    distance: i32,
}

/// The value of a hexagonal cell.
pub struct HexCellV {
    pub north: Option<CellCoord>,
    pub south: Option<CellCoord>,
    pub north_east: Option<CellCoord>,
    pub north_west: Option<CellCoord>,
    pub south_east: Option<CellCoord>,
    pub south_west: Option<CellCoord>,
    pub coord: CellCoord,
    pub part_of_maze: bool,
    pub color: Option<u32>,
    pub distance: i32,
}

impl View for HexCell {
    type V = HexCellV;

    closed spec fn view(&self) -> HexCellV {
        HexCellV {
            north: self.north,
            south: self.south,
            north_east: self.north_east,
            north_west: self.north_west,
            south_east: self.south_east,
            south_west: self.south_west,
            coord: self.coord,
            part_of_maze: self.part_of_maze,
            color: self.color,
            distance: self.distance,
        }
    }
}

/// The link to a neighbour as a sequence of at most one coordinate.
pub open spec fn link_seq(l: Option<CellCoord>) -> Seq<CellCoord> {
    match l {
        Some(c) => seq![c],
        None => Seq::empty(),
    }
}

impl HexCellV {
    /// The cells linked to, in the order north, north-west, north-east,
    /// south, south-west, south-east.
    pub open spec fn neighbours(self) -> Seq<CellCoord> {
        link_seq(self.north) + link_seq(self.north_west) + link_seq(self.north_east) + link_seq(self.south)
            + link_seq(self.south_west) + link_seq(self.south_east)
    }

    /// The link through the side in direction `d`.
    pub open spec fn link(self, d: Direction) -> Option<CellCoord> {
        match d {
            Direction::North => self.north,
            Direction::South => self.south,
            Direction::NorthEast => self.north_east,
            Direction::NorthWest => self.north_west,
            Direction::SouthEast => self.south_east,
            Direction::SouthWest => self.south_west,
            _ => None,
        }
    }
}

/// The walled cell at `c`, not part of the maze, with no colour and no
/// distance.
pub open spec fn default_hex(c: CellCoord) -> HexCellV {
    HexCellV {
        north: None,
        south: None,
        north_east: None,
        north_west: None,
        south_east: None,
        south_west: None,
        coord: c,
        part_of_maze: false,
        color: None,
        distance: -1i32,
    }
}

impl HexCell {
    /// The walled cell at `(x, y)`, not part of the maze, with no colour and
    /// no distance.
    pub fn default(x: i32, y: i32) -> (c: HexCell)
        ensures
            c@ == default_hex(CellCoord { x_pos: x, y_pos: y }),
    {
        HexCell {
            north: None,
            north_east: None,
            north_west: None,
            south: None,
            south_east: None,
            south_west: None,
            coord: CellCoord::new(x, y),
            part_of_maze: false,
            color: None,
            distance: -1,
        }
    }

    /// The link through the side in direction `dir`.
    pub fn link(&self, dir: Direction) -> (r: Option<CellCoord>)
        ensures
            r == self@.link(dir),
    {
        match dir {
            Direction::North => self.north,
            Direction::South => self.south,
            Direction::NorthEast => self.north_east,
            Direction::NorthWest => self.north_west,
            Direction::SouthEast => self.south_east,
            Direction::SouthWest => self.south_west,
            _ => None,
        }
    }

    /// The colour of the cell.
    pub fn color(&self) -> (r: Option<u32>)
        ensures
            r == self@.color,
    {
        self.color
    }
}

impl Cell for HexCell {
    fn get_coord(&self) -> (c: CellCoord)
        ensures
            c == self@.coord,
    {
        self.coord
    }

    fn is_part_of_maze(&self) -> (r: bool)
        ensures
            r == self@.part_of_maze,
    {
        self.part_of_maze
    }

    fn set_part_of_maze(&mut self, part: bool)
        ensures
            final(self)@ == (HexCellV { part_of_maze: part, ..old(self)@ }),
    {
        self.part_of_maze = part;
    }

    fn set_color(&mut self, color: Option<u32>)
        ensures
            final(self)@ == (HexCellV { color: color, ..old(self)@ }),
    {
        self.color = color;
    }

    fn get_distance(&self) -> (d: i32)
        ensures
            d == self@.distance,
    {
        self.distance
    }

    fn set_distance(&mut self, dist: i32)
        ensures
            final(self)@ == (HexCellV { distance: dist, ..old(self)@ }),
    {
        self.distance = dist;
    }

    fn get_neighbours(&self) -> (r: Vec<CellCoord>)
        ensures
            r@ == self@.neighbours(),
    {
        let mut neighbours = Vec::new();
        if self.north.is_some() {
            neighbours.push(self.north.unwrap());
        }
        if self.north_west.is_some() {
            neighbours.push(self.north_west.unwrap());
        }
        if self.north_east.is_some() {
            neighbours.push(self.north_east.unwrap());
        }
        if self.south.is_some() {
            neighbours.push(self.south.unwrap());
        }
        if self.south_west.is_some() {
            neighbours.push(self.south_west.unwrap());
        }
        if self.south_east.is_some() {
            neighbours.push(self.south_east.unwrap());
        }
        proof {
            assert(neighbours@ =~= self@.neighbours());
        }
        neighbours
    }
}

/// A grid of `width` columns of `height` hexagonal cells; the cell at column
/// `x` and row `y` is stored at index `y * width + x`.
pub struct HexGrid {
    cells: Vec<HexCell>,
    pub width: i32,
    pub height: i32,
    pub cell_size: i32,
}

/// The value of a hexagonal grid.
pub struct HexGridV {
    pub cells: Seq<HexCellV>,
    pub width: i32,
    pub height: i32,
    pub cell_size: i32,
}

impl View for HexGrid {
    type V = HexGridV;

    closed spec fn view(&self) -> HexGridV {
        HexGridV {
            cells: self.cells@.map_values(|c: HexCell| c@),
            width: self.width,
            height: self.height,
            cell_size: self.cell_size,
        }
    }
}

/// The storage index of the cell at `c`.
pub open spec fn hex_index(c: CellCoord, w: int) -> int {
    c.y_pos * w + c.x_pos
}

/// `c` is a cell of a `w` by `h` grid.
pub open spec fn hex_in_grid(c: CellCoord, w: int, h: int) -> bool {
    0 <= c.x_pos < w && 0 <= c.y_pos < h
}

/// The position one step from `c` in direction `d`. North and south move a
/// row; the slanted directions move a column, and a row where the column
/// parity asks for it (north-east and north-west go up from odd columns,
/// south-west down from even ones). South-east moves a column to the west,
/// like south-west; east and west stay.
pub open spec fn hex_step(c: CellCoord, d: Direction) -> CellCoord {
    let odd = c.x_pos % 2 != 0;
    match d {
        Direction::North => CellCoord { y_pos: (c.y_pos + 1) as i32, ..c },
        Direction::South => CellCoord { y_pos: (c.y_pos - 1) as i32, ..c },
        Direction::NorthWest => CellCoord {
            x_pos: (c.x_pos - 1) as i32,
            y_pos: if odd { (c.y_pos + 1) as i32 } else { c.y_pos },
        },
        Direction::NorthEast => CellCoord {
            x_pos: (c.x_pos + 1) as i32,
            y_pos: if odd { (c.y_pos + 1) as i32 } else { c.y_pos },
        },
        Direction::SouthWest => CellCoord {
            x_pos: (c.x_pos - 1) as i32,
            y_pos: if !odd { (c.y_pos - 1) as i32 } else { c.y_pos },
        },
        Direction::SouthEast => CellCoord {
            x_pos: (c.x_pos - 1) as i32,
            y_pos: if !odd { (c.y_pos - 1) as i32 } else { c.y_pos },
        },
        _ => c,
    }
}

/// The side through which the cell one step in direction `d` is linked back.
pub open spec fn hex_back(d: Direction) -> Direction {
    match d {
        Direction::North => Direction::South,
        Direction::NorthWest => Direction::SouthEast,
        Direction::NorthEast => Direction::SouthWest,
        Direction::South => Direction::North,
        Direction::SouthWest => Direction::NorthEast,
        Direction::SouthEast => Direction::NorthWest,
        Direction::East => Direction::West,
        Direction::West => Direction::East,
    }
}

/// The cell with its link in direction `d` set to `to`, part of the maze.
pub open spec fn hex_linked(c: HexCellV, d: Direction, to: CellCoord) -> HexCellV {
    let c = HexCellV { part_of_maze: true, ..c };
    match d {
        Direction::North => HexCellV { north: Some(to), ..c },
        Direction::NorthWest => HexCellV { north_west: Some(to), ..c },
        Direction::NorthEast => HexCellV { north_east: Some(to), ..c },
        Direction::South => HexCellV { south: Some(to), ..c },
        Direction::SouthWest => HexCellV { south_west: Some(to), ..c },
        Direction::SouthEast => HexCellV { south_east: Some(to), ..c },
        _ => c,
    }
}

/// The six directions of a hexagon's sides.
pub open spec fn is_hex_side(d: Direction) -> bool {
    !(d is East) && !(d is West)
}

/// The cell in the middle of the first row.
pub open spec fn entrance_of(g: HexGridV) -> CellCoord {
    CellCoord { x_pos: (g.width / 2) as i32, y_pos: 0 }
}

/// The cell in the middle of the last row.
pub open spec fn exit_of(g: HexGridV) -> CellCoord {
    CellCoord { x_pos: (g.width / 2) as i32, y_pos: (g.height - 1) as i32 }
}

/// The grid with the south side of its entrance and the north side of its
/// exit open to the outside, marked `(-1, -1)`.
pub open spec fn opened(g: HexGridV) -> HexGridV {
    let outside = Some(CellCoord { x_pos: -1i32, y_pos: -1i32 });
    let ie = hex_index(entrance_of(g), g.width as int);
    let ix = hex_index(exit_of(g), g.width as int);
    let c1 = g.cells.update(ie, HexCellV { south: outside, ..g.cells[ie] });
    HexGridV { cells: c1.update(ix, HexCellV { north: outside, ..c1[ix] }), ..g }
}

/// Two cells of a grid with the same storage index are the same cell.
pub proof fn lemma_hex_index_unique(a: CellCoord, b: CellCoord, w: int, h: int)
    requires
        hex_in_grid(a, w, h),
        hex_in_grid(b, w, h),
        hex_index(a, w) == hex_index(b, w),
    ensures
        a == b,
{
    let (xa, ya, xb, yb) = (a.x_pos as int, a.y_pos as int, b.x_pos as int, b.y_pos as int);
    assert(ya == yb) by (nonlinear_arith)
        requires
            0 <= xa < w,
            0 <= xb < w,
            ya * w + xa == yb * w + xb,
    {
        if ya < yb {
            assert(ya * w + w <= yb * w);
        } else if yb < ya {
            assert(yb * w + w <= ya * w);
        }
    }
}

pub proof fn lemma_hex_index(c: CellCoord, w: int, h: int)
    requires
        hex_in_grid(c, w, h),
        dims_fit(w, h),
    ensures
        0 <= hex_index(c, w) < ncells(w, h),
        0 <= c.y_pos * w <= hex_index(c, w) <= i32::MAX,
{
    let x = c.x_pos as int;
    let y = c.y_pos as int;
    assert(0 <= y * w && y * w + x < w * h && w * h <= (w + 1) * (h + 1)) by (nonlinear_arith)
        requires
            0 <= x < w,
            0 <= y < h,
    ;
}

impl HexGridV {
    /// The grid holds `width * height` cells, each at a position of the grid,
    /// and indices of positions at or next to the grid fit in an `i32`.
    pub open spec fn wf(self) -> bool {
        &&& self.cells.len() == ncells(self.width as int, self.height as int)
        &&& dims_fit(self.width as int, self.height as int)
        &&& forall|i: int|
            0 <= i < self.cells.len() ==> hex_in_grid(#[trigger] self.cells[i].coord, self.width as int, self.height as int)
    }

    /// The cell stored at the index of `c`, if there is one.
    pub open spec fn cell_at(self, c: CellCoord) -> Option<HexCellV> {
        let i = hex_index(c, self.width as int);
        if 0 <= i < self.cells.len() {
            Some(self.cells[i])
        } else {
            None
        }
    }

    /// The position one step from `c` in direction `d`, where it is in the grid.
    pub open spec fn cell_in_dir(self, c: CellCoord, d: Direction) -> Option<CellCoord> {
        let t = hex_step(c, d);
        if hex_in_grid(t, self.width as int, self.height as int) {
            Some(t)
        } else {
            None
        }
    }

    /// A passage can be carved from `c` in direction `d`: the cell there is in
    /// the grid and not yet part of the maze.
    pub open spec fn can_carve(self, c: CellCoord, d: Direction) -> bool {
        match self.cell_in_dir(c, d) {
            Some(t) => match self.cell_at(t) {
                Some(cell) => !cell.part_of_maze,
                None => false,
            },
            None => false,
        }
    }

    /// The directions, in the order north, south, north-east, north-west,
    /// south-east, south-west, in which a passage can be carved from `c`.
    pub open spec fn allowed_directions(self, c: CellCoord) -> Seq<Direction> {
        let ds = seq![
            Direction::North,
            Direction::South,
            Direction::NorthEast,
            Direction::NorthWest,
            Direction::SouthEast,
            Direction::SouthWest,
        ];
        ds.filter(|d: Direction| self.can_carve(c, d))
    }

    /// The grid after carving from `c` in direction `d`: where the cell one
    /// step away is in the grid, the start is linked to it through the side
    /// `d` and it back through the opposite side, and both become part of
    /// the maze.
    pub open spec fn carved(self, c: CellCoord, d: Direction) -> HexGridV {
        match self.cell_in_dir(c, d) {
            None => self,
            Some(e) => {
                let si = hex_index(c, self.width as int);
                let c1 = self.cells.update(si, hex_linked(self.cells[si], d, e));
                let ei = hex_index(e, self.width as int);
                HexGridV { cells: c1.update(ei, hex_linked(c1[ei], hex_back(d), c)), ..self }
            },
        }
    }
}

impl HexGrid {
    /// A grid of `width` by `height` walled cells, stored row by row.
    pub fn new(width: i32, height: i32, cell_size: i32) -> (g: HexGrid)
        requires
            dims_fit(width as int, height as int),
        ensures
            g@.wf(),
            g@.width == width,
            g@.height == height,
            g@.cell_size == cell_size,
            forall|c: CellCoord| hex_in_grid(c, width as int, height as int) ==> #[trigger] g@.cell_at(c) == Some(
                default_hex(c),
            ),
    {
        let mut cells: Vec<HexCell> = Vec::new();
        let mut y: i32 = 0;
        while y < height
            invariant
                0 <= y <= height || height < 0 && y == 0,
                width > 0 ==> cells@.len() == y * width,
                width <= 0 ==> cells@.len() == 0,
                dims_fit(width as int, height as int),
                forall|i: int|
                    0 <= i < cells@.len() ==> hex_in_grid(#[trigger] cells@[i]@.coord, width as int, height as int),
                forall|c: CellCoord|
                    0 <= c.x_pos < width && 0 <= c.y_pos < y ==> #[trigger] hex_index(c, width as int) < cells@.len()
                        && cells@[hex_index(c, width as int)]@ == default_hex(c),
            decreases height - y,
        {
            let mut x: i32 = 0;
            let ghost row_start = cells@.len();
            while x < width
                invariant
                    0 <= y < height,
                    0 <= x <= width || width < 0 && x == 0,
                    width > 0 ==> row_start == y * width,
                    width <= 0 ==> row_start == 0,
                    cells@.len() == row_start + x,
                    dims_fit(width as int, height as int),
                    forall|i: int|
                        0 <= i < cells@.len() ==> hex_in_grid(#[trigger] cells@[i]@.coord, width as int, height as int),
                    forall|c: CellCoord|
                        0 <= c.x_pos < width && 0 <= c.y_pos < y ==> #[trigger] hex_index(c, width as int)
                            < row_start && cells@[hex_index(c, width as int)]@ == default_hex(c),
                    forall|c: CellCoord|
                        0 <= c.x_pos < x && c.y_pos == y ==> #[trigger] hex_index(c, width as int) < cells@.len()
                            && cells@[hex_index(c, width as int)]@ == default_hex(c),
                decreases width - x,
            {
                let ghost before = cells@;
                cells.push(HexCell::default(x, y));
                proof {
                    assert forall|c: CellCoord|
                        0 <= c.x_pos < x + 1 && c.y_pos == y implies #[trigger] hex_index(c, width as int)
                            < cells@.len() && cells@[hex_index(c, width as int)]@ == default_hex(c) by {
                        if c.x_pos < x {
                            assert(before[hex_index(c, width as int)]@ == default_hex(c));
                        } else {
                            assert(hex_index(c, width as int) == before.len());
                        }
                    }
                }
                x = x + 1;
            }
            proof {
                if width > 0 {
                    assert(row_start + width == (y + 1) * width) by (nonlinear_arith)
                        requires
                            row_start == y * width,
                    ;
                }
                assert forall|c: CellCoord|
                    0 <= c.x_pos < width && 0 <= c.y_pos < y + 1 implies #[trigger] hex_index(c, width as int)
                        < cells@.len() && cells@[hex_index(c, width as int)]@ == default_hex(c) by {
                    if c.y_pos < y {
                        assert(hex_index(c, width as int) < row_start);
                    } else {
                        assert(c.y_pos == y);
                    }
                }
            }
            y = y + 1;
        }
        proof {
            if width > 0 && height > 0 {
                assert(cells@.len() == width * height) by (nonlinear_arith)
                    requires
                        cells@.len() == y * width,
                        y == height,
                ;
            }
            if width > 0 && height <= 0 {
                assert(y == 0);
            }
        }
        let g = HexGrid { cells, width, height, cell_size };
        proof {
            assert forall|i: int| 0 <= i < g@.cells.len() implies hex_in_grid(
                #[trigger] g@.cells[i].coord,
                width as int,
                height as int,
            ) by {
                assert(g@.cells[i] == g.cells@[i]@);
            }
            assert forall|c: CellCoord| hex_in_grid(c, width as int, height as int) implies #[trigger] g@.cell_at(c)
                == Some(default_hex(c)) by {
                lemma_hex_index(c, width as int, height as int);
                assert(g@.cells[hex_index(c, width as int)] == g.cells@[hex_index(c, width as int)]@);
            }
        }
        g
    }

    /// The index of the cell at `coord`, where one is stored there.
    fn index_of_cell(&self, coord: CellCoord) -> (r: Option<usize>)
        requires
            i32::MIN <= coord.y_pos * self.width <= i32::MAX,
            i32::MIN <= hex_index(coord, self.width as int) <= i32::MAX,
        ensures
            r matches Some(i) ==> i == hex_index(coord, self.width as int) && i < self.cells@.len(),
            r is None ==> !(0 <= hex_index(coord, self.width as int) < self.cells@.len()),
    {
        let index = (coord.y_pos * self.width) + coord.x_pos;
        if index >= 0 && (index as usize) < self.cells.len() {
            return Some(index as usize);
        }
        None
    }

    /// The cell stored at the index of `coord`, if there is one.
    pub fn get_cell(&self, coord: CellCoord) -> (r: Option<&HexCell>)
        requires
            i32::MIN <= coord.y_pos * self@.width <= i32::MAX,
            i32::MIN <= hex_index(coord, self@.width as int) <= i32::MAX,
        ensures
            r matches Some(c) ==> self@.cell_at(coord) == Some(c@),
            r is None ==> self@.cell_at(coord) is None,
    {
        match self.index_of_cell(coord) {
            Some(i) => Some(&self.cells[i]),
            None => None,
        }
    }

    /// The position one step from `coord` in direction `dir`, where it is in
    /// the grid.
    pub fn get_cell_in_dir(&self, coord: CellCoord, dir: Direction) -> (r: Option<CellCoord>)
        requires
            i32::MIN < coord.x_pos < i32::MAX,
            i32::MIN < coord.y_pos < i32::MAX,
        ensures
            r == self@.cell_in_dir(coord, dir),
    {
        let mut target_x = coord.x_pos;
        let mut target_y = coord.y_pos;
        match dir {
            Direction::North => {
                target_y += 1;
            },
            Direction::South => {
                target_y -= 1;
            },
            Direction::NorthWest => {
                target_x -= 1;
                if is_odd(coord.x_pos) {
                    target_y += 1;
                }
            },
            Direction::NorthEast => {
                target_x += 1;
                if is_odd(coord.x_pos) {
                    target_y += 1;
                }
            },
            Direction::SouthWest => {
                target_x -= 1;
                if !is_odd(coord.x_pos) {
                    target_y -= 1;
                }
            },
            Direction::SouthEast => {
                target_x -= 1;
                if !is_odd(coord.x_pos) {
                    target_y -= 1;
                }
            },
            _ => {},
        }
        if target_x < 0 || target_x >= self.width || target_y < 0 || target_y >= self.height {
            return None;
        }
        Some(CellCoord::new(target_x, target_y))
    }

    /// Whether a passage can be carved from `coord` in direction `dir`.
    pub fn can_carve(&self, coord: CellCoord, dir: Direction) -> (r: bool)
        requires
            self@.wf(),
            i32::MIN < coord.x_pos < i32::MAX,
            i32::MIN < coord.y_pos < i32::MAX,
        ensures
            r == self@.can_carve(coord, dir),
    {
        if let Some(cell_coord) = self.get_cell_in_dir(coord, dir) {
            proof {
                lemma_hex_index(cell_coord, self.width as int, self.height as int);
            }
            if let Some(cell) = self.get_cell(cell_coord) {
                return !cell.is_part_of_maze();
            }
        }
        false
    }

    /// Sets the link of the cell at index `i` in direction `dir` to `to` and
    /// makes it part of the maze.
    fn link_cell(&mut self, i: usize, dir: Direction, to: CellCoord)
        requires
            i < old(self)@.cells.len(),
        ensures
            final(self)@ == (HexGridV {
                cells: old(self)@.cells.update(i as int, hex_linked(old(self)@.cells[i as int], dir, to)),
                ..old(self)@
            }),
    {
        let mut cell = self.cells[i];
        cell.part_of_maze = true;
        match dir {
            Direction::North => {
                cell.north = Some(to);
            },
            Direction::NorthWest => {
                cell.north_west = Some(to);
            },
            Direction::NorthEast => {
                cell.north_east = Some(to);
            },
            Direction::South => {
                cell.south = Some(to);
            },
            Direction::SouthWest => {
                cell.south_west = Some(to);
            },
            Direction::SouthEast => {
                cell.south_east = Some(to);
            },
            _ => {},
        }
        let ghost before = self.cells@;
        self.cells.set(i, cell);
        proof {
            assert(self.cells@.map_values(|c: HexCell| c@) =~= before.map_values(|c: HexCell| c@).update(
                i as int,
                cell@,
            ));
        }
    }

    /// Carves a passage from `coord_start` in direction `dir`, where the cell
    /// one step away is in the grid: the two cells are linked through the
    /// side `dir` and the side opposite, and both become part of the maze.
    pub fn carve(&mut self, coord_start: CellCoord, dir: Direction)
        requires
            old(self)@.wf(),
            i32::MIN < coord_start.x_pos < i32::MAX,
            i32::MIN < coord_start.y_pos < i32::MAX,
            old(self)@.cell_in_dir(coord_start, dir) is Some ==> hex_in_grid(
                coord_start,
                old(self)@.width as int,
                old(self)@.height as int,
            ),
        ensures
            final(self)@ == old(self)@.carved(coord_start, dir),
            final(self)@.wf(),
    {
        let ghost g = self@;
        let coord_end = self.get_cell_in_dir(coord_start, dir);
        if coord_end.is_none() {
            return;
        }
        let coord_end = coord_end.unwrap();
        proof {
            lemma_hex_index(coord_start, self.width as int, self.height as int);
            lemma_hex_index(coord_end, self.width as int, self.height as int);
        }
        let si = self.index_of_cell(coord_start).unwrap();
        self.link_cell(si, dir, coord_end);
        assert(self@.cells.len() == self.cells@.len());
        let ei = self.index_of_cell(coord_end).unwrap();
        let back = match dir {
            Direction::North => Direction::South,
            Direction::NorthWest => Direction::SouthEast,
            Direction::NorthEast => Direction::SouthWest,
            Direction::South => Direction::North,
            Direction::SouthWest => Direction::NorthEast,
            Direction::SouthEast => Direction::NorthWest,
            Direction::East => Direction::West,
            Direction::West => Direction::East,
        };
        self.link_cell(ei, back, coord_start);
        proof {
            assert forall|i: int| 0 <= i < self@.cells.len() implies hex_in_grid(
                #[trigger] self@.cells[i].coord,
                self.width as int,
                self.height as int,
            ) by {
                assert(self@.cells[i].coord == g.cells[i].coord);
            }
        }
    }

    /// The directions, in the order north, south, north-east, north-west,
    /// south-east, south-west, in which a passage can be carved from `coord`.
    pub fn get_allowed_directions(&self, coord: CellCoord) -> (dirs: Vec<Direction>)
        requires
            self@.wf(),
            i32::MIN < coord.x_pos < i32::MAX,
            i32::MIN < coord.y_pos < i32::MAX,
        ensures
            dirs@ == self@.allowed_directions(coord),
    {
        let mut dirs = Vec::new();
        if self.can_carve(coord, Direction::North) {
            dirs.push(Direction::North);
        }
        if self.can_carve(coord, Direction::South) {
            dirs.push(Direction::South);
        }
        if self.can_carve(coord, Direction::NorthEast) {
            dirs.push(Direction::NorthEast);
        }
        if self.can_carve(coord, Direction::NorthWest) {
            dirs.push(Direction::NorthWest);
        }
        if self.can_carve(coord, Direction::SouthEast) {
            dirs.push(Direction::SouthEast);
        }
        if self.can_carve(coord, Direction::SouthWest) {
            dirs.push(Direction::SouthWest);
        }
        proof {
            let ds = seq![
                Direction::North,
                Direction::South,
                Direction::NorthEast,
                Direction::NorthWest,
                Direction::SouthEast,
                Direction::SouthWest,
            ];
            let f = |d: Direction| self@.can_carve(coord, d);
            reveal_with_fuel(Seq::filter, 7);
            assert(ds.drop_last().drop_last().drop_last().drop_last().drop_last().drop_last() =~= Seq::<
                Direction,
            >::empty());
            assert(dirs@ =~= ds.filter(f));
        }
        dirs
    }

    pub fn set_cell_size(&mut self, cell_size: i32)
        ensures
            final(self)@ == (HexGridV { cell_size: cell_size, ..old(self)@ }),
    {
        self.cell_size = cell_size;
    }

    pub fn get_width(&self) -> (r: i32)
        ensures
            r == self@.width,
    {
        self.width
    }

    /// The size of the grid in pixels, given the height in pixels of a row of
    /// cells (which rests on the square root of three): each column is two
    /// cell sizes wide, and each row `row_height` high.
    pub fn get_size_in_pixels(&self, row_height: i32) -> (r: (i32, i32))
        requires
            i32::MIN <= 2 * self@.cell_size <= i32::MAX,
            i32::MIN <= self@.width * (2 * self@.cell_size) <= i32::MAX,
            i32::MIN <= self@.height * row_height <= i32::MAX,
        ensures
            r.0 == self@.width * (2 * self@.cell_size),
            r.1 == self@.height * row_height,
    {
        (self.width * (2 * self.cell_size), self.height * row_height)
    }

    /// Opens the south side of the cell in the middle of the first row and the
    /// north side of the cell in the middle of the last row to the outside,
    /// marked `(-1, -1)`.
    pub fn init(&mut self)
        requires
            old(self)@.wf(),
            old(self)@.width > 0,
            old(self)@.height > 0,
        ensures
            final(self)@ == opened(old(self)@),
            0 <= hex_index(entrance_of(old(self)@), old(self)@.width as int) < old(self)@.cells.len(),
            0 <= hex_index(exit_of(old(self)@), old(self)@.width as int) < old(self)@.cells.len(),
            final(self)@.wf(),
    {
        let ghost g = self@;
        let entrance = CellCoord::new(self.width / 2, 0);
        let exit = CellCoord::new(self.width / 2, self.height - 1);
        proof {
            lemma_hex_index(entrance, self.width as int, self.height as int);
            lemma_hex_index(exit, self.width as int, self.height as int);
        }
        let ie = self.index_of_cell(entrance).unwrap();
        let mut c = self.cells[ie];
        c.south = Some(CellCoord { x_pos: -1, y_pos: -1 });
        let ghost b0 = self.cells@;
        self.cells.set(ie, c);
        let ghost b1 = self.cells@;
        let ix = self.index_of_cell(exit).unwrap();
        let mut c = self.cells[ix];
        c.north = Some(CellCoord { x_pos: -1, y_pos: -1 });
        self.cells.set(ix, c);
        proof {
            assert(b1.map_values(|c: HexCell| c@) =~= g.cells.update(
                ie as int,
                HexCellV { south: Some(CellCoord { x_pos: -1i32, y_pos: -1i32 }), ..g.cells[ie as int] },
            ));
            assert(self@.cells =~= b1.map_values(|c: HexCell| c@).update(
                ix as int,
                HexCellV {
                    north: Some(CellCoord { x_pos: -1i32, y_pos: -1i32 }),
                    ..b1.map_values(|c: HexCell| c@)[ix as int]
                },
            ));
            assert forall|i: int| 0 <= i < self@.cells.len() implies hex_in_grid(
                #[trigger] self@.cells[i].coord,
                self.width as int,
                self.height as int,
            ) by {
                assert(self@.cells[i].coord == g.cells[i].coord);
            }
        }
    }

    /// Sets the colour of the cell at `coord`, where one is stored there.
    pub fn set_color_at(&mut self, coord: CellCoord, color: Option<u32>)
        requires
            old(self)@.wf(),
            hex_in_grid(coord, old(self)@.width as int, old(self)@.height as int),
        ensures
            final(self)@ == (HexGridV {
                cells: old(self)@.cells.update(
                    hex_index(coord, old(self)@.width as int),
                    HexCellV { color: color, ..old(self)@.cells[hex_index(coord, old(self)@.width as int)] },
                ),
                ..old(self)@
            }),
            final(self)@.wf(),
    {
        let ghost g = self@;
        proof {
            lemma_hex_index(coord, self.width as int, self.height as int);
        }
        let i = self.index_of_cell(coord).unwrap();
        let mut c = self.cells[i];
        c.set_color(color);
        let ghost before = self.cells@;
        self.cells.set(i, c);
        proof {
            assert(self@.cells =~= g.cells.update(i as int, HexCellV { color: color, ..g.cells[i as int] }));
            assert forall|k: int| 0 <= k < self@.cells.len() implies hex_in_grid(
                #[trigger] self@.cells[k].coord,
                self.width as int,
                self.height as int,
            ) by {
                assert(self@.cells[k].coord == g.cells[k].coord);
            }
        }
    }

    /// Makes the cell at `coord` part of the maze, where one is stored there.
    pub fn set_part_of_maze_at(&mut self, coord: CellCoord)
        requires
            old(self)@.wf(),
            hex_in_grid(coord, old(self)@.width as int, old(self)@.height as int),
        ensures
            final(self)@ == (HexGridV {
                cells: old(self)@.cells.update(
                    hex_index(coord, old(self)@.width as int),
                    HexCellV { part_of_maze: true, ..old(self)@.cells[hex_index(coord, old(self)@.width as int)] },
                ),
                ..old(self)@
            }),
            final(self)@.wf(),
    {
        let ghost g = self@;
        proof {
            lemma_hex_index(coord, self.width as int, self.height as int);
        }
        let i = self.index_of_cell(coord).unwrap();
        let mut c = self.cells[i];
        c.set_part_of_maze(true);
        self.cells.set(i, c);
        proof {
            assert(self@.cells =~= g.cells.update(i as int, HexCellV { part_of_maze: true, ..g.cells[i as int] }));
            assert forall|k: int| 0 <= k < self@.cells.len() implies hex_in_grid(
                #[trigger] self@.cells[k].coord,
                self.width as int,
                self.height as int,
            ) by {
                assert(self@.cells[k].coord == g.cells[k].coord);
            }
        }
    }
}

/// Carving through a side to a cell of the grid links the two cells to each
/// other, through the side `d` and through the opposite side.
pub proof fn lemma_hex_carve_links_both_ways(g: HexGridV, c: CellCoord, d: Direction)
    requires
        g.wf(),
        is_hex_side(d),
        hex_in_grid(c, g.width as int, g.height as int),
        g.cell_in_dir(c, d) is Some,
    ensures
        ({
            let e = hex_step(c, d);
            let after = g.carved(c, d);
            &&& after.cell_at(c).unwrap().link(d) == Some(e)
            &&& after.cell_at(e).unwrap().link(hex_back(d)) == Some(c)
            &&& after.cell_at(c).unwrap().part_of_maze
            &&& after.cell_at(e).unwrap().part_of_maze
        }),
{
    let w = g.width as int;
    let e = hex_step(c, d);
    lemma_hex_index(c, w, g.height as int);
    lemma_hex_index(e, w, g.height as int);
    let y = c.y_pos as int;
    assert((y + 1) * w == y * w + w && (y - 1) * w == y * w - w) by (nonlinear_arith);
    assert(hex_index(c, w) != hex_index(e, w));
}

/// Stepping north or south, or north-east or south-west, and then stepping in
/// the direction back returns to the start.
pub proof fn lemma_hex_step_back(g: HexGridV, c: CellCoord, d: Direction)
    requires
        d is North || d is South || d is NorthEast || d is SouthWest,
        hex_in_grid(c, g.width as int, g.height as int),
        g.cell_in_dir(c, d) is Some,
    ensures
        g.cell_in_dir(g.cell_in_dir(c, d).unwrap(), hex_back(d)) == Some(c),
{
    let x = c.x_pos as int;
    assert((x + 1) % 2 != 0 <==> x % 2 == 0);
    assert((x - 1) % 2 != 0 <==> x % 2 == 0);
}

/// `b` is `a` with only distances changed.
pub open spec fn hex_same_but_distances(a: HexGridV, b: HexGridV) -> bool {
    &&& b.cells.len() == a.cells.len()
    &&& b == (HexGridV { cells: b.cells, ..a })
    &&& forall|i: int| 0 <= i < a.cells.len() ==> #[trigger] b.cells[i] == (HexCellV { distance: b.cells[i].distance, ..a.cells[i] })
}

impl DistanceGrid<CellCoord> for HexGrid {
    open spec fn cols(&self) -> int {
        self@.width as int
    }

    open spec fn rows(&self) -> int {
        self@.height as int
    }

    open spec fn distances(&self) -> Seq<i32> {
        self@.cells.map_values(|c: HexCellV| c.distance)
    }

    open spec fn links(&self, i: int) -> Seq<CellCoord> {
        self@.cells[i].neighbours()
    }

    open spec fn unchanged_but_distances(self, other: Self) -> bool {
        hex_same_but_distances(self@, other@)
    }

    proof fn lemma_unchanged_refl(a: Self) {
    }

    proof fn lemma_unchanged_trans(a: Self, b: Self, c: Self) {
        assert forall|i: int| 0 <= i < a@.cells.len() implies #[trigger] c@.cells[i] == (HexCellV {
            distance: c@.cells[i].distance,
            ..a@.cells[i]
        }) by {
            assert(b@.cells[i] == (HexCellV { distance: b@.cells[i].distance, ..a@.cells[i] }));
            assert(c@.cells[i] == (HexCellV { distance: c@.cells[i].distance, ..b@.cells[i] }));
        }
    }

    proof fn lemma_unchanged_keeps(a: Self, b: Self) {
        assert forall|i: int| 0 <= i < a.distances().len() implies #[trigger] b.links(i) == a.links(i) by {
            assert(b@.cells[i] == (HexCellV { distance: b@.cells[i].distance, ..a@.cells[i] }));
        }
    }

    fn cell_count(&self) -> (n: usize) {
        self.cells.len()
    }

    fn col_count(&self) -> (w: i32) {
        self.width
    }

    fn row_count(&self) -> (h: i32) {
        self.height
    }

    fn cell_index(&self, p: CellCoord) -> (r: Option<usize>) {
        self.index_of_cell(p)
    }

    fn cell_links(&self, i: usize) -> (r: Vec<CellCoord>) {
        proof {
            assert(self@.cells[i as int] == self.cells@[i as int]@);
        }
        self.cells[i].get_neighbours()
    }

    fn cell_distance(&self, i: usize) -> (d: i32) {
        proof {
            assert(self@.cells[i as int] == self.cells@[i as int]@);
        }
        self.cells[i].distance
    }

    fn put_distance(&mut self, i: usize, d: i32) {
        let ghost a = self@;
        let mut c = self.cells[i];
        c.distance = d;
        self.cells.set(i, c);
        proof {
            assert(self@.cells =~= a.cells.update(i as int, HexCellV { distance: d, ..a.cells[i as int] }));
            assert(self.distances() =~= a.cells.map_values(|c: HexCellV| c.distance).update(i as int, d));
            assert forall|k: int| 0 <= k < a.cells.len() implies #[trigger] self@.cells[k] == (HexCellV {
                distance: self@.cells[k].distance,
                ..a.cells[k]
            }) by {
                if k != i {
                    assert(self@.cells[k] == a.cells[k]);
                }
            }
        }
    }
}

} // verus!
