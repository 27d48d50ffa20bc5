//! The state of the maze program: a hexagonal grid, the generator carving
//! it, and the settings that the menu changes.
use vstd::prelude::*;
use crate::maze::common::MARGIN;
use crate::maze::grid::hex_grid::{
    HexCellV, HexGrid, HexGridV, default_hex, entrance_of, exit_of, hex_in_grid, hex_index, lemma_hex_index,
    lemma_hex_index_unique, opened, hex_same_but_distances,
};
use crate::maze::djikstra::{Djikstra, DistanceGrid, distances_from, runnable};
use crate::maze::grid::types::CellCoord;
use crate::maze::growing_tree::{
    GenState, GrowingTreeGenerator, Strategy, closed, count_free, stepped, steps_of, lemma_count_free_le, lex_less, part_at, started, stuck,
    work_left,
};
use crate::maze_maker::grids::square_grid::dims_fit;
use crate::maze_maker::grids::Direction;
use crate::text::{push_signed, signed_decimal, string_push_str};

verus! {

/// The width of the window in pixels.
pub const WIDTH: i32 = 1000;

/// The height of the window in pixels.
pub const HEIGHT: i32 = 1000;

/// The grid being carved, its generator, and the settings: how many steps
/// the generator takes per frame, the inset of the cells, whether distances
/// are shown, the difficulty, the number of cells across and up, and the
/// size of a cell.
pub struct AppState {
    pub generator: GrowingTreeGenerator,
    pub grid: HexGrid,
    pub generate_steps: i32,
    pub cell_inset: i32,
    pub show_dist: bool,
    pub difficulty: i32,
    pub num_cells_width: i32,
    pub num_cells_height: i32,
    pub cell_width: i32,
    pub cell_height: i32,
}

/// A number of cells along one side that the grid's index arithmetic holds.
pub open spec fn count_ok(n: int) -> bool {
    1 <= n <= 0x4000
}

/// The cell at `c` of a new `w` by `h` maze: walled, but for the south side
/// of the entrance (the middle of the first row) and the north side of the
/// exit (the middle of the last row), which open to the outside; only the
/// entrance is part of the maze.
pub open spec fn new_maze_cell(c: CellCoord, w: int, h: int) -> HexCellV {
    let outside = Some(CellCoord { x_pos: -1i32, y_pos: -1i32 });
    let at_entrance = c.x_pos == w / 2 && c.y_pos == 0;
    let at_exit = c.x_pos == w / 2 && c.y_pos == h - 1;
    HexCellV {
        north: if at_exit {
            outside
        } else {
            None
        },
        south: if at_entrance {
            outside
        } else {
            None
        },
        part_of_maze: at_entrance,
        ..default_hex(c)
    }
}

/// `g` is a new `w` by `h` maze with cells of size `cell_size`.
pub open spec fn is_new_maze(g: HexGridV, w: int, h: int, cell_size: int) -> bool {
    &&& g.wf()
    &&& g.width == w && g.height == h && g.cell_size == cell_size
    &&& forall|c: CellCoord| hex_in_grid(c, w, h) ==> #[trigger] g.cell_at(c) == Some(new_maze_cell(c, w, h))
}

/// The size in pixels of the window content for grid `g` with rows
/// `row_height` pixels high: the grid and a margin on each side.
pub open spec fn maze_size(g: HexGridV, row_height: int) -> (int, int) {
    (g.width * (2 * g.cell_size) + 2 * MARGIN, g.height * row_height + 2 * MARGIN)
}

/// Every step of `maze_size` fits in an `i32`.
pub open spec fn size_fits(g: HexGridV, row_height: int) -> bool {
    let s = maze_size(g, row_height);
    &&& i32::MIN <= 2 * g.cell_size <= i32::MAX
    &&& i32::MIN <= g.width * (2 * g.cell_size) <= i32::MAX
    &&& i32::MIN <= g.height * row_height <= i32::MAX
    &&& i32::MIN <= s.0 <= i32::MAX
    &&& i32::MIN <= s.1 <= i32::MAX
}

/// The window title for a difficulty and a number of steps per frame.
pub open spec fn title(difficulty: int, steps: int) -> Seq<char> {
    "Maze type: "@ + "Growing Tree"@ + " -- Difficulty: "@ + signed_decimal(difficulty) + " -- Generation speed: "@
        + signed_decimal(steps) + " "@
}

/// Changing the cell size keeps the cells the generator can carve from on
/// its stack.
proof fn lemma_resized_closed(g: HexGridV, h: HexGridV, st: Seq<CellCoord>)
    requires
        closed(g, st),
        h == (HexGridV { cell_size: h.cell_size, ..g }),
    ensures
        closed(h, st),
{
    assert forall|c: CellCoord|
        hex_in_grid(c, h.width as int, h.height as int) && part_at(h, c) && !st.contains(c) implies #[trigger] stuck(
        h,
        c,
    ) by {
        assert(stuck(g, c));
    }
}

/// A quarter of `w`, rounded toward zero as Rust's division does.
pub open spec fn quarter(w: int) -> int {
    if w >= 0 {
        w / 4
    } else {
        -((-w) / 4)
    }
}

/// The inset after `i` is made one smaller: `i - 1`, and at least zero.
pub open spec fn inset_less(i: int) -> i32 {
    if i - 1 < 0 {
        0i32
    } else {
        (i - 1) as i32
    }
}

/// The inset after `i` is made one larger: `i + 1`, and at most a quarter
/// of the cell width `w`.
pub open spec fn inset_more(i: int, w: int) -> i32 {
    if i + 1 > quarter(w) {
        quarter(w) as i32
    } else {
        (i + 1) as i32
    }
}

/// Cells not yet part of the maze are counted alike in two rows of cells
/// that differ in distances only.
proof fn lemma_count_free_same(a: Seq<HexCellV>, b: Seq<HexCellV>)
    requires
        b.len() == a.len(),
        forall|i: int| 0 <= i < a.len() ==> #[trigger] b[i].part_of_maze == a[i].part_of_maze,
    ensures
        count_free(b) == count_free(a),
    decreases a.len(),
{
    if a.len() > 0 {
        assert forall|i: int| 0 <= i < a.len() - 1 implies #[trigger] b.drop_last()[i].part_of_maze
            == a.drop_last()[i].part_of_maze by {
            assert(b.drop_last()[i] == b[i] && a.drop_last()[i] == a[i]);
        }
        lemma_count_free_same(a.drop_last(), b.drop_last());
        assert(b.last().part_of_maze == a.last().part_of_maze);
    }
}

/// Changing distances only keeps the grid well formed, the cells that are
/// part of the maze, and so the generator's view of it.
proof fn lemma_distances_keep_maze(g: HexGridV, h: HexGridV, st: Seq<CellCoord>)
    requires
        g.wf(),
        hex_same_but_distances(g, h),
        closed(g, st),
    ensures
        h.wf(),
        closed(h, st),
        count_free(h.cells) == count_free(g.cells),
{
    assert forall|i: int| 0 <= i < g.cells.len() implies #[trigger] h.cells[i].part_of_maze == g.cells[i].part_of_maze by {
        assert(h.cells[i] == (HexCellV { distance: h.cells[i].distance, ..g.cells[i] }));
    }
    assert forall|i: int| 0 <= i < h.cells.len() implies hex_in_grid(
        #[trigger] h.cells[i].coord,
        h.width as int,
        h.height as int,
    ) by {
        assert(h.cells[i] == (HexCellV { distance: h.cells[i].distance, ..g.cells[i] }));
    }
    lemma_count_free_same(g.cells, h.cells);
    assert forall|c: CellCoord|
        hex_in_grid(c, h.width as int, h.height as int) && part_at(h, c) && !st.contains(c) implies #[trigger] stuck(
        h,
        c,
    ) by {
        lemma_hex_index(c, g.width as int, g.height as int);
        assert(part_at(g, c));
        assert(stuck(g, c));
        assert forall|d: Direction| #![trigger h.can_carve(c, d)] h.can_carve(c, d) == g.can_carve(c, d) by {
            if let Some(t) = g.cell_in_dir(c, d) {
                if 0 <= hex_index(t, g.width as int) < g.cells.len() {
                    assert(h.cells[hex_index(t, g.width as int)].part_of_maze == g.cells[hex_index(
                        t,
                        g.width as int,
                    )].part_of_maze);
                }
            }
        }
    }
}

impl AppState {
    /// The settings, in the order of the fields.
    pub open spec fn settings(&self) -> (i32, i32, bool, i32, i32, i32, i32, i32) {
        (
            self.generate_steps,
            self.cell_inset,
            self.show_dist,
            self.difficulty,
            self.num_cells_width,
            self.num_cells_height,
            self.cell_width,
            self.cell_height,
        )
    }

    /// The grid is well formed and fits its generator, the cells the
    /// generator can still carve from are all on its stack, the difficulty is
    /// at least one, and the numbers of cells are in range.
    pub open spec fn wf(&self) -> bool {
        &&& self.grid@.wf()
        &&& self.generator.fits(self.grid@)
        &&& closed(self.grid@, self.generator.stack())
        &&& self.difficulty >= 1
        &&& count_ok(self.num_cells_width as int)
        &&& count_ok(self.num_cells_height as int)
    }

    /// The grid is a new maze of the state's numbers of cells and cell
    /// width, and the generator has just started on it, picking from the
    /// last cells as many as the difficulty says.
    pub open spec fn fresh_maze(&self) -> bool {
        &&& is_new_maze(self.grid@, self.num_cells_width as int, self.num_cells_height as int, self.cell_width as int)
        &&& self.generator.stack() == seq![entrance_of(self.grid@)]
        &&& self.generator.strategy() == Strategy::LastN(self.difficulty)
        &&& !self.generator.is_done()
    }

    /// Ten by ten walled cells of size twenty, a generator that has not
    /// started, picking the last cell or, one time in ten, a random one; ten
    /// steps per frame, no inset, no distances, difficulty ten.
    pub fn new() -> (s: AppState)
        ensures
            s.wf(),
            s.settings() == (10i32, 0i32, false, 10i32, 10i32, 10i32, 20i32, 20i32),
            s.grid@.width == 10 && s.grid@.height == 10 && s.grid@.cell_size == 20,
            forall|c: CellCoord| hex_in_grid(c, 10, 10) ==> #[trigger] s.grid@.cell_at(c) == Some(default_hex(c)),
            s.generator.stack().len() == 0,
            !s.generator.is_done(),
            s.generator.strategy() == Strategy::LastAndRandom(10),
    {
        let grid = HexGrid::new(10, 10, 20);
        let generator = GrowingTreeGenerator::new(Strategy::LastAndRandom(10));
        proof {
            lemma_count_free_le(grid@.cells);
            assert forall|c: CellCoord| hex_in_grid(c, 10, 10) implies !part_at(grid@, c) by {
                assert(grid@.cell_at(c) == Some(default_hex(c)));
            }
        }
        AppState {
            generator,
            grid,
            generate_steps: 10,
            show_dist: false,
            cell_inset: 0,
            difficulty: 10,
            num_cells_height: 10,
            num_cells_width: 10,
            cell_width: 20,
            cell_height: 20,
        }
    }

    /// Replaces the grid by a new maze of the state's numbers of cells and
    /// cell width, and the generator by one that has started on it, picking
    /// from the last cells as many as the difficulty says.
    pub fn generate_new_maze(&mut self)
        requires
            old(self).wf(),
        ensures
            final(self).wf(),
            final(self).fresh_maze(),
            final(self).settings() == old(self).settings(),
    {
        let w = self.num_cells_width;
        let h = self.num_cells_height;
        proof {
            assert(0 < (w + 1) * (h + 1) <= 0x4001 * 0x4001) by (nonlinear_arith)
                requires
                    1 <= w <= 0x4000,
                    1 <= h <= 0x4000,
            ;
        }
        let mut grid = HexGrid::new(w, h, self.cell_width);
        let ghost g0 = grid@;
        proof {
            assert forall|c: CellCoord| hex_in_grid(c, w as int, h as int) implies !part_at(g0, c) by {
                assert(g0.cell_at(c) == Some(default_hex(c)));
            }
        }
        grid.init();
        let mut generator = GrowingTreeGenerator::new(Strategy::LastN(self.difficulty));
        proof {
            assert forall|c: CellCoord| hex_in_grid(c, w as int, h as int) implies !part_at(grid@, c) by {
                lemma_hex_index(c, w as int, h as int);
                assert(!part_at(g0, c));
            }
            lemma_count_free_le(grid@.cells);
            assert(w * h <= 0x4000 * 0x4000) by (nonlinear_arith)
                requires
                    1 <= w <= 0x4000,
                    1 <= h <= 0x4000,
            ;
        }
        generator.init(&mut grid);
        self.grid = grid;
        self.generator = generator;
        proof {
            let (wi, hi) = (w as int, h as int);
            let g2 = started(opened(g0));
            let e = entrance_of(g0);
            let x = exit_of(g0);
            lemma_hex_index(e, wi, hi);
            lemma_hex_index(x, wi, hi);
            assert forall|c: CellCoord| hex_in_grid(c, wi, hi) implies #[trigger] g2.cell_at(c) == Some(
                new_maze_cell(c, wi, hi),
            ) by {
                lemma_hex_index(c, wi, hi);
                if hex_index(c, wi) == hex_index(e, wi) {
                    lemma_hex_index_unique(c, e, wi, hi);
                }
                if hex_index(c, wi) == hex_index(x, wi) {
                    lemma_hex_index_unique(c, x, wi, hi);
                }
                assert(g0.cell_at(c) == Some(default_hex(c)));
            }
            assert(self.grid@ == g2);
            assert(self.generator.stack() =~= seq![entrance_of(self.grid@)]);
            assert(is_new_maze(self.grid@, wi, hi, self.cell_width as int));
        }
    }

    /// Unless the generator is done, lets it take `generate_steps` steps.
    /// Each step carves from a cell of its stack or drops that cell, or
    /// finds the stack empty and marks the generator done, so a state with
    /// steps to take and a generator not done is left with less work.
    pub fn generate_maze(&mut self)
        requires
            old(self).wf(),
        ensures
            final(self).wf(),
            final(self).settings() == old(self).settings(),
            final(self).grid@.width == old(self).grid@.width,
            final(self).grid@.height == old(self).grid@.height,
            final(self).grid@.cell_size == old(self).grid@.cell_size,
            final(self).generator.strategy() == old(self).generator.strategy(),
            old(self).generator.is_done() || old(self).generate_steps <= 0 ==> final(self).grid@ == old(self).grid@
                && final(self).generator.stack() == old(self).generator.stack() && final(self).generator.is_done()
                == old(self).generator.is_done(),
            !old(self).generator.is_done() && old(self).generate_steps > 0 ==> lex_less(
                work_left(final(self).grid@, final(self).generator.stack(), final(self).generator.is_done()),
                work_left(old(self).grid@, old(self).generator.stack(), old(self).generator.is_done()),
            ),
            !old(self).generator.is_done() && old(self).generate_steps > 0 ==> exists|trace: Seq<GenState>|
                #[trigger] trace.len() == old(self).generate_steps + 1 && steps_of(
                    old(self).generator.strategy(),
                    trace,
                ) && trace[0] == (old(self).grid@, old(self).generator.stack(), old(self).generator.is_done())
                    && trace.last() == (final(self).grid@, final(self).generator.stack(), final(self).generator.is_done()),
    {
        if !self.generator.done() {
            let ghost start = work_left(self.grid@, self.generator.stack(), self.generator.is_done());
            let ghost mut trace: Seq<GenState> = seq![(self.grid@, self.generator.stack(), self.generator.is_done())];
            let mut i: i32 = 0;
            while i < self.generate_steps
                invariant
                    0 <= i,
                    i <= self.generate_steps || i == 0,
                    self.wf(),
                    self.settings() == old(self).settings(),
                    self.grid@.width == old(self).grid@.width,
                    self.grid@.height == old(self).grid@.height,
                    self.grid@.cell_size == old(self).grid@.cell_size,
                    self.generator.strategy() == old(self).generator.strategy(),
                    start == work_left(old(self).grid@, old(self).generator.stack(), old(self).generator.is_done()),
                    !old(self).generator.is_done(),
                    i == 0 ==> self.grid@ == old(self).grid@ && self.generator.stack() == old(self).generator.stack()
                        && self.generator.is_done() == old(self).generator.is_done(),
                    i > 0 ==> lex_less(work_left(self.grid@, self.generator.stack(), self.generator.is_done()), start),
                    trace.len() == i + 1,
                    steps_of(self.generator.strategy(), trace),
                    trace[0] == (old(self).grid@, old(self).generator.stack(), old(self).generator.is_done()),
                    trace.last() == (self.grid@, self.generator.stack(), self.generator.is_done()),
                decreases self.generate_steps - i,
            {
                let ghost before: GenState = (self.grid@, self.generator.stack(), self.generator.is_done());
                self.generator.generate_step(&mut self.grid);
                proof {
                    let after: GenState = (self.grid@, self.generator.stack(), self.generator.is_done());
                    assert(stepped(self.generator.strategy(), before, after));
                    let t2 = trace.push(after);
                    assert forall|k: int| 0 <= k < t2.len() - 1 implies stepped(
                        self.generator.strategy(),
                        #[trigger] t2[k],
                        t2[k + 1],
                    ) by {
                        if k < trace.len() - 1 {
                            assert(t2[k] == trace[k] && t2[k + 1] == trace[k + 1]);
                        } else {
                            assert(t2[k] == before);
                        }
                    }
                    trace = t2;
                }
                i = i + 1;
            }
        }
    }

    /// The size in pixels of the window content: the grid, whose rows are
    /// `row_height` pixels high, and a margin on each side.
    pub fn get_maze_size(&self, row_height: i32) -> (r: (i32, i32))
        requires
            size_fits(self.grid@, row_height as int),
        ensures
            r.0 == maze_size(self.grid@, row_height as int).0,
            r.1 == maze_size(self.grid@, row_height as int).1,
    {
        let grid_size = self.grid.get_size_in_pixels(row_height);
        (grid_size.0 + (MARGIN * 2), grid_size.1 + (MARGIN * 2))
    }

    /// The window title: the generator's name, the difficulty and the steps
    /// per frame.
    pub fn get_title(&self) -> (r: String)
        ensures
            r@ == title(self.difficulty as int, self.generate_steps as int),
    {
        let mut s = String::new();
        string_push_str(&mut s, "Maze type: ");
        string_push_str(&mut s, self.generator.name());
        string_push_str(&mut s, " -- Difficulty: ");
        push_signed(&mut s, self.difficulty);
        string_push_str(&mut s, " -- Generation speed: ");
        push_signed(&mut s, self.generate_steps);
        string_push_str(&mut s, " ");
        s
    }

    /// One step fewer per frame, and at least one.
    pub fn generate_slower(&mut self)
        requires
            old(self).generate_steps > i32::MIN,
        ensures
            final(self).settings() == ({
                let n = old(self).generate_steps - 1;
                if n < 1 { 1i32 } else { n as i32 }
            }, old(self).cell_inset, old(self).show_dist, old(self).difficulty, old(self).num_cells_width,
                old(self).num_cells_height, old(self).cell_width, old(self).cell_height),
            final(self).grid == old(self).grid,
            final(self).generator == old(self).generator,
    {
        self.generate_steps = self.generate_steps - 1;
        if self.generate_steps < 1 {
            self.generate_steps = 1
        }
    }

    /// One step more per frame, and at most a hundred.
    pub fn generate_faster(&mut self)
        requires
            old(self).generate_steps < i32::MAX,
        ensures
            final(self).settings() == ({
                let n = old(self).generate_steps + 1;
                if n > 100 { 100i32 } else { n as i32 }
            }, old(self).cell_inset, old(self).show_dist, old(self).difficulty, old(self).num_cells_width,
                old(self).num_cells_height, old(self).cell_width, old(self).cell_height),
            final(self).grid == old(self).grid,
            final(self).generator == old(self).generator,
    {
        self.generate_steps = self.generate_steps + 1;
        if self.generate_steps > 100 {
            self.generate_steps = 100
        }
    }

    /// Gives the cells their distances from the cell at `start` (see
    /// `Djikstra::run`), where the grid and `start` allow it (`runnable`),
    /// and returns whether it did; otherwise nothing changes. The settings,
    /// the generator and the maze itself stay as they were.
    pub fn show_distances_from(&mut self, start: CellCoord) -> (r: bool)
        requires
            old(self).wf(),
        ensures
            final(self).wf(),
            r == runnable(old(self).grid, start),
            !r ==> final(self).grid == old(self).grid,
            r ==> distances_from(old(self).grid, final(self).grid, start),
            final(self).settings() == old(self).settings(),
            final(self).generator == old(self).generator,
    {
        let mut d: Djikstra<CellCoord> = Djikstra::new();
        let ghost g0 = self.grid@;
        let r = d.run_checked(start, &mut self.grid);
        proof {
            if r {
                lemma_distances_keep_maze(g0, self.grid@, self.generator.stack());
            }
        }
        r
    }

    /// Shows distances where they were hidden, and hides them where shown.
    pub fn toggle_show_distance(&mut self)
        ensures
            final(self).settings() == (old(self).generate_steps, old(self).cell_inset, !old(self).show_dist,
                old(self).difficulty, old(self).num_cells_width, old(self).num_cells_height, old(self).cell_width,
                old(self).cell_height),
            final(self).grid == old(self).grid,
            final(self).generator == old(self).generator,
    {
        self.show_dist = !self.show_dist;
    }

    /// An inset one pixel smaller, and at least zero.
    pub fn inset_smaller(&mut self)
        requires
            old(self).cell_inset > i32::MIN,
        ensures
            final(self).settings() == (old(self).generate_steps, inset_less(old(self).cell_inset as int), old(self).show_dist, old(self).difficulty, old(self).num_cells_width, old(self).num_cells_height,
                old(self).cell_width, old(self).cell_height),
            final(self).grid == old(self).grid,
            final(self).generator == old(self).generator,
    {
        self.cell_inset = self.cell_inset - 1;
        if self.cell_inset < 0 {
            self.cell_inset = 0;
        }
    }

    /// An inset one pixel larger, and at most a quarter of the cell width
    /// (Rust's division, which rounds toward zero).
    pub fn inset_larger(&mut self)
        requires
            old(self).cell_inset < i32::MAX,
        ensures
            final(self).settings() == (old(self).generate_steps, inset_more(
                old(self).cell_inset as int,
                old(self).cell_width as int,
            ), old(self).show_dist, old(self).difficulty, old(self).num_cells_width, old(self).num_cells_height,
                old(self).cell_width, old(self).cell_height),
            final(self).grid == old(self).grid,
            final(self).generator == old(self).generator,
    {
        self.cell_inset = self.cell_inset + 1;
        if self.cell_inset > self.cell_width / 4 {
            self.cell_inset = self.cell_width / 4;
        }
    }

    /// Cells one pixel smaller, and at least five; the grid takes the new
    /// cell height as its cell size.
    pub fn cell_size_smaller(&mut self)
        requires
            old(self).wf(),
            old(self).cell_width > i32::MIN,
            old(self).cell_height > i32::MIN,
        ensures
            final(self).wf(),
            ({
                let clamped = old(self).cell_width - 1 < 5;
                let w = if clamped { 5i32 } else { (old(self).cell_width - 1) as i32 };
                let h = if clamped { 5i32 } else { (old(self).cell_height - 1) as i32 };
                &&& final(self).settings() == (old(self).generate_steps, old(self).cell_inset, old(self).show_dist,
                    old(self).difficulty, old(self).num_cells_width, old(self).num_cells_height, w, h)
                &&& final(self).grid@ == (HexGridV { cell_size: h, ..old(self).grid@ })
            }),
            final(self).generator == old(self).generator,
    {
        self.cell_height = self.cell_height - 1;
        self.cell_width = self.cell_width - 1;
        if self.cell_width < 5 {
            self.cell_width = 5;
            self.cell_height = 5;
        }
        let ghost before = self.grid@;
        self.grid.set_cell_size(self.cell_height);
        proof {
            lemma_resized_closed(before, self.grid@, self.generator.stack());
        }
    }

    /// Cells one pixel larger, unless the window content for the grid as it
    /// is, with rows `row_height` pixels high, is already wider or higher
    /// than the window; the grid takes the cell height as its cell size.
    pub fn cell_size_larger(&mut self, row_height: i32)
        requires
            old(self).wf(),
            old(self).cell_width < i32::MAX,
            old(self).cell_height < i32::MAX,
            size_fits(old(self).grid@, row_height as int),
        ensures
            final(self).wf(),
            ({
                let size = maze_size(old(self).grid@, row_height as int);
                let too_big = size.0 > WIDTH || size.1 > HEIGHT;
                let w = if too_big { old(self).cell_width } else { (old(self).cell_width + 1) as i32 };
                let h = if too_big { old(self).cell_height } else { (old(self).cell_height + 1) as i32 };
                &&& final(self).settings() == (old(self).generate_steps, old(self).cell_inset, old(self).show_dist,
                    old(self).difficulty, old(self).num_cells_width, old(self).num_cells_height, w, h)
                &&& final(self).grid@ == (HexGridV { cell_size: h, ..old(self).grid@ })
            }),
            final(self).generator == old(self).generator,
    {
        self.cell_height = self.cell_height + 1;
        self.cell_width = self.cell_width + 1;
        let size = self.get_maze_size(row_height);
        if size.0 > WIDTH || size.1 > HEIGHT {
            self.cell_height = self.cell_height - 1;
            self.cell_width = self.cell_width - 1;
        }
        let ghost before = self.grid@;
        self.grid.set_cell_size(self.cell_height);
        proof {
            lemma_resized_closed(before, self.grid@, self.generator.stack());
        }
    }

    /// Two rows more, unless the window content for the grid as it is, with
    /// rows `row_height` pixels high, is already higher than the window; then
    /// a new maze.
    pub fn num_cell_height_inc(&mut self, row_height: i32)
        requires
            old(self).wf(),
            old(self).num_cells_height + 2 <= 0x4000,
            size_fits(old(self).grid@, row_height as int),
        ensures
            final(self).wf(),
            final(self).fresh_maze(),
            final(self).settings() == (old(self).generate_steps, old(self).cell_inset, old(self).show_dist,
                old(self).difficulty, old(self).num_cells_width, if maze_size(old(self).grid@, row_height as int).1
                > HEIGHT {
                old(self).num_cells_height
            } else {
                (old(self).num_cells_height + 2) as i32
            }, old(self).cell_width, old(self).cell_height),
    {
        self.num_cells_height = self.num_cells_height + 2;
        if self.get_maze_size(row_height).1 > HEIGHT {
            self.num_cells_height = self.num_cells_height - 2;
        }
        self.generate_new_maze();
    }

    /// Two rows fewer, and two where that leaves none; then a new maze.
    pub fn num_cell_height_dec(&mut self)
        requires
            old(self).wf(),
        ensures
            final(self).wf(),
            final(self).fresh_maze(),
            final(self).settings() == (old(self).generate_steps, old(self).cell_inset, old(self).show_dist,
                old(self).difficulty, old(self).num_cells_width, if old(self).num_cells_height - 2 < 1 {
                2i32
            } else {
                (old(self).num_cells_height - 2) as i32
            }, old(self).cell_width, old(self).cell_height),
    {
        self.num_cells_height = self.num_cells_height - 2;
        if self.num_cells_height < 1 {
            self.num_cells_height = 2
        }
        self.generate_new_maze();
    }

    /// Two columns more, unless the window content for the grid as it is,
    /// with rows `row_height` pixels high, is already wider than the window;
    /// then a new maze.
    pub fn num_cell_width_inc(&mut self, row_height: i32)
        requires
            old(self).wf(),
            old(self).num_cells_width + 2 <= 0x4000,
            size_fits(old(self).grid@, row_height as int),
        ensures
            final(self).wf(),
            final(self).fresh_maze(),
            final(self).settings() == (old(self).generate_steps, old(self).cell_inset, old(self).show_dist,
                old(self).difficulty, if maze_size(old(self).grid@, row_height as int).0 > WIDTH {
                old(self).num_cells_width
            } else {
                (old(self).num_cells_width + 2) as i32
            }, old(self).num_cells_height, old(self).cell_width, old(self).cell_height),
    {
        self.num_cells_width = self.num_cells_width + 2;
        if self.get_maze_size(row_height).0 > WIDTH {
            self.num_cells_width = self.num_cells_width - 2;
        }
        self.generate_new_maze();
    }

    /// Two columns fewer, and two where that leaves none; then a new maze.
    pub fn num_cell_width_dec(&mut self)
        requires
            old(self).wf(),
        ensures
            final(self).wf(),
            final(self).fresh_maze(),
            final(self).settings() == (old(self).generate_steps, old(self).cell_inset, old(self).show_dist,
                old(self).difficulty, if old(self).num_cells_width - 2 < 1 {
                2i32
            } else {
                (old(self).num_cells_width - 2) as i32
            }, old(self).num_cells_height, old(self).cell_width, old(self).cell_height),
    {
        self.num_cells_width = self.num_cells_width - 2;
        if self.num_cells_width < 1 {
            self.num_cells_width = 2
        }
        self.generate_new_maze();
    }

    /// Difficulty one lower, and at least one; then a new maze.
    pub fn difficulty_harder(&mut self)
        requires
            old(self).wf(),
        ensures
            final(self).wf(),
            final(self).fresh_maze(),
            final(self).settings() == (old(self).generate_steps, old(self).cell_inset, old(self).show_dist,
                if old(self).difficulty - 1 < 1 {
                1i32
            } else {
                (old(self).difficulty - 1) as i32
            }, old(self).num_cells_width, old(self).num_cells_height, old(self).cell_width, old(self).cell_height),
    {
        self.difficulty = self.difficulty - 1;
        if self.difficulty < 1 {
            self.difficulty = 1
        }
        self.generate_new_maze();
    }

    /// Difficulty one higher; then a new maze.
    pub fn difficulty_easier(&mut self)
        requires
            old(self).wf(),
            old(self).difficulty < i32::MAX,
        ensures
            final(self).wf(),
            final(self).fresh_maze(),
            final(self).settings() == (old(self).generate_steps, old(self).cell_inset, old(self).show_dist,
                (old(self).difficulty + 1) as i32, old(self).num_cells_width, old(self).num_cells_height,
                old(self).cell_width, old(self).cell_height),
    {
        self.difficulty = self.difficulty + 1;
        self.generate_new_maze();
    }
}

/// Once the generator's stack is empty, no cell of the maze has a neighbour
/// left to carve to: the maze cannot grow any further.
pub proof fn lemma_emptied_stack_leaves_nothing_to_carve(s: AppState)
    requires
        s.wf(),
        s.generator.stack().len() == 0,
    ensures
        forall|c: CellCoord|
            hex_in_grid(c, s.grid@.width as int, s.grid@.height as int) && part_at(s.grid@, c) ==> #[trigger] stuck(
                s.grid@,
                c,
            ),
{
    assert forall|c: CellCoord|
        hex_in_grid(c, s.grid@.width as int, s.grid@.height as int) && part_at(s.grid@, c) implies #[trigger] stuck(
        s.grid@,
        c,
    ) by {
        assert(!s.generator.stack().contains(c));
    }
}

} // verus!
