//! The growing-tree maze generator on the hexagonal grid: keep a stack of
//! cells, pick one by a strategy, and carve from it to a random neighbour
//! that is not yet part of the maze, or drop it when there is none.
use vstd::prelude::*;
use crate::maze::common::CELL_ACTIVE_COLOR;
use crate::maze::grid::hex_grid::{
    HexCellV, HexGrid, HexGridV, entrance_of, hex_in_grid, hex_index, lemma_hex_index, lemma_hex_index_unique, opened,
};
use crate::maze::grid::types::CellCoord;
use crate::maze_maker::grids::Direction;
use crate::random::random_below;

verus! {

/// How the generator picks the next cell from its stack.
pub enum Strategy {
    Last,
    First,
    FirstN(i32),
    Random,
    LastN(i32),
    LastAndRandom(i32),
}

/// The generator: whether it is done, the stack of cells it may still carve
/// from, and its strategy.
pub struct GrowingTreeGenerator {
    pub done: bool,
    stack: Vec<CellCoord>,
    strategy: Strategy,
}

/// `r` is a possible random draw below `max` (zero where `max` is zero).
pub open spec fn draw_ok(max: int, r: int) -> bool {
    if max == 0 {
        r == 0
    } else {
        0 <= r < max
    }
}

/// The draws `a` and `b` are possible for the strategy on a stack of `len`
/// cells (`b` is drawn only by the last-and-random strategy after a zero `a`).
pub open spec fn draws_ok(s: Strategy, len: int, a: int, b: int) -> bool {
    match s {
        Strategy::Random => draw_ok(len, a) && b == 0,
        Strategy::First => a == 0 && b == 0,
        Strategy::Last => a == 0 && b == 0,
        Strategy::FirstN(num) => draw_ok((num as usize) as int, a) && b == 0,
        Strategy::LastN(num) => draw_ok((num as usize) as int, a) && b == 0,
        Strategy::LastAndRandom(num) => draw_ok((num as usize) as int, a) && if a == 0 {
            draw_ok(len, b)
        } else {
            b == 0
        },
    }
}

/// The index the strategy picks on a stack of `len` cells from the draws `a`
/// and `b`: a random index; the first; one of the first `n` (the last cell
/// where the draw is past the stack); the last; one of the last `n` (the
/// first cell where the draw is past the stack); or, one time in `n`, a
/// random index and otherwise the last.
pub open spec fn next_index(s: Strategy, len: int, a: int, b: int) -> int {
    match s {
        Strategy::Random => a,
        Strategy::First => 0,
        Strategy::FirstN(_) => if a >= len {
            len - 1
        } else {
            a
        },
        Strategy::Last => len - 1,
        Strategy::LastN(_) => if len - 1 - a < 0 {
            0
        } else {
            len - 1 - a
        },
        Strategy::LastAndRandom(_) => if a == 0 {
            b
        } else {
            len - 1
        },
    }
}

/// `r` is the index picked from possible draws `a` and `b`.
pub open spec fn picked_by(s: Strategy, len: int, a: int, b: int, r: int) -> bool {
    draws_ok(s, len, a, b) && r == next_index(s, len, a, b)
}

/// Where each strategy picks on a stack of `len` cells: `Random` anywhere,
/// `First` the first cell, `Last` the last, `FirstN(n)` among the first `n`
/// cells, `LastN(n)` among the last `n` (the last one for `n` of one or
/// less), and `LastAndRandom` anywhere.
pub proof fn lemma_picked_index(s: Strategy, len: int, a: int, b: int, r: int)
    requires
        len > 0,
        picked_by(s, len, a, b, r),
        s matches Strategy::LastN(num) ==> num >= 0,
        s matches Strategy::FirstN(num) ==> num >= 0,
        s matches Strategy::LastAndRandom(num) ==> num >= 0,
    ensures
        0 <= r < len,
        s is First ==> r == 0,
        s is Last ==> r == len - 1,
        s matches Strategy::FirstN(n) ==> (n >= 1 ==> r < n) && (n <= 1 ==> r == 0),
        s matches Strategy::LastN(n) ==> (n >= 1 ==> r >= len - n) && (n <= 1 ==> r == len - 1),
{
}

/// A state of a generation: the grid, the generator's stack, and whether
/// the generator is done.
pub type GenState = (HexGridV, Seq<CellCoord>, bool);

/// `y` is what one `generate_step` with strategy `s` can make of `x`: with
/// an empty stack the generator becomes done and nothing else changes;
/// otherwise one step from a cell of the stack that the strategy can pick,
/// in a direction among those allowed.
pub open spec fn stepped(s: Strategy, x: GenState, y: GenState) -> bool {
    if x.1.len() == 0 {
        y.2 && y.0 == x.0 && y.1 == x.1
    } else {
        y.2 == x.2 && exists|idx: int, r: int|
            (y.0, y.1) == #[trigger] step_result(x.0, x.1, idx, r) && exists|a: int, b: int|
                picked_by(s, x.1.len() as int, a, b, idx)
    }
}

/// Each state of `trace` is one step (`stepped`) from the one before.
pub open spec fn steps_of(s: Strategy, trace: Seq<GenState>) -> bool {
    forall|k: int| 0 <= k < trace.len() - 1 ==> stepped(s, #[trigger] trace[k], trace[k + 1])
}

/// The strategy can be applied without overflow: the stack length fits in
/// an `i32`, and the last-`n` strategy has no negative `n`.
pub open spec fn strategy_fits(s: Strategy, len: int) -> bool {
    &&& len <= i32::MAX
    &&& (s matches Strategy::LastN(num) ==> num >= 0)
}

/// The grid with the colour of the cell at `c` set.
pub open spec fn colored(g: HexGridV, c: CellCoord, color: Option<u32>) -> HexGridV {
    let i = hex_index(c, g.width as int);
    HexGridV { cells: g.cells.update(i, HexCellV { color: color, ..g.cells[i] }), ..g }
}

/// The grid and stack after one step from the cell at index `idx`: the cell
/// is coloured as active; where no passage can be carved from it, it loses
/// its colour and leaves the stack; otherwise the passage in the allowed
/// direction picked by `r` is carved and the cell reached joins the stack.
pub open spec fn step_result(g: HexGridV, stack: Seq<CellCoord>, idx: int, r: int) -> (HexGridV, Seq<CellCoord>) {
    let c = stack[idx];
    let active = colored(g, c, Some(CELL_ACTIVE_COLOR));
    let dirs = active.allowed_directions(c);
    if dirs.len() == 0 {
        (colored(active, c, None), stack.remove(idx))
    } else {
        let d = dirs[r];
        (active.carved(c, d), stack.push(active.cell_in_dir(c, d).unwrap()))
    }
}

/// Colouring a cell does not change where passages can be carved.
proof fn lemma_colored_dirs(g: HexGridV, c: CellCoord, color: Option<u32>, p: CellCoord)
    requires
        0 <= hex_index(c, g.width as int) < g.cells.len(),
    ensures
        colored(g, c, color).allowed_directions(p) == g.allowed_directions(p),
{
    let h = colored(g, c, color);
    let i = hex_index(c, g.width as int);
    assert forall|d: Direction| #[trigger] h.can_carve(p, d) == g.can_carve(p, d) by {
        if let Some(t) = g.cell_in_dir(p, d) {
            let ti = hex_index(t, g.width as int);
            if 0 <= ti < g.cells.len() {
                if ti == i {
                    assert(h.cells[ti].part_of_maze == g.cells[ti].part_of_maze);
                } else {
                    assert(h.cells[ti] == g.cells[ti]);
                }
            }
        }
    }
    assert((|d: Direction| h.can_carve(p, d)) =~= (|d: Direction| g.can_carve(p, d)));
}

/// The number of cells not yet part of the maze.
pub open spec fn count_free(s: Seq<HexCellV>) -> nat
    decreases s.len(),
{
    if s.len() == 0 {
        0
    } else {
        count_free(s.drop_last()) + if s.last().part_of_maze {
            0nat
        } else {
            1nat
        }
    }
}

/// At most every cell is not yet part of the maze.
pub proof fn lemma_count_free_le(s: Seq<HexCellV>)
    ensures
        count_free(s) <= s.len(),
    decreases s.len(),
{
    if s.len() > 0 {
        lemma_count_free_le(s.drop_last());
    }
}

/// The grid once the generator has started on it: its entrance and exit
/// opened, and its entrance part of the maze.
pub open spec fn started(g: HexGridV) -> HexGridV {
    let o = opened(g);
    let i = hex_index(entrance_of(g), g.width as int);
    HexGridV { cells: o.cells.update(i, HexCellV { part_of_maze: true, ..o.cells[i] }), ..o }
}

/// What is left to do, ordered lexicographically: the cells not yet part of
/// the maze, the cells on the stack, and one until the generator is done.
pub open spec fn work_left(g: HexGridV, stack: Seq<CellCoord>, done: bool) -> (nat, nat, nat) {
    (count_free(g.cells), stack.len(), if done {
        0nat
    } else {
        1nat
    })
}

/// `a` comes lexicographically before `b`.
pub open spec fn lex_less(a: (nat, nat, nat), b: (nat, nat, nat)) -> bool {
    a.0 < b.0 || (a.0 == b.0 && (a.1 < b.1 || (a.1 == b.1 && a.2 < b.2)))
}

/// The cell at `c` is part of the maze.
pub open spec fn part_at(g: HexGridV, c: CellCoord) -> bool {
    g.cells[hex_index(c, g.width as int)].part_of_maze
}

/// No passage can be carved from the cell at `c`: each of its six sides
/// leads out of the grid or to a cell already part of the maze.
pub open spec fn stuck(g: HexGridV, c: CellCoord) -> bool {
    &&& !g.can_carve(c, Direction::North)
    &&& !g.can_carve(c, Direction::South)
    &&& !g.can_carve(c, Direction::NorthEast)
    &&& !g.can_carve(c, Direction::NorthWest)
    &&& !g.can_carve(c, Direction::SouthEast)
    &&& !g.can_carve(c, Direction::SouthWest)
}

/// Every cell of the maze that is not on the stack is stuck: the cells the
/// generator can still carve from are all on its stack.
pub open spec fn closed(g: HexGridV, stack: Seq<CellCoord>) -> bool {
    forall|c: CellCoord|
        hex_in_grid(c, g.width as int, g.height as int) && part_at(g, c) && !stack.contains(c) ==> #[trigger] stuck(g, c)
}

/// `h` is `g` with perhaps more cells part of the maze.
pub open spec fn grows(g: HexGridV, h: HexGridV) -> bool {
    &&& h.width == g.width && h.height == g.height && h.cells.len() == g.cells.len()
    &&& forall|t: CellCoord| hex_in_grid(t, g.width as int, g.height as int) && #[trigger] part_at(g, t) ==> part_at(h, t)
}

/// A stuck cell stays stuck as the maze grows.
proof fn lemma_stuck_grows(g: HexGridV, h: HexGridV, c: CellCoord)
    requires
        g.wf(),
        grows(g, h),
        stuck(g, c),
    ensures
        stuck(h, c),
{
    let ds = seq![
        Direction::North,
        Direction::South,
        Direction::NorthEast,
        Direction::NorthWest,
        Direction::SouthEast,
        Direction::SouthWest,
    ];
    assert forall|i: int| 0 <= i < 6 implies !h.can_carve(c, #[trigger] ds[i]) by {
        let d = ds[i];
        if let Some(t) = h.cell_in_dir(c, d) {
            lemma_hex_index(t, g.width as int, g.height as int);
            assert(g.cell_in_dir(c, d) == Some(t));
            if !part_at(g, t) {
                assert(g.can_carve(c, d));
            }
        }
    }
    assert(!h.can_carve(c, ds[0]) && !h.can_carve(c, ds[1]) && !h.can_carve(c, ds[2]) && !h.can_carve(c, ds[3])
        && !h.can_carve(c, ds[4]) && !h.can_carve(c, ds[5]));
}

/// One step of the generator keeps the cells it can still carve from on its
/// stack.
proof fn lemma_step_keeps_closed(g: HexGridV, st: Seq<CellCoord>, idx: int, r: int)
    requires
        g.wf(),
        0 <= idx < st.len(),
        forall|i: int| 0 <= i < st.len() ==> hex_in_grid(#[trigger] st[i], g.width as int, g.height as int),
        ({
            let dirs = colored(g, st[idx], Some(CELL_ACTIVE_COLOR)).allowed_directions(st[idx]);
            dirs.len() > 0 ==> 0 <= r < dirs.len()
        }),
    ensures
        grows(g, step_result(g, st, idx, r).0),
        closed(g, st) ==> closed(step_result(g, st, idx, r).0, step_result(g, st, idx, r).1),
{
    let c = st[idx];
    let w = g.width as int;
    let h = g.height as int;
    lemma_hex_index(c, w, h);
    let active = colored(g, c, Some(CELL_ACTIVE_COLOR));
    let dirs = active.allowed_directions(c);
    let (g2, st2) = step_result(g, st, idx, r);
    assert(st.contains(c));
    assert(grows(g, active)) by {
        assert forall|t: CellCoord| hex_in_grid(t, w, h) && #[trigger] part_at(g, t) implies part_at(active, t) by {
            lemma_hex_index(t, w, h);
        }
    }
    if dirs.len() == 0 {
        assert(stuck(active, c)) by {
            reveal_with_fuel(Seq::filter, 7);
        }
        assert(grows(active, g2)) by {
            assert forall|t: CellCoord| hex_in_grid(t, w, h) && #[trigger] part_at(active, t) implies part_at(g2, t) by {
                lemma_hex_index(t, w, h);
            }
        }
        assert(grows(g, g2)) by {
            assert forall|t: CellCoord| hex_in_grid(t, w, h) && #[trigger] part_at(g, t) implies part_at(g2, t) by {
                lemma_hex_index(t, w, h);
            }
        }
        if closed(g, st) {
        assert forall|x: CellCoord|
            hex_in_grid(x, w, h) && part_at(g2, x) && !st2.contains(x) implies #[trigger] stuck(g2, x) by {
            lemma_hex_index(x, w, h);
            if x == c {
                lemma_stuck_grows(active, g2, c);
            } else {
                if st.contains(x) {
                    let j = choose|j: int| 0 <= j < st.len() && st[j] == x;
                    if j < idx {
                        assert(st2[j] == x);
                    } else {
                        assert(st2[j - 1] == x);
                    }
                }
                assert(stuck(g, x));
                lemma_stuck_grows(g, g2, x);
            }
        }
        }
    } else {
        let ds = seq![
            Direction::North,
            Direction::South,
            Direction::NorthEast,
            Direction::NorthWest,
            Direction::SouthEast,
            Direction::SouthWest,
        ];
        let f = |d: Direction| active.can_carve(c, d);
        ds.lemma_filter_pred(f, r);
        let d = dirs[r];
        assert(active.can_carve(c, d));
        let e = active.cell_in_dir(c, d).unwrap();
        lemma_hex_index(e, w, h);
        assert(grows(g, g2)) by {
            assert forall|t: CellCoord| hex_in_grid(t, w, h) && #[trigger] part_at(g, t) implies part_at(g2, t) by {
                lemma_hex_index(t, w, h);
            }
        }
        if closed(g, st) {
        assert forall|x: CellCoord|
            hex_in_grid(x, w, h) && part_at(g2, x) && !st2.contains(x) implies #[trigger] stuck(g2, x) by {
            lemma_hex_index(x, w, h);
            assert(st2[st.len() as int] == e);
            if st.contains(x) {
                let j = choose|j: int| 0 <= j < st.len() && st[j] == x;
                assert(st2[j] == x);
            }
            assert(st2[idx] == c);
            if hex_index(x, w) == hex_index(c, w) {
                lemma_hex_index_unique(x, c, w, h);
            }
            if hex_index(x, w) == hex_index(e, w) {
                lemma_hex_index_unique(x, e, w, h);
            }
            assert(part_at(g, x));
            assert(stuck(g, x));
            lemma_stuck_grows(g, g2, x);
        }
        }
    }
}

/// Starting on a grid keeps the cells the generator can carve from on its
/// stack: the entrance joins both the maze and the stack.
proof fn lemma_start_keeps_closed(g: HexGridV, st: Seq<CellCoord>)
    requires
        g.wf(),
        g.width > 0,
        g.height > 0,
        closed(g, st),
    ensures
        closed(started(g), st.push(entrance_of(g))),
{
    let w = g.width as int;
    let h = g.height as int;
    let s = entrance_of(g);
    let g2 = started(g);
    let st2 = st.push(s);
    lemma_hex_index(s, w, h);
    lemma_hex_index(crate::maze::grid::hex_grid::exit_of(g), w, h);
    assert(grows(g, g2)) by {
        assert forall|t: CellCoord| hex_in_grid(t, w, h) && #[trigger] part_at(g, t) implies part_at(g2, t) by {
            lemma_hex_index(t, w, h);
        }
    }
    assert forall|x: CellCoord| hex_in_grid(x, w, h) && part_at(g2, x) && !st2.contains(x) implies #[trigger] stuck(
        g2,
        x,
    ) by {
        lemma_hex_index(x, w, h);
        assert(st2[st.len() as int] == s);
        if st.contains(x) {
            let j = choose|j: int| 0 <= j < st.len() && st[j] == x;
            assert(st2[j] == x);
        }
        if hex_index(x, w) == hex_index(s, w) {
            lemma_hex_index_unique(x, s, w, h);
        }
        assert(part_at(g, x));
        assert(stuck(g, x));
        lemma_stuck_grows(g, g2, x);
    }
}

/// Some cell of the grid is part of the maze.
pub open spec fn has_maze_cell(g: HexGridV) -> bool {
    exists|s: CellCoord| hex_in_grid(s, g.width as int, g.height as int) && #[trigger] part_at(g, s)
}

/// Every cell of the maze is stuck.
pub open spec fn all_stuck(g: HexGridV) -> bool {
    forall|c: CellCoord| hex_in_grid(c, g.width as int, g.height as int) && part_at(g, c) ==> #[trigger] stuck(g, c)
}

/// The cell one step from a stuck cell of the maze, where it is in the
/// grid, is part of the maze.
proof fn lemma_stuck_neighbour(g: HexGridV, c: CellCoord, d: Direction)
    requires
        g.wf(),
        hex_in_grid(c, g.width as int, g.height as int),
        stuck(g, c),
        !(d is East) && !(d is West),
        hex_in_grid(crate::maze::grid::hex_grid::hex_step(c, d), g.width as int, g.height as int),
    ensures
        part_at(g, crate::maze::grid::hex_grid::hex_step(c, d)),
{
    let t = crate::maze::grid::hex_grid::hex_step(c, d);
    lemma_hex_index(t, g.width as int, g.height as int);
    assert(g.cell_in_dir(c, d) == Some(t));
    assert(!g.can_carve(c, d));
}

/// In a maze whose cells are all stuck, a column with one cell of the maze
/// lies wholly in the maze: from row `y0` the rows up to `y` are reached.
proof fn lemma_column_up(g: HexGridV, x: int, y0: int, y: int)
    requires
        g.wf(),
        all_stuck(g),
        0 <= x < g.width,
        0 <= y0 <= y < g.height,
        part_at(g, CellCoord { x_pos: x as i32, y_pos: y0 as i32 }),
    ensures
        part_at(g, CellCoord { x_pos: x as i32, y_pos: y as i32 }),
    decreases y - y0,
{
    if y > y0 {
        lemma_column_up(g, x, y0, y - 1);
        let c = CellCoord { x_pos: x as i32, y_pos: (y - 1) as i32 };
        assert(stuck(g, c));
        lemma_stuck_neighbour(g, c, Direction::North);
    }
}

/// From row `y0` the rows down to `y` are reached.
proof fn lemma_column_down(g: HexGridV, x: int, y0: int, y: int)
    requires
        g.wf(),
        all_stuck(g),
        0 <= x < g.width,
        0 <= y <= y0 < g.height,
        part_at(g, CellCoord { x_pos: x as i32, y_pos: y0 as i32 }),
    ensures
        part_at(g, CellCoord { x_pos: x as i32, y_pos: y as i32 }),
    decreases y0 - y,
{
    if y < y0 {
        lemma_column_down(g, x, y0, y + 1);
        let c = CellCoord { x_pos: x as i32, y_pos: (y + 1) as i32 };
        assert(stuck(g, c));
        lemma_stuck_neighbour(g, c, Direction::South);
    }
}

/// Every cell of column `x` is part of the maze.
pub open spec fn column_in_maze(g: HexGridV, x: int) -> bool {
    forall|c: CellCoord| c.x_pos == x && 0 <= c.y_pos < g.height ==> #[trigger] part_at(g, c)
}

/// A column with one cell of the maze lies wholly in the maze.
proof fn lemma_column(g: HexGridV, x: int, y0: int)
    requires
        g.wf(),
        all_stuck(g),
        0 <= x < g.width,
        0 <= y0 < g.height,
        part_at(g, CellCoord { x_pos: x as i32, y_pos: y0 as i32 }),
    ensures
        column_in_maze(g, x),
{
    assert forall|c: CellCoord| c.x_pos == x && 0 <= c.y_pos < g.height implies #[trigger] part_at(g, c) by {
        let y = c.y_pos as int;
        if y >= y0 {
            lemma_column_up(g, x, y0, y);
        } else {
            lemma_column_down(g, x, y0, y);
        }
        assert(c == CellCoord { x_pos: x as i32, y_pos: y as i32 });
    }
}

/// With at least two rows, the columns east of a column of the maze, up to
/// column `x`, lie wholly in the maze (a north-east step reaches the next
/// column from the first row).
proof fn lemma_columns_east(g: HexGridV, x0: int, x: int)
    requires
        g.wf(),
        all_stuck(g),
        g.height >= 2,
        0 <= x0 <= x < g.width,
        column_in_maze(g, x0),
    ensures
        column_in_maze(g, x),
    decreases x - x0,
{
    if x > x0 {
        lemma_columns_east(g, x0, x - 1);
        let c = CellCoord { x_pos: (x - 1) as i32, y_pos: 0i32 };
        assert(part_at(g, c));
        assert(stuck(g, c));
        lemma_stuck_neighbour(g, c, Direction::NorthEast);
        let t = crate::maze::grid::hex_grid::hex_step(c, Direction::NorthEast);
        lemma_column(g, x, t.y_pos as int);
    }
}

/// With at least two rows, the columns west of a column of the maze, down
/// to column `x`, lie wholly in the maze (a north-west step reaches the
/// column before from the first row).
proof fn lemma_columns_west(g: HexGridV, x0: int, x: int)
    requires
        g.wf(),
        all_stuck(g),
        g.height >= 2,
        0 <= x <= x0 < g.width,
        column_in_maze(g, x0),
    ensures
        column_in_maze(g, x),
    decreases x0 - x,
{
    if x < x0 {
        lemma_columns_west(g, x0, x + 1);
        let c = CellCoord { x_pos: (x + 1) as i32, y_pos: 0i32 };
        assert(part_at(g, c));
        assert(stuck(g, c));
        lemma_stuck_neighbour(g, c, Direction::NorthWest);
        let t = crate::maze::grid::hex_grid::hex_step(c, Direction::NorthWest);
        lemma_column(g, x, t.y_pos as int);
    }
}

/// A maze of a grid at least two rows high, holding some cell, whose cells
/// are all stuck, holds every cell of the grid: a finished generator has
/// carved the whole grid.
pub proof fn lemma_stuck_maze_covers_grid(g: HexGridV, s: CellCoord)
    requires
        g.wf(),
        g.height >= 2,
        hex_in_grid(s, g.width as int, g.height as int),
        part_at(g, s),
        all_stuck(g),
    ensures
        forall|t: CellCoord| hex_in_grid(t, g.width as int, g.height as int) ==> #[trigger] part_at(g, t),
{
    lemma_column(g, s.x_pos as int, s.y_pos as int);
    assert forall|t: CellCoord| hex_in_grid(t, g.width as int, g.height as int) implies #[trigger] part_at(g, t) by {
        let x = t.x_pos as int;
        if x >= s.x_pos {
            lemma_columns_east(g, s.x_pos as int, x);
        } else {
            lemma_columns_west(g, s.x_pos as int, x);
        }
    }
}

/// Changing one cell changes the count of cells not yet part of the maze by
/// what that cell was and is.
proof fn lemma_count_free_update(s: Seq<HexCellV>, i: int, c: HexCellV)
    requires
        0 <= i < s.len(),
    ensures
        count_free(s.update(i, c)) + (if s[i].part_of_maze {
            0nat
        } else {
            1nat
        }) == count_free(s) + (if c.part_of_maze {
            0nat
        } else {
            1nat
        }),
    decreases s.len(),
{
    if i == s.len() - 1 {
        assert(s.update(i, c).drop_last() =~= s.drop_last());
    } else {
        lemma_count_free_update(s.drop_last(), i, c);
        assert(s.update(i, c).drop_last() =~= s.drop_last().update(i, c));
    }
}

impl GrowingTreeGenerator {
    /// The cells the generator may still carve from.
    pub closed spec fn stack(&self) -> Seq<CellCoord> {
        self.stack@
    }

    /// Whether the generator is done.
    pub closed spec fn is_done(&self) -> bool {
        self.done
    }

    /// The strategy.
    pub closed spec fn strategy(&self) -> Strategy {
        self.strategy
    }

    /// Every cell of the stack is a cell of the grid, the last-`n` strategy has
    /// no negative `n`, and the stack together with the cells not yet part of
    /// the maze stay below `i32::MAX` (each carve adds to the stack and takes
    /// a cell into the maze).
    pub open spec fn fits(&self, g: HexGridV) -> bool {
        &&& forall|i: int| 0 <= i < self.stack().len() ==> hex_in_grid(#[trigger] self.stack()[i], g.width as int, g.height as int)
        &&& (self.strategy() matches Strategy::LastN(num) ==> num >= 0)
        &&& self.stack().len() + count_free(g.cells) < i32::MAX
    }

    /// A generator that is not done, with an empty stack.
    pub fn new(strategy: Strategy) -> (gen: GrowingTreeGenerator)
        ensures
            !gen.is_done(),
            gen.stack().len() == 0,
            gen.strategy() == strategy,
    {
        GrowingTreeGenerator { done: false, stack: Vec::new(), strategy }
    }

    pub fn name(&self) -> (r: &'static str)
        ensures
            r@ == "Growing Tree"@,
    {
        "Growing Tree"
    }

    pub fn done(&self) -> (r: bool)
        ensures
            r == self.is_done(),
    {
        self.done
    }

    /// Opens the entrance and exit of the grid, makes the cell in the middle
    /// of the first row part of the maze, and puts it on the stack.
    pub fn init(&mut self, maze: &mut HexGrid)
        requires
            old(maze)@.wf(),
            old(maze)@.width > 0,
            old(maze)@.height > 0,
            old(self).fits(old(maze)@),
            old(self).stack().len() + count_free(old(maze)@.cells) + 1 < i32::MAX,
        ensures
            final(maze)@ == started(old(maze)@),
            final(maze)@.wf(),
            final(self).stack() == old(self).stack().push(entrance_of(old(maze)@)),
            final(self).strategy() == old(self).strategy(),
            final(self).is_done() == old(self).is_done(),
            final(self).fits(final(maze)@),
            closed(old(maze)@, old(self).stack()) ==> closed(final(maze)@, final(self).stack()),
            has_maze_cell(final(maze)@),
    {
        let ghost g0 = maze@;
        let ghost st0 = self.stack();
        let start_cell = CellCoord { x_pos: maze.get_width() / 2, y_pos: 0 };
        maze.init();
        let ghost g1 = maze@;
        proof {
            let w = g0.width as int;
            let ie = hex_index(CellCoord { x_pos: (g0.width / 2) as i32, y_pos: 0 }, w);
            let ix = hex_index(CellCoord { x_pos: (g0.width / 2) as i32, y_pos: (g0.height - 1) as i32 }, w);
            let outside = Some(CellCoord { x_pos: -1i32, y_pos: -1i32 });
            let c1 = g0.cells.update(ie, HexCellV { south: outside, ..g0.cells[ie] });
            lemma_count_free_update(g0.cells, ie, HexCellV { south: outside, ..g0.cells[ie] });
            lemma_count_free_update(c1, ix, HexCellV { north: outside, ..c1[ix] });
            crate::maze::grid::hex_grid::lemma_hex_index(start_cell, w, g0.height as int);
        }
        maze.set_part_of_maze_at(start_cell);
        proof {
            let i = hex_index(start_cell, g1.width as int);
            lemma_count_free_update(g1.cells, i, HexCellV { part_of_maze: true, ..g1.cells[i] });
        }
        self.stack.push(start_cell);
        proof {
            if closed(g0, st0) {
                lemma_start_keeps_closed(g0, st0);
            }
            assert(part_at(maze@, start_cell));
        }
    }

    /// Steps until the generator is done. Where the generator was not done
    /// and the cells it could carve from were all on its stack, it ends with
    /// an empty stack and no cell of the maze has a neighbour left to carve
    /// to.
    pub fn generate(&mut self, maze: &mut HexGrid)
        requires
            old(maze)@.wf(),
            old(self).fits(old(maze)@),
        ensures
            final(self).is_done(),
            final(maze)@.wf(),
            final(self).fits(final(maze)@),
            !old(self).is_done() ==> final(self).stack().len() == 0,
            closed(old(maze)@, old(self).stack()) ==> closed(final(maze)@, final(self).stack()),
            !old(self).is_done() && closed(old(maze)@, old(self).stack()) ==> all_stuck(final(maze)@),
            grows(old(maze)@, final(maze)@),
            !old(self).is_done() && closed(old(maze)@, old(self).stack()) && old(maze)@.height >= 2 && has_maze_cell(
                old(maze)@,
            ) ==> forall|t: CellCoord|
                hex_in_grid(t, final(maze)@.width as int, final(maze)@.height as int) ==> #[trigger] part_at(
                    final(maze)@,
                    t,
                ),
    {
        let ghost was_done = self.is_done();
        let ghost was_closed = closed(maze@, self.stack());
        let ghost g0 = maze@;
        while self.done == false
            invariant
                maze@.wf(),
                self.fits(maze@),
                !was_done ==> (self.is_done() ==> self.stack().len() == 0),
                was_done ==> self.is_done(),
                was_closed ==> closed(maze@, self.stack()),
                g0.wf(),
                grows(g0, maze@),
            decreases count_free(maze@.cells), self.stack().len(), if self.is_done() {
                0int
            } else {
                1int
            },
        {
            let ghost before = maze@;
            self.generate_step(maze);
            proof {
                assert forall|t: CellCoord|
                    hex_in_grid(t, g0.width as int, g0.height as int) && #[trigger] part_at(g0, t) implies part_at(
                    maze@,
                    t,
                ) by {
                    assert(part_at(before, t));
                }
            }
        }
        proof {
            if !was_done && was_closed {
                assert forall|c: CellCoord|
                    hex_in_grid(c, maze@.width as int, maze@.height as int) && part_at(maze@, c) implies #[trigger] stuck(
                    maze@,
                    c,
                ) by {
                    assert(!self.stack().contains(c));
                }
                if g0.height >= 2 && has_maze_cell(g0) {
                    let s = choose|s: CellCoord| hex_in_grid(s, g0.width as int, g0.height as int) && #[trigger] part_at(
                        g0,
                        s,
                    );
                    lemma_stuck_maze_covers_grid(maze@, s);
                }
            }
        }
    }

    /// One step: with an empty stack the generator is done; otherwise it
    /// picks a cell of the stack by its strategy, colours it as active, and
    /// carves from it in a random allowed direction, putting the cell reached
    /// on the stack, or, where no direction is allowed, clears its colour and
    /// drops it from the stack.
    pub fn generate_step(&mut self, maze: &mut HexGrid)
        requires
            old(maze)@.wf(),
            old(self).fits(old(maze)@),
        ensures
            final(maze)@.wf(),
            final(self).fits(final(maze)@),
            final(self).strategy() == old(self).strategy(),
            old(self).stack().len() == 0 ==> final(self).is_done() && final(maze)@ == old(maze)@ && final(self).stack()
                == old(self).stack(),
            old(self).stack().len() > 0 ==> final(self).is_done() == old(self).is_done() && exists|idx: int, r: int|
                (final(maze)@, final(self).stack()) == #[trigger] step_result(old(maze)@, old(self).stack(), idx, r)
                    && exists|a: int, b: int| picked_by(old(self).strategy(), old(self).stack().len() as int, a, b, idx),
            final(maze)@.width == old(maze)@.width,
            final(maze)@.height == old(maze)@.height,
            final(maze)@.cell_size == old(maze)@.cell_size,
            closed(old(maze)@, old(self).stack()) ==> closed(final(maze)@, final(self).stack()),
            grows(old(maze)@, final(maze)@),
            old(self).stack().len() > 0 || !old(self).is_done() ==> lex_less(
                work_left(final(maze)@, final(self).stack(), final(self).is_done()),
                work_left(old(maze)@, old(self).stack(), old(self).is_done()),
            ),
    {
        if self.stack.len() == 0 {
            self.done = true;
            return;
        }
        let ghost g = maze@;
        let next_cell_index = self.get_next_index();
        let coord = self.stack[next_cell_index];
        proof {
            crate::maze::grid::hex_grid::lemma_hex_index(coord, g.width as int, g.height as int);
            lemma_colored_dirs(g, coord, Some(CELL_ACTIVE_COLOR), coord);
        }
        let count = maze.get_allowed_directions(coord).len();
        let random_dir = self.get_random(count);
        self.step_at(maze, next_cell_index, random_dir);
    }

    /// One step from the cell at index `idx` of the stack, with `pick` the
    /// draw among the directions in which a passage can be carved from it
    /// (`step_result`): the cell is coloured as active, then, where no
    /// direction is allowed, it loses its colour and leaves the stack;
    /// otherwise the passage in direction `pick` of the allowed ones is
    /// carved and the cell reached joins the stack.
    pub fn step_at(&mut self, maze: &mut HexGrid, idx: usize, pick: usize)
        requires
            old(maze)@.wf(),
            old(self).fits(old(maze)@),
            idx < old(self).stack().len(),
            ({
                let c = old(self).stack()[idx as int];
                let n = colored(old(maze)@, c, Some(CELL_ACTIVE_COLOR)).allowed_directions(c).len();
                n == 0 || pick < n
            }),
        ensures
            (final(maze)@, final(self).stack()) == step_result(old(maze)@, old(self).stack(), idx as int, pick as int),
            final(maze)@.wf(),
            final(self).fits(final(maze)@),
            final(self).strategy() == old(self).strategy(),
            final(self).is_done() == old(self).is_done(),
            final(maze)@.width == old(maze)@.width,
            final(maze)@.height == old(maze)@.height,
            final(maze)@.cell_size == old(maze)@.cell_size,
            closed(old(maze)@, old(self).stack()) ==> closed(final(maze)@, final(self).stack()),
            grows(old(maze)@, final(maze)@),
            lex_less(
                work_left(final(maze)@, final(self).stack(), final(self).is_done()),
                work_left(old(maze)@, old(self).stack(), old(self).is_done()),
            ),
    {
        let next_cell_index = idx;
        let random_dir = pick;
        let ghost g = maze@;
        let ghost st = self.stack@;
        let coord = self.stack[next_cell_index];
        proof {
            crate::maze::grid::hex_grid::lemma_hex_index(coord, g.width as int, g.height as int);
        }
        maze.set_color_at(coord, Some(CELL_ACTIVE_COLOR));
        let ghost active = maze@;
        proof {
            assert(active == colored(g, coord, Some(CELL_ACTIVE_COLOR)));
            lemma_count_free_update(
                g.cells,
                hex_index(coord, g.width as int),
                HexCellV { color: Some(CELL_ACTIVE_COLOR), ..g.cells[hex_index(coord, g.width as int)] },
            );
        }
        let available_dirs = maze.get_allowed_directions(coord);
        if available_dirs.len() == 0 {
            maze.set_color_at(coord, None);
            self.stack.remove(next_cell_index);
            proof {
                lemma_count_free_update(
                    active.cells,
                    hex_index(coord, g.width as int),
                    HexCellV { color: None, ..active.cells[hex_index(coord, g.width as int)] },
                );
                assert((maze@, self.stack@) == step_result(g, st, next_cell_index as int, 0));
                lemma_step_keeps_closed(g, st, next_cell_index as int, 0);
                assert forall|i: int| 0 <= i < self.stack().len() implies hex_in_grid(
                    #[trigger] self.stack()[i],
                    maze@.width as int,
                    maze@.height as int,
                ) by {
                    if i < next_cell_index {
                        assert(self.stack()[i] == st[i]);
                    } else {
                        assert(self.stack()[i] == st[i + 1]);
                    }
                }
            }
            return;
        }
        let dir = available_dirs[random_dir];
        proof {
            assert(active.can_carve(coord, dir)) by {
                let ds = seq![
                    Direction::North,
                    Direction::South,
                    Direction::NorthEast,
                    Direction::NorthWest,
                    Direction::SouthEast,
                    Direction::SouthWest,
                ];
                let f = |d: Direction| active.can_carve(coord, d);
                ds.lemma_filter_pred(f, random_dir as int);
            }
        }
        maze.carve(coord, dir);
        let next_cell = maze.get_cell_in_dir(coord, dir);
        self.stack.push(next_cell.unwrap());
        proof {
            let e = active.cell_in_dir(coord, dir).unwrap();
            let si = hex_index(coord, g.width as int);
            let ei = hex_index(e, g.width as int);
            let c1 = active.cells.update(si, crate::maze::grid::hex_grid::hex_linked(active.cells[si], dir, e));
            crate::maze::grid::hex_grid::lemma_hex_index(e, g.width as int, g.height as int);
            lemma_count_free_update(active.cells, si, crate::maze::grid::hex_grid::hex_linked(active.cells[si], dir, e));
            lemma_count_free_update(c1, ei, crate::maze::grid::hex_grid::hex_linked(c1[ei], crate::maze::grid::hex_grid::hex_back(dir), coord));
            assert((maze@, self.stack@) == step_result(g, st, next_cell_index as int, random_dir as int));
            lemma_step_keeps_closed(g, st, next_cell_index as int, random_dir as int);
            assert forall|i: int| 0 <= i < self.stack().len() implies hex_in_grid(
                #[trigger] self.stack()[i],
                maze@.width as int,
                maze@.height as int,
            ) by {
                if i < st.len() {
                    assert(self.stack()[i] == st[i]);
                }
            }
        }
    }

    /// The index of the stack that the strategy picks.
    fn get_next_index(&self) -> (r: usize)
        requires
            self.stack@.len() > 0,
            strategy_fits(self.strategy, self.stack@.len() as int),
        ensures
            r < self.stack@.len(),
            exists|a: int, b: int| picked_by(self.strategy, self.stack@.len() as int, a, b, r as int),
    {
        let len = self.stack.len();
        match self.strategy {
            Strategy::Random => {
                let a = self.get_random(len);
                assert(picked_by(self.strategy, len as int, a as int, 0, a as int));
                a
            },
            Strategy::First => {
                assert(picked_by(self.strategy, len as int, 0, 0, 0));
                0
            },
            Strategy::FirstN(num) => {
                let n = self.get_random(num as usize);
                let r = if n >= len {
                    len - 1
                } else {
                    n
                };
                assert(picked_by(self.strategy, len as int, n as int, 0, r as int));
                r
            },
            Strategy::Last => {
                assert(picked_by(self.strategy, len as int, 0, 0, len - 1));
                len - 1
            },
            Strategy::LastN(num) => {
                let n = self.get_random(num as usize);
                let index: i32 = len as i32 - 1 - n as i32;
                let r = if index < 0 {
                    0
                } else {
                    index as usize
                };
                assert(picked_by(self.strategy, len as int, n as int, 0, r as int));
                r
            },
            Strategy::LastAndRandom(num) => {
                let n = self.get_random(num as usize);
                if n == 0 {
                    let b = self.get_random(len);
                    assert(picked_by(self.strategy, len as int, 0, b as int, b as int));
                    b
                } else {
                    assert(picked_by(self.strategy, len as int, n as int, 0, len - 1));
                    len - 1
                }
            },
        }
    }

    /// A random number below `max`, or zero where `max` is zero.
    fn get_random(&self, max: usize) -> (r: usize)
        ensures
            draw_ok(max as int, r as int),
    {
        if max == 0 {
            0
        } else {
            random_below(max)
        }
    }
}

} // verus!
