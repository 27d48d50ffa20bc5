//! Distances from a start cell, spread along the passages of a maze, on any
//! grid whose cells are stored row by row and know their links and their
//! distance (the square grid and the hexagonal grid both are such grids).
use vstd::prelude::*;
use crate::maze::cell::CellCoord;
use crate::maze::grid::types::CellCoord as HexCoord;
use crate::maze_maker::grids::square_grid::{dims_fit, ncells};

verus! {

/// The position of a cell: a column and a row.
pub trait Position: Copy {
    spec fn col(&self) -> int;

    spec fn row(&self) -> int;

    fn col_row(&self) -> (r: (i32, i32))
        ensures
            r.0 == self.col(),
            r.1 == self.row(),
    ;
}

impl Position for CellCoord {
    open spec fn col(&self) -> int {
        self.x_pos as int
    }

    open spec fn row(&self) -> int {
        self.y_pos as int
    }

    fn col_row(&self) -> (r: (i32, i32)) {
        (self.x_pos, self.y_pos)
    }
}

impl Position for HexCoord {
    open spec fn col(&self) -> int {
        self.x_pos as int
    }

    open spec fn row(&self) -> int {
        self.y_pos as int
    }

    fn col_row(&self) -> (r: (i32, i32)) {
        (self.x_pos, self.y_pos)
    }
}

/// The storage index of position `p` in a grid `w` cells wide.
pub open spec fn pos_index<P: Position>(p: P, w: int) -> int {
    p.row() * w + p.col()
}

/// The index of `p` can be computed in `i32` arithmetic.
pub open spec fn pos_index_fits<P: Position>(p: P, w: int) -> bool {
    i32::MIN <= p.row() * w <= i32::MAX && i32::MIN <= p.row() * w + p.col() <= i32::MAX
}

/// A grid whose cells are stored row by row, `cols()` to a row, each with
/// links to other cells and a distance (`-1` where unknown).
pub trait DistanceGrid<P: Position>: Sized {
    /// The number of cells in a row.
    spec fn cols(&self) -> int;

    /// The number of rows.
    spec fn rows(&self) -> int;

    /// The distance of each stored cell.
    spec fn distances(&self) -> Seq<i32>;

    /// The links of the cell stored at index `i`.
    spec fn links(&self, i: int) -> Seq<P>;

    /// `other` is `self` with at most the distances changed.
    spec fn unchanged_but_distances(self, other: Self) -> bool;

    proof fn lemma_unchanged_refl(a: Self)
        ensures
            a.unchanged_but_distances(a),
    ;

    proof fn lemma_unchanged_trans(a: Self, b: Self, c: Self)
        requires
            a.unchanged_but_distances(b),
            b.unchanged_but_distances(c),
        ensures
            a.unchanged_but_distances(c),
    ;

    proof fn lemma_unchanged_keeps(a: Self, b: Self)
        requires
            a.unchanged_but_distances(b),
        ensures
            b.cols() == a.cols(),
            b.rows() == a.rows(),
            b.distances().len() == a.distances().len(),
            forall|i: int| 0 <= i < a.distances().len() ==> #[trigger] b.links(i) == a.links(i),
    ;

    /// The number of stored cells.
    fn cell_count(&self) -> (n: usize)
        ensures
            n == self.distances().len(),
    ;

    /// The number of cells in a row.
    fn col_count(&self) -> (w: i32)
        ensures
            w == self.cols(),
    ;

    /// The number of rows.
    fn row_count(&self) -> (h: i32)
        ensures
            h == self.rows(),
    ;

    /// The index of the cell at `p`, where one is stored there.
    fn cell_index(&self, p: P) -> (r: Option<usize>)
        requires
            pos_index_fits(p, self.cols()),
        ensures
            r matches Some(i) ==> i == pos_index(p, self.cols()) && i < self.distances().len(),
            r is None ==> !(0 <= pos_index(p, self.cols()) < self.distances().len()),
    ;

    /// The links of the cell stored at index `i`.
    fn cell_links(&self, i: usize) -> (r: Vec<P>)
        requires
            i < self.distances().len(),
        ensures
            r@ == self.links(i as int),
    ;

    /// The distance of the cell stored at index `i`.
    fn cell_distance(&self, i: usize) -> (d: i32)
        requires
            i < self.distances().len(),
        ensures
            d == self.distances()[i as int],
    ;

    /// Sets the distance of the cell stored at index `i`.
    fn put_distance(&mut self, i: usize, d: i32)
        requires
            i < old(self).distances().len(),
        ensures
            final(self).distances() == old(self).distances().update(i as int, d),
            (*old(self)).unchanged_but_distances(*final(self)),
    ;
}

/// The grid holds `cols() * rows()` cells, and indices of positions at or
/// next to it fit in an `i32`.
pub open spec fn sized<P: Position, G: DistanceGrid<P>>(g: G) -> bool {
    &&& g.distances().len() == ncells(g.cols(), g.rows())
    &&& dims_fit(g.cols(), g.rows())
}

/// Spreads distances from a start cell, keeping the cells still to visit.
pub struct Djikstra<P> {
    frontier: Vec<P>,
}

/// The mark of the entrance and exit links: a coordinate of `-1`.
pub open spec fn is_marker<P: Position>(c: P) -> bool {
    c.col() == -1 || c.row() == -1
}

/// A link is a marker or lies at or next to the grid.
pub open spec fn link_fits<P: Position>(n: P, w: int, h: int) -> bool {
    is_marker(n) || (0 <= n.col() <= w && 0 <= n.row() <= h)
}

/// Every link of every cell is a marker or lies at or next to the grid.
pub open spec fn links_fit<P: Position, G: DistanceGrid<P>>(g: G) -> bool {
    forall|i: int, j: int|
        0 <= i < g.distances().len() && 0 <= j < g.links(i).len() ==> link_fits(#[trigger] g.links(i)[j], g.cols(), g.rows())
}

/// A cell is stored at `c`.
pub open spec fn stored<P: Position, G: DistanceGrid<P>>(g: G, c: P) -> bool {
    0 <= pos_index(c, g.cols()) < g.distances().len()
}

/// Indices of positions at or next to the grid fit in an `i32`.
proof fn lemma_pos_index_fits<P: Position>(c: P, w: int, h: int)
    requires
        dims_fit(w, h),
        0 <= c.col() <= w,
        0 <= c.row() <= h,
    ensures
        pos_index_fits(c, w),
        0 <= pos_index(c, w),
{
    let x = c.col();
    let y = c.row();
    assert(0 <= y * w && y * w + x <= (w + 1) * (h + 1)) by (nonlinear_arith)
        requires
            0 <= x <= w,
            0 <= y <= h,
    ;
}

/// The number of cells without a distance.
pub open spec fn count_unset(s: Seq<i32>) -> nat
    decreases s.len(),
{
    if s.len() == 0 {
        0
    } else {
        count_unset(s.drop_last()) + if s.last() == -1 {
            1nat
        } else {
            0nat
        }
    }
}

/// No stored cell at `c` lacks a distance, with the links of `g` and the
/// distances `d`.
pub open spec fn reached<P: Position, G: DistanceGrid<P>>(g: G, d: Seq<i32>, c: P) -> bool {
    stored(g, c) ==> d[pos_index(c, g.cols())] != -1
}

/// Every cell that cell `i` is linked to (markers aside) has a distance.
pub open spec fn closed<P: Position, G: DistanceGrid<P>>(g: G, d: Seq<i32>, i: int) -> bool {
    forall|j: int| 0 <= j < g.links(i).len() ==> is_marker(#[trigger] g.links(i)[j]) || reached(g, d, g.links(i)[j])
}

/// No cell has a distance.
pub open spec fn all_unset(d: Seq<i32>) -> bool {
    forall|i: int| 0 <= i < d.len() ==> #[trigger] d[i] == -1
}

/// Some entry of `fr` is stored at index `i`.
pub open spec fn pending<P: Position>(fr: Seq<P>, w: int, i: int) -> bool {
    exists|k: int| 0 <= k < fr.len() && #[trigger] pos_index(fr[k], w) == i
}

/// A path along links: each position after the first is a link (not a
/// marker) of the cell stored at the one before.
pub open spec fn is_path<P: Position, G: DistanceGrid<P>>(g: G, p: Seq<P>) -> bool {
    forall|k: int|
        0 <= k < p.len() - 1 ==> #[trigger] stored(g, p[k]) && g.links(pos_index(p[k], g.cols())).contains(p[k + 1])
            && !is_marker(p[k + 1])
}

/// The `k`-th link of cell `p` is no marker and names cell `i`.
pub open spec fn link_hits<P: Position, G: DistanceGrid<P>>(g: G, p: int, k: int, i: int) -> bool {
    &&& 0 <= k < g.links(p).len()
    &&& !is_marker(g.links(p)[k])
    &&& stored(g, g.links(p)[k])
    &&& pos_index(g.links(p)[k], g.cols()) == i
}

/// Cell `p` has a link (not a marker) that names cell `i`.
pub open spec fn links_to<P: Position, G: DistanceGrid<P>>(g: G, p: int, i: int) -> bool {
    exists|k: int| #[trigger] link_hits(g, p, k, i)
}

/// One of the first `n` links of cell `p` names cell `i`.
pub open spec fn links_to_before<P: Position, G: DistanceGrid<P>>(g: G, p: int, i: int, n: int) -> bool {
    exists|k: int| k < n && #[trigger] link_hits(g, p, k, i)
}

/// The distance of cell `i` differs between `a` and `b`.
pub open spec fn changed(a: Seq<i32>, b: Seq<i32>, i: int) -> bool {
    b[i] != a[i]
}

/// What a run from the cell stored at `si` over the links of `g` does to the
/// distances, from `a` before to `b` after: the start gets `0` (or `1` where
/// it is linked to itself), each cell the start is linked to gets `1`, and
/// every other cell whose distance changed had none and now has one more
/// than a cell with a distance that is linked to it. A changed distance is
/// never negative.
pub open spec fn spread_from<P: Position, G: DistanceGrid<P>>(g: G, a: Seq<i32>, b: Seq<i32>, si: int) -> bool {
    &&& b[si] == (if links_to(g, si, si) {
        1i32
    } else {
        0i32
    })
    &&& forall|i: int| 0 <= i < a.len() && #[trigger] links_to(g, si, i) ==> b[i] == 1
    &&& forall|i: int| 0 <= i < a.len() && #[trigger] changed(a, b, i) ==> b[i] >= 0
    &&& forall|i: int|
        0 <= i < a.len() && i != si && !links_to(g, si, i) && #[trigger] changed(a, b, i) ==> a[i] == -1 && exists|q: int|
            0 <= q < a.len() && b[q] != -1 && #[trigger] links_to(g, q, i) && b[i] == b[q] + 1
}

/// A path of cells `p` from the start `si`, each linked (in `g`) to the next,
/// along which the distances `b` are `0, 1, 2, ...`: the cell at position
/// `k` is `k` links from the start, and no cell occurs twice.
pub open spec fn descent_path<P: Position, G: DistanceGrid<P>>(g: G, b: Seq<i32>, si: int, p: Seq<int>) -> bool {
    &&& p.len() >= 1
    &&& p[0] == si
    &&& forall|k: int| 0 <= k < p.len() ==> 0 <= #[trigger] p[k] < b.len() && b[p[k]] == k
    &&& forall|k: int| 0 <= k < p.len() - 1 ==> #[trigger] links_to(g, p[k], p[k + 1])
}

/// The first `n + 1` links are the first `n` and the `n`-th.
proof fn lemma_before_step<P: Position, G: DistanceGrid<P>>(g: G, p: int, i: int, n: int)
    ensures
        links_to_before(g, p, i, n + 1) == (links_to_before(g, p, i, n) || link_hits(g, p, n, i)),
{
    if links_to_before(g, p, i, n + 1) {
        let k = choose|k: int| k < n + 1 && #[trigger] link_hits(g, p, k, i);
        if k < n {
            assert(links_to_before(g, p, i, n));
        }
    }
    if links_to_before(g, p, i, n) {
        let k = choose|k: int| k < n && #[trigger] link_hits(g, p, k, i);
        assert(k < n + 1 && link_hits(g, p, k, i));
    }
    if link_hits(g, p, n, i) {
        assert(n < n + 1 && link_hits(g, p, n, i));
    }
}

/// All the links of `p` are the first `len` of them.
proof fn lemma_before_all<P: Position, G: DistanceGrid<P>>(g: G, p: int, i: int)
    ensures
        links_to_before(g, p, i, g.links(p).len() as int) == links_to(g, p, i),
{
    let n = g.links(p).len() as int;
    if links_to(g, p, i) {
        let k = choose|k: int| #[trigger] link_hits(g, p, k, i);
        assert(k < n && link_hits(g, p, k, i));
    }
    if links_to_before(g, p, i, n) {
        let k = choose|k: int| k < n && #[trigger] link_hits(g, p, k, i);
        assert(link_hits(g, p, k, i));
    }
}

/// After a run from a maze without distances, whose start is not linked to
/// itself, every cell with a distance `d` ends a path of `d` links from the
/// start along which the distances count the links; so the cells with a
/// distance are exactly those joined to the start, and on a perfect maze,
/// where two cells are joined by one path only, the distance is the number of
/// links on that path.
pub proof fn lemma_distance_is_path_length<P: Position, G: DistanceGrid<P>>(
    g: G,
    a: Seq<i32>,
    b: Seq<i32>,
    si: int,
    i: int,
)
    requires
        0 <= si < a.len(),
        b.len() == a.len(),
        all_unset(a),
        !links_to(g, si, si),
        spread_from(g, a, b, si),
        0 <= i < a.len(),
        b[i] != -1,
    ensures
        exists|p: Seq<int>| #[trigger] descent_path(g, b, si, p) && p.last() == i && p.len() == b[i] + 1,
    decreases b[i],
{
    assert(a[i] == -1);
    assert(changed(a, b, i));
    if i == si {
        let p = seq![si];
        assert(descent_path(g, b, si, p));
    } else if links_to(g, si, i) {
        let p = seq![si, i];
        assert(p[0] == si && p[1] == i);
        assert(descent_path(g, b, si, p));
    } else {
        let q = choose|q: int| 0 <= q < a.len() && b[q] != -1 && #[trigger] links_to(g, q, i) && b[i] == b[q] + 1;
        assert(a[q] == -1);
        assert(changed(a, b, q));
        lemma_distance_is_path_length(g, a, b, si, q);
        let p0 = choose|p: Seq<int>| #[trigger] descent_path(g, b, si, p) && p.last() == q && p.len() == b[q] + 1;
        let p = p0.push(i);
        assert forall|k: int| 0 <= k < p.len() - 1 implies #[trigger] links_to(g, p[k], p[k + 1]) by {
            if k < p0.len() - 1 {
                assert(p[k] == p0[k] && p[k + 1] == p0[k + 1]);
            } else {
                assert(p[k] == q && p[k + 1] == i);
            }
        }
        assert forall|k: int| 0 <= k < p.len() implies 0 <= #[trigger] p[k] < b.len() && b[p[k]] == k by {
            if k < p0.len() {
                assert(p[k] == p0[k]);
            }
        }
        assert(descent_path(g, b, si, p));
    }
}

/// Setting the distance of one cell changes the count of cells without one
/// by what that cell had and has.
proof fn lemma_count_update(s: Seq<i32>, i: int, c: i32)
    requires
        0 <= i < s.len(),
    ensures
        count_unset(s.update(i, c)) + (if s[i] == -1 {
            1nat
        } else {
            0nat
        }) == count_unset(s) + (if c == -1 {
            1nat
        } else {
            0nat
        }),
    decreases s.len(),
{
    if i == s.len() - 1 {
        assert(s.update(i, c).drop_last() =~= s.drop_last());
    } else {
        lemma_count_update(s.drop_last(), i, c);
        assert(s.update(i, c).drop_last() =~= s.drop_last().update(i, c));
    }
}

/// There are no more cells without a distance than cells.
proof fn lemma_count_le_len(s: Seq<i32>)
    ensures
        count_unset(s) <= s.len(),
    decreases s.len(),
{
    if s.len() > 0 {
        lemma_count_le_len(s.drop_last());
    }
}

/// Where the start has a distance and every cell with a distance has one on
/// each cell it is linked to, every cell along a path from the start has a
/// distance.
pub proof fn lemma_paths_reached<P: Position, G: DistanceGrid<P>>(g: G, d: Seq<i32>, p: Seq<P>)
    requires
        d.len() == g.distances().len(),
        p.len() > 0,
        is_path(g, p),
        reached(g, d, p[0]),
        forall|i: int| 0 <= i < d.len() && #[trigger] d[i] != -1 ==> closed(g, d, i),
    ensures
        forall|k: int| 0 <= k < p.len() ==> #[trigger] reached(g, d, p[k]),
    decreases p.len(),
{
    if p.len() > 1 {
        let q = p.drop_last();
        assert forall|k: int| 0 <= k < q.len() - 1 implies #[trigger] stored(g, q[k]) && g.links(
            pos_index(q[k], g.cols()),
        ).contains(q[k + 1]) && !is_marker(q[k + 1]) by {
            assert(q[k] == p[k] && q[k + 1] == p[k + 1]);
            assert(stored(g, p[k]));
        }
        lemma_paths_reached(g, d, q);
        let m = p.len() - 2;
        assert(reached(g, d, q[m]));
        assert(stored(g, p[m]));
        let i = pos_index(p[m], g.cols());
        assert(d[i] != -1);
        assert(closed(g, d, i));
        let nb = g.links(i);
        let j = choose|j: int| 0 <= j < nb.len() && nb[j] == p[m + 1];
        assert(is_marker(nb[j]) || reached(g, d, nb[j]));
        assert forall|k: int| 0 <= k < p.len() implies #[trigger] reached(g, d, p[k]) by {
            if k < q.len() {
                assert(reached(g, d, q[k]));
            }
        }
    }
}

/// What `Djikstra::run` asks of the grid and the start: every link is a
/// marker or lies at or next to the grid, the start's index fits in an
/// `i32` and a cell is stored there, and each link of the start is a marker
/// or names a stored cell.
pub open spec fn runnable<P: Position, G: DistanceGrid<P>>(g: G, start: P) -> bool {
    &&& links_fit(g)
    &&& pos_index_fits(start, g.cols())
    &&& stored(g, start)
    &&& forall|j: int|
        0 <= j < g.links(pos_index(start, g.cols())).len() ==> is_marker(
            #[trigger] g.links(pos_index(start, g.cols()))[j],
        ) || stored(g, g.links(pos_index(start, g.cols()))[j])
}

/// What `Djikstra::run` from `start` makes of grid `a`, giving `b`: only
/// distances change, as `spread_from` says; and where no cell had a distance,
/// the start has one, every cell with a distance has one on each cell it is
/// linked to, and (the start not linked to itself) every cell with a
/// distance `d` ends a path of `d` links from the start.
pub open spec fn distances_from<P: Position, G: DistanceGrid<P>>(a: G, b: G, start: P) -> bool {
    let si = pos_index(start, a.cols());
    &&& a.unchanged_but_distances(b)
    &&& b.distances().len() == a.distances().len()
    &&& spread_from(a, a.distances(), b.distances(), si)
    &&& all_unset(a.distances()) && !links_to(a, si, si) ==> forall|i: int|
        0 <= i < b.distances().len() && #[trigger] b.distances()[i] != -1 ==> exists|p: Seq<int>|
            #[trigger] descent_path(a, b.distances(), si, p) && p.last() == i && p.len() == b.distances()[i] + 1
    &&& all_unset(a.distances()) ==> reached(a, b.distances(), start)
    &&& all_unset(a.distances()) ==> forall|i: int|
        0 <= i < b.distances().len() && #[trigger] b.distances()[i] != -1 ==> closed(a, b.distances(), i)
}

/// Whether every link of the grid is a marker or lies at or next to it.
pub fn links_in_reach<P: Position, G: DistanceGrid<P>>(grid: &G) -> (r: bool)
    ensures
        r == links_fit(*grid),
{
    let n = grid.cell_count();
    let w = grid.col_count();
    let h = grid.row_count();
    let mut i: usize = 0;
    while i < n
        invariant
            n == grid.distances().len(),
            w == grid.cols(),
            h == grid.rows(),
            i <= n,
            forall|i2: int, j: int|
                0 <= i2 < i && 0 <= j < grid.links(i2).len() ==> link_fits(#[trigger] grid.links(i2)[j], w as int, h as int),
        decreases n - i,
    {
        let ls = grid.cell_links(i);
        let mut j: usize = 0;
        while j < ls.len()
            invariant
                n == grid.distances().len(),
                w == grid.cols(),
                h == grid.rows(),
                i < n,
                ls@ == grid.links(i as int),
                j <= ls@.len(),
                forall|i2: int, j2: int|
                    0 <= i2 < i && 0 <= j2 < grid.links(i2).len() ==> link_fits(#[trigger] grid.links(i2)[j2], w as int, h as int),
                forall|j2: int| 0 <= j2 < j ==> link_fits(#[trigger] ls@[j2], w as int, h as int),
            decreases ls@.len() - j,
        {
            let (x, y) = ls[j].col_row();
            if !(x == -1 || y == -1 || (0 <= x && x <= w && 0 <= y && y <= h)) {
                proof {
                    assert(!link_fits(grid.links(i as int)[j as int], w as int, h as int));
                }
                return false;
            }
            j = j + 1;
        }
        proof {
            assert forall|i2: int, j2: int|
                0 <= i2 < i + 1 && 0 <= j2 < grid.links(i2).len() implies link_fits(
                #[trigger] grid.links(i2)[j2],
                w as int,
                h as int,
            ) by {
                if i2 == i {
                    assert(grid.links(i2)[j2] == ls@[j2]);
                }
            }
        }
        i = i + 1;
    }
    true
}

impl<P: Position> Djikstra<P> {
    /// The cells still to visit.
    pub closed spec fn frontier(&self) -> Seq<P> {
        self.frontier@
    }

    pub fn new() -> (d: Djikstra<P>)
        ensures
            d.frontier().len() == 0,
    {
        Djikstra { frontier: Vec::new() }
    }

    /// A put distance keeps the grid the same but for distances, with the
    /// size and links of `g0`.
    proof fn lemma_put_keeps<G: DistanceGrid<P>>(g0: G, before: G, after: G)
        requires
            g0.unchanged_but_distances(before),
            before.unchanged_but_distances(after),
        ensures
            g0.unchanged_but_distances(after),
            after.cols() == g0.cols(),
            after.rows() == g0.rows(),
            after.distances().len() == g0.distances().len(),
            forall|i: int| 0 <= i < g0.distances().len() ==> #[trigger] after.links(i) == g0.links(i),
    {
        G::lemma_unchanged_trans(g0, before, after);
        G::lemma_unchanged_keeps(g0, after);
    }

    /// Runs `run` where the grid and the start allow it (`runnable`), and
    /// returns whether it did; otherwise the grid is left as it was.
    pub fn run_checked<G: DistanceGrid<P>>(&mut self, start: P, grid: &mut G) -> (r: bool)
        requires
            old(self).frontier().len() == 0,
            sized(*old(grid)),
        ensures
            r == runnable(*old(grid), start),
            final(self).frontier().len() == 0,
            !r ==> *final(grid) == *old(grid),
            r ==> distances_from(*old(grid), *final(grid), start),
    {
        let ghost g0 = *grid;
        if !links_in_reach(&*grid) {
            return false;
        }
        let w = grid.col_count();
        let (x, y) = start.col_row();
        proof {
            let yi = y as int;
            let wi = w as int;
            assert(-0x8000_0000 * 0x8000_0000 <= yi * wi <= 0x8000_0000 * 0x8000_0000) by (nonlinear_arith)
                requires
                    -0x8000_0000 <= yi <= 0x7fff_ffff,
                    -0x8000_0000 <= wi <= 0x7fff_ffff,
            ;
        }
        let row_start: i64 = (y as i64) * (w as i64);
        let at: i64 = row_start + (x as i64);
        if row_start < -0x8000_0000i64 || row_start > 0x7fff_ffffi64 || at < -0x8000_0000i64 || at > 0x7fff_ffffi64 {
            return false;
        }
        let si = match grid.cell_index(start) {
            Some(i) => i,
            None => {
                return false;
            },
        };
        let ls = grid.cell_links(si);
        let h = grid.row_count();
        let mut j: usize = 0;
        while j < ls.len()
            invariant
                *grid == g0,
                self.frontier@.len() == 0,
                sized(g0),
                links_fit(g0),
                w == g0.cols(),
                h == g0.rows(),
                si < g0.distances().len(),
                si == pos_index(start, g0.cols()),
                ls@ == g0.links(si as int),
                j <= ls@.len(),
                forall|j2: int| 0 <= j2 < j ==> is_marker(#[trigger] ls@[j2]) || stored(g0, ls@[j2]),
            decreases ls@.len() - j,
        {
            let l = ls[j];
            let (lx, ly) = l.col_row();
            if !(lx == -1 || ly == -1) {
                proof {
                    assert(link_fits(g0.links(si as int)[j as int], w as int, h as int));
                    lemma_pos_index_fits(l, w as int, h as int);
                }
                if grid.cell_index(l).is_none() {
                    return false;
                }
            }
            j = j + 1;
        }
        proof {
            assert forall|j2: int| 0 <= j2 < g0.links(pos_index(start, g0.cols())).len() implies is_marker(
                #[trigger] g0.links(pos_index(start, g0.cols()))[j2],
            ) || stored(g0, g0.links(pos_index(start, g0.cols()))[j2]) by {
                assert(ls@[j2] == g0.links(si as int)[j2]);
            }
        }
        self.run(start, grid);
        true
    }

    /// Gives the start cell distance `0` and each cell it is linked to
    /// distance `1`, then, visiting the cells still to visit last first,
    /// gives each cell without a distance that a visited cell is linked to
    /// the visited cell's distance plus one. Links with a coordinate of `-1`
    /// (the entrance and exit) are passed over. Only distances change, as
    /// `spread_from` says, on any grid. Where no cell had a distance before,
    /// every cell with a distance has one on each cell it is linked to, so
    /// that every cell reachable from the start has a distance; and, where
    /// the start is not linked to itself, every cell with a distance `d` ends
    /// a path of `d` links from the start (`descent_path`), so that cells not
    /// joined to the start keep `-1`.
    pub fn run<G: DistanceGrid<P>>(&mut self, start: P, grid: &mut G)
        requires
            old(self).frontier().len() == 0,
            sized(*old(grid)),
            links_fit(*old(grid)),
            pos_index_fits(start, old(grid).cols()),
            stored(*old(grid), start),
            forall|j: int|
                0 <= j < old(grid).links(pos_index(start, old(grid).cols())).len() ==> is_marker(
                    #[trigger] old(grid).links(pos_index(start, old(grid).cols()))[j],
                ) || stored(*old(grid), old(grid).links(pos_index(start, old(grid).cols()))[j]),
        ensures
            final(self).frontier().len() == 0,
            (*old(grid)).unchanged_but_distances(*final(grid)),
            final(grid).distances().len() == old(grid).distances().len(),
            spread_from(*old(grid), old(grid).distances(), final(grid).distances(), pos_index(start, old(grid).cols())),
            all_unset(old(grid).distances()) && !links_to(
                *old(grid),
                pos_index(start, old(grid).cols()),
                pos_index(start, old(grid).cols()),
            ) ==> forall|i: int|
                0 <= i < final(grid).distances().len() && #[trigger] final(grid).distances()[i] != -1 ==> exists|
                    p: Seq<int>,
                |
                    #[trigger] descent_path(*old(grid), final(grid).distances(), pos_index(start, old(grid).cols()), p)
                        && p.last() == i && p.len() == final(grid).distances()[i] + 1,
            all_unset(old(grid).distances()) ==> reached(*old(grid), final(grid).distances(), start),
            all_unset(old(grid).distances()) ==> forall|i: int|
                0 <= i < final(grid).distances().len() && #[trigger] final(grid).distances()[i] != -1 ==> closed(
                    *old(grid),
                    final(grid).distances(),
                    i,
                ),
    {
        let ghost g0 = *grid;
        let ghost d0 = g0.distances();
        let ghost w = g0.cols();
        let ghost h = g0.rows();
        let ghost unset0 = all_unset(d0);
        proof {
            G::lemma_unchanged_refl(g0);
        }
        let si = grid.cell_index(start).unwrap();
        let ghost gs = *grid;
        grid.put_distance(si, 0);
        proof {
            Self::lemma_put_keeps(g0, gs, *grid);
        }
        let neighbours = grid.cell_links(si);
        let mut j: usize = 0;
        while j < neighbours.len()
            invariant
                j <= neighbours@.len(),
                neighbours@ == g0.links(si as int),
                si < d0.len(),
                si == pos_index(start, w),
                w == g0.cols(),
                h == g0.rows(),
                d0 == g0.distances(),
                sized(g0),
                links_fit(g0),
                g0.unchanged_but_distances(*grid),
                grid.cols() == w,
                grid.distances().len() == d0.len(),
                forall|i: int| 0 <= i < d0.len() ==> #[trigger] grid.links(i) == g0.links(i),
                forall|k: int| 0 <= k < neighbours@.len() ==> is_marker(#[trigger] neighbours@[k]) || stored(g0, neighbours@[k]),
                forall|k: int|
                    0 <= k < self.frontier@.len() ==> #[trigger] pos_index(self.frontier@[k], w) < d0.len() && 0
                        <= pos_index(self.frontier@[k], w) && grid.distances()[pos_index(self.frontier@[k], w)] == 1,
                forall|k: int| 0 <= k < j ==> is_marker(#[trigger] neighbours@[k]) || reached(g0, grid.distances(), neighbours@[k]),
                grid.distances()[si as int] == 0 || grid.distances()[si as int] == 1,
                forall|k: int|
                    0 <= k < self.frontier@.len() ==> 0 <= #[trigger] self.frontier@[k].col() <= w && 0 <= self.frontier@[k].row() <= h,
                unset0 ==> forall|i: int|
                    0 <= i < d0.len() && #[trigger] grid.distances()[i] != -1 ==> i == si || pending(self.frontier@, w, i),
                forall|i: int|
                    0 <= i < d0.len() ==> #[trigger] grid.distances()[i] == (if links_to_before(g0, si as int, i, j as int) {
                        1i32
                    } else if i == si {
                        0i32
                    } else {
                        d0[i]
                    }),
            decreases neighbours@.len() - j,
        {
            let n = neighbours[j];
            let (nx, ny) = n.col_row();
            if nx == -1 || ny == -1 {
                proof {
                    assert forall|i: int| 0 <= i < d0.len() implies #[trigger] grid.distances()[i] == (
                    if links_to_before(g0, si as int, i, j + 1) {
                        1i32
                    } else if i == si {
                        0i32
                    } else {
                        d0[i]
                    }) by {
                        lemma_before_step(g0, si as int, i, j as int);
                    }
                }
                j = j + 1;
                continue;
            }
            proof {
                assert(link_fits(g0.links(si as int)[j as int], w, h));
                lemma_pos_index_fits(n, w, h);
            }
            let ghost before = *grid;
            let ghost bd = grid.distances();
            let ghost fr = self.frontier@;
            let ni = grid.cell_index(n).unwrap();
            grid.put_distance(ni, 1);
            proof {
                Self::lemma_put_keeps(g0, before, *grid);
            }
            self.frontier.push(n);
            proof {
                assert(pos_index(n, w) == ni);
                assert(self.frontier@[fr.len() as int] == n);
                assert forall|i: int| 0 <= i < d0.len() implies #[trigger] grid.distances()[i] == (
                if links_to_before(g0, si as int, i, j + 1) {
                    1i32
                } else if i == si {
                    0i32
                } else {
                    d0[i]
                }) by {
                    lemma_before_step(g0, si as int, i, j as int);
                    if i == ni {
                        assert(link_hits(g0, si as int, j as int, i));
                    } else {
                        assert(!link_hits(g0, si as int, j as int, i));
                        assert(grid.distances()[i] == bd[i]);
                    }
                }
                assert forall|k: int|
                    0 <= k < self.frontier@.len() implies #[trigger] pos_index(self.frontier@[k], w) < d0.len() && 0
                        <= pos_index(self.frontier@[k], w) && grid.distances()[pos_index(self.frontier@[k], w)] == 1 by {
                    if k < fr.len() {
                        assert(self.frontier@[k] == fr[k]);
                    }
                }
                if unset0 {
                    assert forall|i: int|
                        0 <= i < d0.len() && #[trigger] grid.distances()[i] != -1 implies i == si || pending(
                        self.frontier@,
                        w,
                        i,
                    ) by {
                        if i == ni {
                            assert(pos_index(self.frontier@[fr.len() as int], w) == i);
                        } else if i != si {
                            assert(bd[i] != -1);
                            let k = choose|k: int| 0 <= k < fr.len() && #[trigger] pos_index(fr[k], w) == i;
                            assert(self.frontier@[k] == fr[k]);
                            assert(pos_index(self.frontier@[k], w) == i);
                        }
                    }
                }
                assert forall|k: int| 0 <= k < j + 1 implies is_marker(#[trigger] neighbours@[k]) || reached(
                    g0,
                    grid.distances(),
                    neighbours@[k],
                ) by {
                    if k < j && !is_marker(neighbours@[k]) {
                        assert(reached(g0, bd, neighbours@[k]));
                    }
                }
                assert forall|k: int|
                    0 <= k < self.frontier@.len() implies 0 <= #[trigger] self.frontier@[k].col() <= w && 0
                        <= self.frontier@[k].row() <= h by {
                    if k < fr.len() {
                        assert(self.frontier@[k] == fr[k]);
                    }
                }
            }
            j = j + 1;
        }
        let ghost bound = count_unset(grid.distances()) + 1;
        let ghost mid = grid.distances();
        proof {
            lemma_count_le_len(grid.distances());
            assert(d0.len() + 2 <= i32::MAX) by (nonlinear_arith)
                requires
                    d0.len() == ncells(w, h),
                    dims_fit(w, h),
            ;
            assert(closed(g0, grid.distances(), si as int));
            assert forall|i: int| 0 <= i < d0.len() implies #[trigger] mid[i] == (if links_to(g0, si as int, i) {
                1i32
            } else if i == si {
                0i32
            } else {
                d0[i]
            }) by {
                lemma_before_all(g0, si as int, i);
            }
        }
        while self.frontier.len() > 0
            invariant
                w == g0.cols(),
                h == g0.rows(),
                d0 == g0.distances(),
                sized(g0),
                links_fit(g0),
                g0.unchanged_but_distances(*grid),
                grid.cols() == w,
                grid.distances().len() == d0.len(),
                forall|i: int| 0 <= i < d0.len() ==> #[trigger] grid.links(i) == g0.links(i),
                si == pos_index(start, w),
                si < d0.len(),
                bound <= d0.len() + 1,
                d0.len() + 2 <= i32::MAX,
                grid.distances()[si as int] != -1,
                mid.len() == d0.len(),
                forall|i: int| 0 <= i < d0.len() ==> #[trigger] mid[i] == (if links_to(g0, si as int, i) {
                    1i32
                } else if i == si as int {
                    0i32
                } else {
                    d0[i]
                }),
                forall|i: int| 0 <= i < d0.len() && mid[i] != -1 ==> #[trigger] grid.distances()[i] == mid[i],
                forall|i: int| 0 <= i < d0.len() && #[trigger] grid.distances()[i] != d0[i] ==> grid.distances()[i] >= 0,
                forall|i: int|
                    0 <= i < d0.len() && mid[i] == -1 && #[trigger] grid.distances()[i] != -1 ==> exists|q: int|
                        0 <= q < d0.len() && grid.distances()[q] != -1 && #[trigger] links_to(g0, q, i)
                            && grid.distances()[i] == grid.distances()[q] + 1,
                forall|k: int|
                    0 <= k < self.frontier@.len() ==> 0 <= #[trigger] pos_index(self.frontier@[k], w) < d0.len() && 1
                        <= grid.distances()[pos_index(self.frontier@[k], w)] && grid.distances()[pos_index(
                        self.frontier@[k],
                        w,
                    )] + count_unset(grid.distances()) <= bound,
                unset0 ==> closed(g0, grid.distances(), si as int),
                forall|k: int|
                    0 <= k < self.frontier@.len() ==> 0 <= #[trigger] self.frontier@[k].col() <= w && 0 <= self.frontier@[k].row() <= h,
                unset0 ==> forall|i: int|
                    0 <= i < d0.len() && #[trigger] grid.distances()[i] != -1 ==> closed(g0, grid.distances(), i)
                        || pending(self.frontier@, w, i),
            decreases count_unset(grid.distances()), self.frontier@.len(),
        {
            let ghost fr_full = self.frontier@;
            let f = self.frontier.pop().unwrap();
            let ghost fr = self.frontier@;
            proof {
                assert(fr_full[fr_full.len() - 1] == f);
                assert(0 <= pos_index(fr_full[fr_full.len() - 1], w));
                lemma_pos_index_fits(f, w, h);
            }
            let fi = grid.cell_index(f).unwrap();
            let neighbours = grid.cell_links(fi);
            let distance = grid.cell_distance(fi);
            let ghost k0 = count_unset(grid.distances());
            let ghost before_loop = grid.distances();
            proof {
                assert(pos_index(fr_full[fr_full.len() - 1], w) == fi);
            }
            let mut j: usize = 0;
            while j < neighbours.len()
                invariant
                    j <= neighbours@.len(),
                    w == g0.cols(),
                    h == g0.rows(),
                    d0 == g0.distances(),
                    sized(g0),
                    links_fit(g0),
                    g0.unchanged_but_distances(*grid),
                    grid.cols() == w,
                    grid.distances().len() == d0.len(),
                    forall|i: int| 0 <= i < d0.len() ==> #[trigger] grid.links(i) == g0.links(i),
                    fi < d0.len(),
                    fi == pos_index(f, w),
                    si < d0.len(),
                    neighbours@ == g0.links(fi as int),
                    1 <= distance,
                    distance + k0 <= bound,
                    bound <= d0.len() + 1,
                    d0.len() + 2 <= i32::MAX,
                    grid.distances()[fi as int] == distance,
                    count_unset(grid.distances()) + (self.frontier@.len() - fr.len()) == k0,
                    fr.len() <= self.frontier@.len(),
                    forall|k: int| 0 <= k < fr.len() ==> #[trigger] self.frontier@[k] == fr[k],
                    forall|k: int|
                        0 <= k < self.frontier@.len() ==> 0 <= #[trigger] self.frontier@[k].col() <= w && 0 <= self.frontier@[k].row() <= h,
                    forall|k: int|
                        0 <= k < self.frontier@.len() ==> 0 <= #[trigger] pos_index(self.frontier@[k], w) < d0.len() && 1
                            <= grid.distances()[pos_index(self.frontier@[k], w)] && grid.distances()[pos_index(
                            self.frontier@[k],
                            w,
                        )] + count_unset(grid.distances()) <= bound,
                    forall|i: int|
                        0 <= i < d0.len() && before_loop[i] != -1 ==> #[trigger] grid.distances()[i] == before_loop[i],
                    forall|i: int|
                        0 <= i < d0.len() && before_loop[i] == -1 && #[trigger] grid.distances()[i] != -1 ==> pending(
                            self.frontier@,
                            w,
                            i,
                        ),
                    forall|k: int| 0 <= k < j ==> is_marker(#[trigger] neighbours@[k]) || reached(g0, grid.distances(), neighbours@[k]),
                    mid.len() == d0.len(),
                    forall|i: int| 0 <= i < d0.len() && mid[i] != -1 ==> #[trigger] grid.distances()[i] == mid[i],
                    forall|i: int| 0 <= i < d0.len() && #[trigger] grid.distances()[i] != d0[i] ==> grid.distances()[i] >= 0,
                    forall|i: int|
                        0 <= i < d0.len() && mid[i] == -1 && #[trigger] grid.distances()[i] != -1 ==> exists|q: int|
                            0 <= q < d0.len() && grid.distances()[q] != -1 && #[trigger] links_to(g0, q, i)
                                && grid.distances()[i] == grid.distances()[q] + 1,
                decreases neighbours@.len() - j,
            {
                let n = neighbours[j];
                let (nx, ny) = n.col_row();
                if nx == -1 || ny == -1 {
                    j = j + 1;
                    continue;
                }
                proof {
                    assert(link_fits(g0.links(fi as int)[j as int], w, h));
                    lemma_pos_index_fits(n, w, h);
                }
                let ghost before = *grid;
                let ghost bd = grid.distances();
                let ghost frb = self.frontier@;
                if let Some(ni) = grid.cell_index(n) {
                    if grid.cell_distance(ni) == -1 {
                        proof {
                            lemma_count_update(bd, ni as int, (distance + 1) as i32);
                            lemma_count_le_len(bd);
                        }
                        grid.put_distance(ni, distance + 1);
                        proof {
                            Self::lemma_put_keeps(g0, before, *grid);
                        }
                        self.frontier.push(n);
                        proof {
                            assert(self.frontier@[frb.len() as int] == n);
                            assert(grid.distances() == bd.update(ni as int, (distance + 1) as i32));
                            assert forall|k: int| 0 <= k < self.frontier@.len() implies 0 <= #[trigger] pos_index(
                                self.frontier@[k],
                                w,
                            ) < d0.len() && 1 <= grid.distances()[pos_index(self.frontier@[k], w)]
                                && grid.distances()[pos_index(self.frontier@[k], w)] + count_unset(grid.distances())
                                <= bound by {
                                if k < frb.len() {
                                    assert(self.frontier@[k] == frb[k]);
                                    assert(pos_index(frb[k], w) != ni);
                                }
                            }
                            assert forall|i: int|
                                0 <= i < d0.len() && before_loop[i] == -1 && #[trigger] grid.distances()[i] != -1 implies pending(
                                self.frontier@,
                                w,
                                i,
                            ) by {
                                if i == ni {
                                    assert(pos_index(self.frontier@[frb.len() as int], w) == i);
                                } else {
                                    let k = choose|k: int| 0 <= k < frb.len() && #[trigger] pos_index(frb[k], w) == i;
                                    assert(self.frontier@[k] == frb[k]);
                                    assert(pos_index(self.frontier@[k], w) == i);
                                }
                            }
                            assert forall|k: int| 0 <= k < fr.len() implies #[trigger] self.frontier@[k] == fr[k] by {
                                assert(self.frontier@[k] == frb[k]);
                            }
                            assert forall|k: int|
                                0 <= k < self.frontier@.len() implies 0 <= #[trigger] self.frontier@[k].col() <= w && 0
                                    <= self.frontier@[k].row() <= h by {
                                if k < frb.len() {
                                    assert(self.frontier@[k] == frb[k]);
                                }
                            }
                            assert(link_hits(g0, fi as int, j as int, ni as int));
                            assert(links_to(g0, fi as int, ni as int));
                            assert forall|i: int|
                                0 <= i < d0.len() && mid[i] == -1 && #[trigger] grid.distances()[i] != -1 implies exists|q: int|
                                0 <= q < d0.len() && grid.distances()[q] != -1 && #[trigger] links_to(g0, q, i)
                                    && grid.distances()[i] == grid.distances()[q] + 1 by {
                                if i == ni {
                                    assert(grid.distances()[fi as int] != -1 && links_to(g0, fi as int, i));
                                } else {
                                    assert(bd[i] != -1);
                                    let q = choose|q: int|
                                        0 <= q < d0.len() && bd[q] != -1 && #[trigger] links_to(g0, q, i) && bd[i] == bd[q]
                                            + 1;
                                    assert(q != ni);
                                }
                            }
                        }
                    }
                }
                proof {
                    assert forall|k: int| 0 <= k < j + 1 implies is_marker(#[trigger] neighbours@[k]) || reached(
                        g0,
                        grid.distances(),
                        neighbours@[k],
                    ) by {
                        if k < j && !is_marker(neighbours@[k]) {
                            assert(reached(g0, bd, neighbours@[k]));
                        }
                    }
                }
                j = j + 1;
            }
            proof {
                assert(closed(g0, grid.distances(), fi as int));
                if unset0 {
                    assert forall|i: int|
                        0 <= i < d0.len() && #[trigger] grid.distances()[i] != -1 implies closed(g0, grid.distances(), i)
                            || pending(self.frontier@, w, i) by {
                        if before_loop[i] != -1 {
                            if i != fi && !closed(g0, grid.distances(), i) {
                                if closed(g0, before_loop, i) {
                                    assert forall|k: int| 0 <= k < g0.links(i).len() implies is_marker(
                                        #[trigger] g0.links(i)[k],
                                    ) || reached(g0, grid.distances(), g0.links(i)[k]) by {
                                        let nb = g0.links(i)[k];
                                        if !is_marker(nb) && stored(g0, nb) {
                                            assert(reached(g0, before_loop, nb));
                                        }
                                    }
                                } else {
                                    let k = choose|k: int| 0 <= k < fr_full.len() && #[trigger] pos_index(fr_full[k], w) == i;
                                    assert(k < fr.len());
                                    assert(self.frontier@[k] == fr[k]);
                                    assert(pos_index(self.frontier@[k], w) == i);
                                }
                            }
                        }
                    }
                    assert(closed(g0, grid.distances(), si as int)) by {
                        if si != fi {
                            assert forall|k: int| 0 <= k < g0.links(si as int).len() implies is_marker(
                                #[trigger] g0.links(si as int)[k],
                            ) || reached(g0, grid.distances(), g0.links(si as int)[k]) by {
                                let nb = g0.links(si as int)[k];
                                if !is_marker(nb) && stored(g0, nb) {
                                    assert(reached(g0, before_loop, nb));
                                }
                            }
                        }
                    }
                }
            }
        }
        proof {
            if unset0 {
                assert forall|i: int|
                    0 <= i < d0.len() && #[trigger] grid.distances()[i] != -1 implies closed(g0, grid.distances(), i) by {
                    if !closed(g0, grid.distances(), i) {
                        assert(pending(self.frontier@, w, i));
                        let k = choose|k: int| 0 <= k < self.frontier@.len() && #[trigger] pos_index(self.frontier@[k], w) == i;
                    }
                }
            }
            assert(spread_from(g0, d0, grid.distances(), si as int));
            if unset0 && !links_to(g0, si as int, si as int) {
                assert forall|i: int| 0 <= i < d0.len() && #[trigger] grid.distances()[i] != -1 implies exists|
                    p: Seq<int>,
                | #[trigger] descent_path(g0, grid.distances(), si as int, p) && p.last() == i && p.len()
                    == grid.distances()[i] + 1 by {
                    lemma_distance_is_path_length(g0, d0, grid.distances(), si as int, i);
                }
            }
        }
    }
}

} // verus!
