//! The simulation state: a grid of alive/dead cells advanced under the
//! classic B3/S23 rule, and the translation of alive cells into screen
//! rectangles.

use vstd::prelude::*;
use crate::grid_ext::{grid_seq, grid_width, grid_new, grid_rows, grid_cols, grid_get, grid_set};

verus! {

/// Row and column base of the seeded glider pattern.
pub const GLIDER_CENTER: usize = 10;

/// A screen rectangle for one alive cell: position in pixels, size in
/// pixels.
#[derive(Clone, Copy, PartialEq, Eq, Structural, Debug)]
pub struct CellRect {
    pub x: i32,
    pub y: i32,
    pub width: u32,
    pub height: u32,
}

/// The simulation state: the pixel dimensions it was built with, the pixel
/// edge length of one cell, the count of alive cells in the current
/// generation, and the grid of alive flags.
///
/// `cell_count` is recomputed from scratch on every generation step, so
/// after a step it equals the number of currently alive cells; it serves
/// as the capacity hint for the rectangle list.
pub struct State {
    pub width: u32,
    pub height: u32,
    pub cell_size: u32,
    pub grid_size: u32,
    pub cell_count: u32,
    pub cells: grid::Grid<bool>,
}

/// Whether the cell at `(i, j)` of `s` is in bounds and alive.  Positions
/// outside the grid count as dead: the grid does not wrap.
pub open spec fn cell_at(s: Seq<Seq<bool>>, i: int, j: int) -> bool {
    0 <= i < s.len() && 0 <= j < s[i].len() && s[i][j]
}

/// One if the cell at `(i, j)` is alive, zero otherwise.
pub open spec fn one_if_alive(s: Seq<Seq<bool>>, i: int, j: int) -> int {
    if cell_at(s, i, j) {
        1int
    } else {
        0int
    }
}

/// The number of alive cells among the up-to-eight neighbors of `(i, j)`:
/// the 3x3 block centered on the cell, the cell itself excluded.
/// Out-of-bounds positions contribute nothing, so edge and corner cells
/// have fewer neighbors and nothing wraps around.
pub open spec fn neighbor_count(s: Seq<Seq<bool>>, i: int, j: int) -> int {
    one_if_alive(s, i - 1, j - 1) + one_if_alive(s, i - 1, j) + one_if_alive(s, i - 1, j + 1)
        + one_if_alive(s, i, j - 1) + one_if_alive(s, i, j + 1) + one_if_alive(s, i + 1, j - 1)
        + one_if_alive(s, i + 1, j) + one_if_alive(s, i + 1, j + 1)
}

/// The B3/S23 transition rule: an alive cell survives on two or three
/// alive neighbors, a dead cell is born on exactly three, every other
/// combination yields a dead cell.
pub open spec fn next_cell(alive: bool, neighbors: int) -> bool {
    if alive {
        neighbors == 2 || neighbors == 3
    } else {
        neighbors == 3
    }
}

/// The whole next generation of `s`: same dimensions, every cell the rule
/// applied to its old value and old neighborhood.
pub open spec fn next_grid(s: Seq<Seq<bool>>) -> Seq<Seq<bool>> {
    Seq::new(s.len(), |i: int| Seq::new(s[i].len(), |j: int| next_cell(s[i][j], neighbor_count(s, i, j))))
}

/// The number of alive cells among the first `n` of a row.
pub open spec fn row_live_prefix(row: Seq<bool>, n: int) -> int
    decreases n,
{
    if n <= 0 {
        0
    } else {
        row_live_prefix(row, n - 1) + if row[n - 1] {
            1int
        } else {
            0int
        }
    }
}

/// The number of alive cells in the first `n` rows of a grid.
pub open spec fn live_rows_prefix(s: Seq<Seq<bool>>, n: int) -> int
    decreases n,
{
    if n <= 0 {
        0
    } else {
        live_rows_prefix(s, n - 1) + row_live_prefix(s[n - 1], s[n - 1].len() as int)
    }
}

/// The number of alive cells in a grid.
pub open spec fn live_count(s: Seq<Seq<bool>>) -> int {
    live_rows_prefix(s, s.len() as int)
}

impl State {
    /// The row count that the construction dimensions call for.
    pub open spec fn srows(self) -> int {
        self.height as int / self.cell_size as int
    }

    /// The column count that the construction dimensions call for.
    pub open spec fn scols(self) -> int {
        self.width as int / self.cell_size as int
    }

    /// The grid's actual row count: as called for, except that a grid with
    /// no rows or no columns is empty in both dimensions.
    pub open spec fn erows(self) -> int {
        if self.srows() > 0 && self.scols() > 0 {
            self.srows()
        } else {
            0
        }
    }

    /// The grid's actual column count.
    pub open spec fn ecols(self) -> int {
        if self.srows() > 0 && self.scols() > 0 {
            self.scols()
        } else {
            0
        }
    }

    /// The current generation as a sequence of rows.
    pub open spec fn grid(self) -> Seq<Seq<bool>> {
        grid_seq(self.cells)
    }

    /// Well-formedness: a positive cell size, a cell total that fits the
    /// counter, and a grid whose dimensions match the construction
    /// dimensions.
    pub open spec fn wf(self) -> bool {
        &&& self.cell_size > 0
        &&& self.srows() * self.scols() <= u32::MAX
        &&& self.grid().len() == self.erows()
        &&& grid_width(self.cells) == self.ecols()
        &&& forall|i: int| 0 <= i < self.grid().len() ==> (#[trigger] self.grid()[i]).len()
            == self.ecols()
    }

    /// Build a state for a `width x height` pixel area of square cells of
    /// edge `cell_size`: the grid gets `height / cell_size` rows and
    /// `width / cell_size` columns (integer division), all cells dead.
    pub fn new(width: u32, height: u32, cell_size: u32) -> (s: Self)
        requires
            cell_size > 0,
            (height as int / cell_size as int) * (width as int / cell_size as int) <= u32::MAX,
        ensures
            s.wf(),
            s.width == width,
            s.height == height,
            s.cell_size == cell_size,
            s.cell_count == 0,
            forall|i: int, j: int|
                0 <= i < s.grid().len() && 0 <= j < s.grid()[i].len()
                    ==> !(#[trigger] s.grid()[i][j]),
    {
        let rows: usize = (height / cell_size) as usize;
        let cols: usize = (width / cell_size) as usize;
        proof {
            assert(rows * cols <= u32::MAX) by {
                assert(rows == height as int / cell_size as int);
                assert(cols == width as int / cell_size as int);
            }
        }
        let grid_size: u32 = (rows as u32) * (cols as u32);
        Self {
            width,
            height,
            cell_size,
            cell_count: 0,
            grid_size,
            cells: grid_new(rows, cols),
        }
    }

    /// The grid's row count.
    pub fn rows(&self) -> (r: usize)
        requires
            self.wf(),
        ensures
            r == self.erows(),
    {
        grid_rows(&self.cells)
    }

    /// The grid's column count.
    pub fn cols(&self) -> (c: usize)
        requires
            self.wf(),
        ensures
            c == self.ecols(),
    {
        grid_cols(&self.cells)
    }

    /// Whether the cell at `(i, j)` is alive.  The coordinates must be in
    /// bounds: every internal call site guarantees that by construction.
    pub fn cell_is_alive(&self, i: usize, j: usize) -> (b: bool)
        requires
            self.wf(),
            i < self.erows(),
            j < self.ecols(),
        ensures
            b == self.grid()[i as int][j as int],
    {
        match grid_get(&self.cells, i, j) {
            Some(b) => b,
            None => false,
        }
    }

    /// Set the cell at `(i, j)` to `v`; everything else is unchanged.
    pub fn set_cell(&mut self, i: usize, j: usize, v: bool)
        requires
            old(self).wf(),
            i < old(self).erows(),
            j < old(self).ecols(),
        ensures
            final(self).wf(),
            final(self).width == old(self).width,
            final(self).height == old(self).height,
            final(self).cell_size == old(self).cell_size,
            final(self).cell_count == old(self).cell_count,
            final(self).grid() == old(self).grid().update(
                i as int,
                old(self).grid()[i as int].update(j as int, v),
            ),
    {
        grid_set(&mut self.cells, i, j, v);
    }

    /// Seed the classic five-cell glider, anchored at
    /// [`GLIDER_CENTER`]: the shape that reproduces itself translated by
    /// one row and one column every four generations.  The grid must be
    /// large enough to hold the pattern.
    pub fn init_glider(self) -> (s: Self)
        requires
            self.wf(),
            self.erows() > GLIDER_CENTER + 2,
            self.ecols() > GLIDER_CENTER + 2,
        ensures
            s.wf(),
            s.width == self.width,
            s.height == self.height,
            s.cell_size == self.cell_size,
            s.cell_count == self.cell_count,
            s.grid().len() == self.grid().len(),
            forall|i: int| 0 <= i < s.grid().len() ==> (#[trigger] s.grid()[i]).len()
                == self.grid()[i].len(),
            forall|i: int, j: int|
                0 <= i < s.grid().len() && 0 <= j < s.grid()[i].len()
                    ==> #[trigger] s.grid()[i][j] == (self.grid()[i][j] || is_glider_cell(
                    GLIDER_CENTER as int,
                    i,
                    j,
                )),
    {
        let mut seeded = self;
        let center = GLIDER_CENTER;
        seeded.set_cell(center + 0, center + 1, true);
        seeded.set_cell(center + 1, center + 2, true);
        seeded.set_cell(center + 2, center + 0, true);
        seeded.set_cell(center + 2, center + 1, true);
        seeded.set_cell(center + 2, center + 2, true);
        seeded
    }

    /// Whether the cell at `(i, j)` is in bounds and alive; out-of-bounds
    /// positions read as dead.
    fn probe(&self, i: usize, j: usize) -> (b: bool)
        requires
            self.wf(),
        ensures
            b == cell_at(self.grid(), i as int, j as int),
    {
        match grid_get(&self.cells, i, j) {
            Some(b) => b,
            None => false,
        }
    }

    /// The number of alive cells among the up-to-eight neighbors of the
    /// cell at `(i, j)`: the 3x3 block around it,
    ///
    /// ```text
    ///   [i-1,j-1 | i-1,j | i-1,j+1]
    ///   [i,  j-1 |  X,X  | i,  j+1]
    ///   [i+1,j-1 | i+1,j | i+1,j+1]
    /// ```
    ///
    /// the cell itself excluded.  A coordinate that would go negative or
    /// past the last row or column is skipped, not wrapped.
    pub fn get_hood_count(&self, i: usize, j: usize) -> (n: u32)
        requires
            self.wf(),
            i < self.erows(),
            j < self.ecols(),
        ensures
            n == neighbor_count(self.grid(), i as int, j as int),
    {
        let mut hood: u32 = 0;
        if i > 0 && j > 0 && self.probe(i - 1, j - 1) {
            hood = hood + 1;
        }
        if i > 0 && self.probe(i - 1, j) {
            hood = hood + 1;
        }
        if i > 0 && self.probe(i - 1, j + 1) {
            hood = hood + 1;
        }
        if j > 0 && self.probe(i, j - 1) {
            hood = hood + 1;
        }
        if self.probe(i, j + 1) {
            hood = hood + 1;
        }
        if j > 0 && self.probe(i + 1, j - 1) {
            hood = hood + 1;
        }
        if self.probe(i + 1, j) {
            hood = hood + 1;
        }
        if self.probe(i + 1, j + 1) {
            hood = hood + 1;
        }
        hood
    }

    /// The screen rectangle of the cell at column `x`, row `y`.  The
    /// preconditions keep the pixel position inside the signed 32-bit
    /// range the rectangle stores.
    fn cell_to_rect(&self, x: usize, y: usize) -> (r: CellRect)
        requires
            self.cell_size as int * x as int <= i32::MAX,
            self.cell_size as int * y as int <= i32::MAX,
        ensures
            r == rect_for(self.cell_size as int, y as int, x as int),
    {
        let px: usize = self.cell_size as usize * x;
        let py: usize = self.cell_size as usize * y;
        CellRect { x: px as i32, y: py as i32, width: self.cell_size, height: self.cell_size }
    }

    /// The screen rectangles of every alive cell of the current
    /// generation, in row-major scan order.  The current `cell_count`
    /// serves as the capacity hint for the list; it never affects the
    /// contents.
    #[verifier::loop_isolation(false)]
    pub fn get_cell_rects(&self) -> (rects: Vec<CellRect>)
        requires
            self.wf(),
            self.width <= i32::MAX,
            self.height <= i32::MAX,
        ensures
            rects@ == grid_rects(self.grid(), self.cell_size as int),
    {
        let ghost g: Seq<Seq<bool>> = self.grid();
        let ghost cs: int = self.cell_size as int;
        let mut rects: Vec<CellRect> = Vec::with_capacity(self.cell_count as usize);
        let nrows: usize = grid_rows(&self.cells);
        let ncols: usize = grid_cols(&self.cells);
        proof {
            vstd::arithmetic::div_mod::lemma_fundamental_div_mod(
                self.width as int,
                self.cell_size as int,
            );
            vstd::arithmetic::div_mod::lemma_mod_bound(self.width as int, self.cell_size as int);
            vstd::arithmetic::div_mod::lemma_fundamental_div_mod(
                self.height as int,
                self.cell_size as int,
            );
            vstd::arithmetic::div_mod::lemma_mod_bound(self.height as int, self.cell_size as int);
            assert(cs * ncols as int <= self.width as int);
            assert(cs * nrows as int <= self.height as int);
        }
        let mut i: usize = 0;
        while i < nrows
            invariant
                0 <= i <= nrows,
                rects@ == grid_rects_prefix(g, cs, i as int),
            decreases nrows - i,
        {
            let mut j: usize = 0;
            while j < ncols
                invariant
                    0 <= i < nrows,
                    0 <= j <= ncols,
                    rects@ == grid_rects_prefix(g, cs, i as int) + row_rects_prefix(
                        g[i as int],
                        i as int,
                        cs,
                        j as int,
                    ),
                decreases ncols - j,
            {
                proof {
                    assert(cs * (j as int) <= cs * (ncols as int) && cs * (i as int) <= cs * (
                    nrows as int)) by (nonlinear_arith)
                        requires
                            0 <= cs,
                            0 <= j as int <= ncols as int,
                            0 <= i as int <= nrows as int,
                    ;
                    assert(row_rects_prefix(g[i as int], i as int, cs, j as int + 1)
                        == row_rects_prefix(g[i as int], i as int, cs, j as int) + if g[i as int][j as int] {
                        seq![rect_for(cs, i as int, j as int)]
                    } else {
                        Seq::<CellRect>::empty()
                    });
                }
                if self.cell_is_alive(i, j) {
                    let r = self.cell_to_rect(j, i);
                    rects.push(r);
                }
                proof {
                    assert(rects@ =~= grid_rects_prefix(g, cs, i as int) + row_rects_prefix(
                        g[i as int],
                        i as int,
                        cs,
                        j as int + 1,
                    ));
                }
                j = j + 1;
            }
            proof {
                assert(grid_rects_prefix(g, cs, i as int + 1) == grid_rects_prefix(g, cs, i as int)
                    + row_rects_prefix(g[i as int], i as int, cs, g[i as int].len() as int));
            }
            i = i + 1;
        }
        rects
    }

    /// Advance the simulation by one generation.
    ///
    /// A fresh grid of the same dimensions is computed cell by cell from
    /// the current one — every cell the transition rule applied to its old
    /// value and old neighborhood — and then replaces the current grid
    /// wholesale, so no read ever sees a half-updated generation.
    /// `cell_count` is recomputed from zero during the scan and ends as
    /// the number of alive cells of the new generation.
    #[verifier::loop_isolation(false)]
    pub fn next(&mut self)
        requires
            old(self).wf(),
        ensures
            final(self).wf(),
            final(self).width == old(self).width,
            final(self).height == old(self).height,
            final(self).cell_size == old(self).cell_size,
            final(self).grid_size == old(self).grid_size,
            final(self).grid() == next_grid(old(self).grid()),
            final(self).cell_count == live_count(final(self).grid()),
    {
        let ghost g: Seq<Seq<bool>> = self.grid();
        let ghost ng: Seq<Seq<bool>> = next_grid(g);
        let rows: usize = (self.height / self.cell_size) as usize;
        let cols: usize = (self.width / self.cell_size) as usize;
        let mut new_cells = grid_new(rows, cols);
        let mut count: u32 = 0;
        let nrows: usize = grid_rows(&self.cells);
        let ncols: usize = grid_cols(&self.cells);
        let mut i: usize = 0;
        while i < nrows
            invariant
                0 <= i <= nrows,
                grid_seq(new_cells).len() == g.len(),
                grid_width(new_cells) == ncols,
                forall|r: int| 0 <= r < g.len() ==> (#[trigger] grid_seq(new_cells)[r]).len()
                    == ncols,
                forall|r: int, c: int|
                    0 <= r < i && 0 <= c < ncols ==> #[trigger] grid_seq(new_cells)[r][c]
                        == ng[r][c],
                forall|r: int, c: int|
                    i <= r < g.len() && 0 <= c < ncols
                        ==> !(#[trigger] grid_seq(new_cells)[r][c]),
                count == live_rows_prefix(ng, i as int),
            decreases nrows - i,
        {
            let mut j: usize = 0;
            while j < ncols
                invariant
                    0 <= i < nrows,
                    0 <= j <= ncols,
                    grid_seq(new_cells).len() == g.len(),
                    grid_width(new_cells) == ncols,
                    forall|r: int| 0 <= r < g.len() ==> (#[trigger] grid_seq(new_cells)[r]).len()
                        == ncols,
                    forall|r: int, c: int|
                        0 <= r < i && 0 <= c < ncols ==> #[trigger] grid_seq(new_cells)[r][c]
                            == ng[r][c],
                    forall|c: int|
                        0 <= c < j ==> #[trigger] grid_seq(new_cells)[i as int][c]
                            == ng[i as int][c],
                    forall|c: int|
                        j <= c < ncols ==> !(#[trigger] grid_seq(new_cells)[i as int][c]),
                    forall|r: int, c: int|
                        i < r < g.len() && 0 <= c < ncols
                            ==> !(#[trigger] grid_seq(new_cells)[r][c]),
                    count == live_rows_prefix(ng, i as int) + row_live_prefix(
                        ng[i as int],
                        j as int,
                    ),
                decreases ncols - j,
            {
                let hood = self.get_hood_count(i, j);
                let cell = self.cell_is_alive(i, j);
                proof {
                    assert(ng[i as int][j as int] == next_cell(
                        g[i as int][j as int],
                        neighbor_count(g, i as int, j as int),
                    ));
                    lemma_live_rows_prefix_bounds(ng, i as int, ncols as int);
                    lemma_row_live_prefix_bounds(ng[i as int], j as int);
                    assert((i as int) * (ncols as int) + ncols as int == (i as int + 1) * (
                    ncols as int)) by (nonlinear_arith);
                    assert((i as int + 1) * (ncols as int) <= (nrows as int) * (ncols as int))
                        by (nonlinear_arith)
                        requires
                            0 <= i as int + 1 <= nrows as int,
                            0 <= ncols as int,
                    ;
                    assert((nrows as int) * (ncols as int) <= u32::MAX);
                    assert(row_live_prefix(ng[i as int], j as int + 1) == row_live_prefix(
                        ng[i as int],
                        j as int,
                    ) + if ng[i as int][j as int] {
                        1int
                    } else {
                        0int
                    });
                }
                if cell {
                    // An alive cell keeps living on two or three alive
                    // neighbors.
                    if hood == 2 || hood == 3 {
                        grid_set(&mut new_cells, i, j, true);
                        count = count + 1;
                    }
                } else {
                    // A dead cell only comes alive with exactly three.
                    if hood == 3 {
                        grid_set(&mut new_cells, i, j, true);
                        count = count + 1;
                    }
                }
                j = j + 1;
            }
            proof {
                assert(live_rows_prefix(ng, i as int + 1) == live_rows_prefix(ng, i as int)
                    + row_live_prefix(ng[i as int], ng[i as int].len() as int));
            }
            i = i + 1;
        }
        proof {
            assert(grid_seq(new_cells) =~~= ng);
        }
        self.cells = new_cells;
        self.cell_count = count;
    }
}

/// The number of alive cells among the first `n` entries of a row is
/// between zero and `n`.
pub proof fn lemma_row_live_prefix_bounds(row: Seq<bool>, n: int)
    requires
        0 <= n,
    ensures
        0 <= row_live_prefix(row, n) <= n,
    decreases n,
{
    if n > 0 {
        lemma_row_live_prefix_bounds(row, n - 1);
    }
}

/// The number of alive cells in the first `n` rows is between zero and
/// `n * cols` when every such row has at most `cols` entries.
pub proof fn lemma_live_rows_prefix_bounds(s: Seq<Seq<bool>>, n: int, cols: int)
    requires
        0 <= n <= s.len(),
        0 <= cols,
        forall|r: int| 0 <= r < n ==> (#[trigger] s[r]).len() <= cols,
    ensures
        0 <= live_rows_prefix(s, n) <= n * cols,
    decreases n,
{
    if n > 0 {
        lemma_live_rows_prefix_bounds(s, n - 1, cols);
        lemma_row_live_prefix_bounds(s[n - 1], s[n - 1].len() as int);
        assert((n - 1) * cols + cols == n * cols) by (nonlinear_arith);
    }
}

/// The screen rectangle of the cell at `(row, col)` for cells of edge
/// `cell_size`: position `(cell_size * col, cell_size * row)`, size
/// `cell_size` square.
pub open spec fn rect_for(cell_size: int, row: int, col: int) -> CellRect {
    CellRect {
        x: (cell_size * col) as i32,
        y: (cell_size * row) as i32,
        width: cell_size as u32,
        height: cell_size as u32,
    }
}

/// The rectangles of the alive cells among the first `n` entries of row
/// `i`, in column order.
pub open spec fn row_rects_prefix(row: Seq<bool>, i: int, cell_size: int, n: int) -> Seq<CellRect>
    decreases n,
{
    if n <= 0 {
        Seq::empty()
    } else {
        row_rects_prefix(row, i, cell_size, n - 1) + if row[n - 1] {
            seq![rect_for(cell_size, i, n - 1)]
        } else {
            Seq::empty()
        }
    }
}

/// The rectangles of the alive cells in the first `n` rows, in row-major
/// order.
pub open spec fn grid_rects_prefix(s: Seq<Seq<bool>>, cell_size: int, n: int) -> Seq<CellRect>
    decreases n,
{
    if n <= 0 {
        Seq::empty()
    } else {
        grid_rects_prefix(s, cell_size, n - 1) + row_rects_prefix(
            s[n - 1],
            n - 1,
            cell_size,
            s[n - 1].len() as int,
        )
    }
}

/// The rectangles of all alive cells of a grid, in row-major scan order:
/// ascending rows, then ascending columns.
pub open spec fn grid_rects(s: Seq<Seq<bool>>, cell_size: int) -> Seq<CellRect> {
    grid_rects_prefix(s, cell_size, s.len() as int)
}

/// Law: the transition rule, read off the next generation.  Dimensions
/// are preserved, an alive cell stays alive exactly on two or three alive
/// neighbors, and a dead cell comes alive exactly on three.
pub proof fn lemma_transition_rule(s: Seq<Seq<bool>>, i: int, j: int)
    requires
        0 <= i < s.len(),
        0 <= j < s[i].len(),
    ensures
        next_grid(s).len() == s.len(),
        next_grid(s)[i].len() == s[i].len(),
        s[i][j] ==> (next_grid(s)[i][j] <==> (neighbor_count(s, i, j) == 2 || neighbor_count(
            s,
            i,
            j,
        ) == 3)),
        !s[i][j] ==> (next_grid(s)[i][j] <==> neighbor_count(s, i, j) == 3),
{
}

/// Law: neighbor counting is local and the grid does not wrap.  The count
/// at `(i, j)` reads nothing but the 3x3 block around the cell: two grids
/// that agree there — wherever else they differ, the opposite edges of the
/// grid included — give the same count.  In particular no cell at the last
/// row or column ever receives a contribution from row or column zero, and
/// vice versa.
pub proof fn lemma_neighbor_count_local(s1: Seq<Seq<bool>>, s2: Seq<Seq<bool>>, i: int, j: int)
    requires
        forall|a: int, b: int|
            i - 1 <= a <= i + 1 && j - 1 <= b <= j + 1 ==> #[trigger] cell_at(s1, a, b) == cell_at(
                s2,
                a,
                b,
            ),
    ensures
        neighbor_count(s1, i, j) == neighbor_count(s2, i, j),
{
    assert(cell_at(s1, i - 1, j - 1) == cell_at(s2, i - 1, j - 1));
    assert(cell_at(s1, i - 1, j) == cell_at(s2, i - 1, j));
    assert(cell_at(s1, i - 1, j + 1) == cell_at(s2, i - 1, j + 1));
    assert(cell_at(s1, i, j - 1) == cell_at(s2, i, j - 1));
    assert(cell_at(s1, i, j + 1) == cell_at(s2, i, j + 1));
    assert(cell_at(s1, i + 1, j - 1) == cell_at(s2, i + 1, j - 1));
    assert(cell_at(s1, i + 1, j) == cell_at(s2, i + 1, j));
    assert(cell_at(s1, i + 1, j + 1) == cell_at(s2, i + 1, j + 1));
}

/// The rectangles of a row prefix are exactly as many as its alive cells.
pub proof fn lemma_row_rects_len(row: Seq<bool>, i: int, cell_size: int, n: int)
    requires
        0 <= n <= row.len(),
    ensures
        row_rects_prefix(row, i, cell_size, n).len() == row_live_prefix(row, n),
    decreases n,
{
    if n > 0 {
        lemma_row_rects_len(row, i, cell_size, n - 1);
    }
}

/// The rectangles of a grid prefix are exactly as many as its alive cells.
pub proof fn lemma_grid_rects_len(s: Seq<Seq<bool>>, cell_size: int, n: int)
    requires
        0 <= n <= s.len(),
    ensures
        grid_rects_prefix(s, cell_size, n).len() == live_rows_prefix(s, n),
    decreases n,
{
    if n > 0 {
        lemma_grid_rects_len(s, cell_size, n - 1);
        lemma_row_rects_len(s[n - 1], n - 1, cell_size, s[n - 1].len() as int);
    }
}

/// An alive cell among the first `n` of a row has its rectangle in the
/// row's rectangle prefix.
proof fn lemma_row_rects_member(row: Seq<bool>, i: int, cell_size: int, n: int, j: int)
    requires
        0 <= j < n <= row.len(),
        row[j],
    ensures
        row_rects_prefix(row, i, cell_size, n).contains(rect_for(cell_size, i, j)),
    decreases n,
{
    let pre = row_rects_prefix(row, i, cell_size, n - 1);
    if j == n - 1 {
        assert(row_rects_prefix(row, i, cell_size, n)[pre.len() as int] == rect_for(
            cell_size,
            i,
            j,
        ));
    } else {
        lemma_row_rects_member(row, i, cell_size, n - 1, j);
        let k = choose|k: int| 0 <= k < pre.len() && pre[k] == rect_for(cell_size, i, j);
        assert(row_rects_prefix(row, i, cell_size, n)[k] == rect_for(cell_size, i, j));
    }
}

/// An alive cell among the first `n` rows has its rectangle in the grid's
/// rectangle prefix.
proof fn lemma_grid_rects_member(s: Seq<Seq<bool>>, cell_size: int, n: int, i: int, j: int)
    requires
        0 <= i < n <= s.len(),
        0 <= j < s[i].len(),
        s[i][j],
    ensures
        grid_rects_prefix(s, cell_size, n).contains(rect_for(cell_size, i, j)),
    decreases n,
{
    let pre = grid_rects_prefix(s, cell_size, n - 1);
    if i == n - 1 {
        lemma_row_rects_member(s[i], i, cell_size, s[i].len() as int, j);
        let k = choose|k: int|
            0 <= k < row_rects_prefix(s[i], i, cell_size, s[i].len() as int).len()
                && row_rects_prefix(s[i], i, cell_size, s[i].len() as int)[k] == rect_for(
                cell_size,
                i,
                j,
            );
        assert(grid_rects_prefix(s, cell_size, n)[pre.len() + k] == rect_for(cell_size, i, j));
    } else {
        lemma_grid_rects_member(s, cell_size, n - 1, i, j);
        let k = choose|k: int| 0 <= k < pre.len() && pre[k] == rect_for(cell_size, i, j);
        assert(grid_rects_prefix(s, cell_size, n)[k] == rect_for(cell_size, i, j));
    }
}

/// Every rectangle of a row's prefix is the rectangle of some alive cell
/// of that prefix.
proof fn lemma_row_rects_source(row: Seq<bool>, i: int, cell_size: int, n: int, k: int)
    requires
        0 <= n <= row.len(),
        0 <= k < row_rects_prefix(row, i, cell_size, n).len(),
    ensures
        exists|j: int|
            0 <= j < n && row[j] && row_rects_prefix(row, i, cell_size, n)[k] == rect_for(
                cell_size,
                i,
                j,
            ),
    decreases n,
{
    let pre = row_rects_prefix(row, i, cell_size, n - 1);
    if k < pre.len() {
        lemma_row_rects_source(row, i, cell_size, n - 1, k);
        let j = choose|j: int|
            0 <= j < n - 1 && row[j] && pre[k] == rect_for(cell_size, i, j);
        assert(row[j] && row_rects_prefix(row, i, cell_size, n)[k] == rect_for(cell_size, i, j));
    } else {
        assert(row[n - 1] && row_rects_prefix(row, i, cell_size, n)[k] == rect_for(
            cell_size,
            i,
            n - 1,
        ));
    }
}

/// Every rectangle of a grid's prefix is the rectangle of some alive cell
/// of that prefix.
proof fn lemma_grid_rects_source(s: Seq<Seq<bool>>, cell_size: int, n: int, k: int)
    requires
        0 <= n <= s.len(),
        0 <= k < grid_rects_prefix(s, cell_size, n).len(),
    ensures
        exists|i: int, j: int|
            cell_at(s, i, j) && i < n && grid_rects_prefix(s, cell_size, n)[k] == rect_for(
                cell_size,
                i,
                j,
            ),
    decreases n,
{
    let pre = grid_rects_prefix(s, cell_size, n - 1);
    if k < pre.len() {
        lemma_grid_rects_source(s, cell_size, n - 1, k);
        let (i, j): (int, int) = choose|i: int, j: int|
            cell_at(s, i, j) && i < n - 1 && pre[k] == rect_for(cell_size, i, j);
        assert(cell_at(s, i, j) && grid_rects_prefix(s, cell_size, n)[k] == rect_for(
            cell_size,
            i,
            j,
        ));
    } else {
        lemma_row_rects_source(s[n - 1], n - 1, cell_size, s[n - 1].len() as int, k - pre.len());
        let j = choose|j: int|
            0 <= j < s[n - 1].len() && s[n - 1][j] && row_rects_prefix(
                s[n - 1],
                n - 1,
                cell_size,
                s[n - 1].len() as int,
            )[k - pre.len()] == #[trigger] rect_for(cell_size, n - 1, j);
        assert(cell_at(s, n - 1, j) && grid_rects_prefix(s, cell_size, n)[k] == rect_for(
            cell_size,
            n - 1,
            j,
        ));
    }
}

/// Whether entry `k` of a grid's rectangle list is the rectangle of some
/// alive cell.
pub open spec fn rect_sourced(s: Seq<Seq<bool>>, cell_size: int, k: int) -> bool {
    exists|i: int, j: int|
        cell_at(s, i, j) && grid_rects(s, cell_size)[k] == #[trigger] rect_for(cell_size, i, j)
}

/// Law: a generation's rectangle list has exactly one rectangle per alive
/// cell and none for a dead cell.  The list is as long as the number of
/// alive cells; every alive cell's rectangle is in it; and every entry is
/// the rectangle of some alive cell.
pub proof fn lemma_rects_exactly_alive(s: Seq<Seq<bool>>, cell_size: int)
    ensures
        grid_rects(s, cell_size).len() == live_count(s),
        forall|i: int, j: int|
            cell_at(s, i, j) ==> grid_rects(s, cell_size).contains(
                #[trigger] rect_for(cell_size, i, j),
            ),
        forall|k: int|
            0 <= k < grid_rects(s, cell_size).len() ==> #[trigger] rect_sourced(s, cell_size, k),
{
    lemma_grid_rects_len(s, cell_size, s.len() as int);
    assert forall|i: int, j: int| cell_at(s, i, j) implies grid_rects(s, cell_size).contains(
        #[trigger] rect_for(cell_size, i, j),
    ) by {
        lemma_grid_rects_member(s, cell_size, s.len() as int, i, j);
    }
    assert forall|k: int|
        0 <= k < grid_rects(s, cell_size).len() implies #[trigger] rect_sourced(
        s,
        cell_size,
        k,
    ) by {
        lemma_grid_rects_source(s, cell_size, s.len() as int, k);
        let (i, j): (int, int) = choose|i: int, j: int|
            cell_at(s, i, j) && i < s.len() && grid_rects_prefix(s, cell_size, s.len() as int)[k]
                == #[trigger] rect_for(cell_size, i, j);
        assert(cell_at(s, i, j) && grid_rects(s, cell_size)[k] == rect_for(cell_size, i, j));
    }
}

/// Whether `(i, j)` is one of the five cells of the glider anchored at
/// `center`.
pub open spec fn is_glider_cell(center: int, i: int, j: int) -> bool {
    ||| (i, j) == (center + 0, center + 1)
    ||| (i, j) == (center + 1, center + 2)
    ||| (i, j) == (center + 2, center + 0)
    ||| (i, j) == (center + 2, center + 1)
    ||| (i, j) == (center + 2, center + 2)
}

} // verus!
