//! Trusted bridge to the `grid` crate's two-dimensional container.
//!
//! The simulation stores its cells in a `grid::Grid<bool>`.  Verus does not
//! read that crate, so this module declares the type and wraps the handful
//! of methods the simulation calls, each with a contract stating what the
//! crate's documentation and source show.  The contents of a grid are named
//! by the uninterpreted functions [`grid_seq`] (the rows, in order, each a
//! sequence of cell values) and [`grid_width`] (the stored column count).

use vstd::prelude::*;

verus! {

#[verifier::external_type_specification]
#[verifier::external_body]
#[verifier::reject_recursive_types(T)]
pub struct ExGrid<T>(grid::Grid<T>);

/// The logical contents of a grid of booleans: its rows, top to bottom,
/// each row the cell values left to right.  Every row has length
/// [`grid_width`] of the same grid.
pub uninterp spec fn grid_seq(g: grid::Grid<bool>) -> Seq<Seq<bool>>;

/// The column count a grid of booleans stores.
pub uninterp spec fn grid_width(g: grid::Grid<bool>) -> int;

/// Relies on `grid::Grid::new`: builds a `rows x cols` grid filled with the
/// element type's default (`false` for `bool`); if either count is zero the
/// grid is empty with both counts zero.  `new` panics only when
/// `rows * cols` overflows `usize`, which the precondition rules out.
#[verifier::external_body]
pub fn grid_new(rows: usize, cols: usize) -> (g: grid::Grid<bool>)
    requires
        rows * cols <= usize::MAX,
    ensures
        rows > 0 && cols > 0 ==> grid_seq(g).len() == rows && grid_width(g) == cols,
        rows == 0 || cols == 0 ==> grid_seq(g).len() == 0 && grid_width(g) == 0,
        forall|i: int| 0 <= i < grid_seq(g).len() ==> (#[trigger] grid_seq(g)[i]).len()
            == grid_width(g),
        forall|i: int, j: int|
            0 <= i < grid_seq(g).len() && 0 <= j < grid_width(g)
                ==> !(#[trigger] grid_seq(g)[i][j]),
{
    grid::Grid::new(rows, cols)
}

/// Relies on `grid::Grid::rows`: returns the stored row count.
#[verifier::external_body]
pub fn grid_rows(g: &grid::Grid<bool>) -> (r: usize)
    ensures
        r == grid_seq(*g).len(),
{
    g.rows()
}

/// Relies on `grid::Grid::cols`: returns the stored column count.
#[verifier::external_body]
pub fn grid_cols(g: &grid::Grid<bool>) -> (c: usize)
    ensures
        c == grid_width(*g),
{
    g.cols()
}

/// Relies on `grid::Grid::get`: `Some` of the cell's value when `(r, c)` is
/// in bounds, `None` otherwise.  Never panics.
#[verifier::external_body]
pub fn grid_get(g: &grid::Grid<bool>, r: usize, c: usize) -> (v: Option<bool>)
    ensures
        r < grid_seq(*g).len() && c < grid_width(*g) ==> v == Some(grid_seq(*g)[r as int][c as int]),
        !(r < grid_seq(*g).len() && c < grid_width(*g)) ==> v is None,
{
    g.get(r, c).copied()
}

/// Relies on `grid::Grid::get_mut`: `Some` of a mutable handle to the cell
/// when `(r, c)` is in bounds, through which this wrapper stores `v`.  The
/// precondition keeps the access in bounds, so the write always happens and
/// nothing panics.
#[verifier::external_body]
pub fn grid_set(g: &mut grid::Grid<bool>, r: usize, c: usize, v: bool)
    requires
        r < grid_seq(*old(g)).len(),
        c < grid_width(*old(g)),
    ensures
        grid_seq(*final(g)) == grid_seq(*old(g)).update(
            r as int,
            grid_seq(*old(g))[r as int].update(c as int, v),
        ),
        grid_width(*final(g)) == grid_width(*old(g)),
{
    if let Some(cell) = g.get_mut(r, c) {
        *cell = v;
    }
}

} // verus!
