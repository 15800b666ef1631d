//! The mutable 2-D container of optional tiles. The storage itself comes
//! from the `grid` crate and stands behind trusted wrappers; everything the
//! library proves about a board speaks of its `GridModel` view.

use vstd::prelude::*;

use crate::model::GridModel;
use crate::model::lemma_idx_in_range;
use crate::tile::Tile;

verus! {

#[verifier::external_type_specification]
#[verifier::external_body]
#[verifier::reject_recursive_types(T)]
pub struct ExGrid<T>(grid::Grid<T>);

/// What a `grid::Grid` holds, read row by row: the element at row `y`,
/// column `x` stands at index `y * cols + x`.
pub uninterp spec fn grid_cells(g: grid::Grid<Option<Tile>>) -> Seq<Option<Tile>>;

/// The number of columns of a `grid::Grid`.
pub uninterp spec fn grid_cols(g: grid::Grid<Option<Tile>>) -> nat;

/// The number of rows of a `grid::Grid`.
pub uninterp spec fn grid_rows(g: grid::Grid<Option<Tile>>) -> nat;

/// Relies on grid::Grid::from_vec: builds a row-major grid from a flat
/// vector. A vector length that is no multiple of the column count panics,
/// and an empty vector yields a grid with zero rows and zero columns.
#[verifier::external_body]
fn raw_from_vec(tiles: Vec<Option<Tile>>, width: usize) -> (g: grid::Grid<Option<Tile>>)
    requires
        width > 0,
        tiles@.len() % (width as nat) == 0,
    ensures
        grid_cells(g) == tiles@,
        grid_cols(g) == if tiles@.len() == 0 {
            0nat
        } else {
            width as nat
        },
        grid_rows(g) == tiles@.len() / (width as nat),
{
    grid::Grid::from_vec(tiles, width)
}

/// Relies on grid::Grid::cols.
#[verifier::external_body]
fn raw_cols(g: &grid::Grid<Option<Tile>>) -> (c: usize)
    ensures
        c as nat == grid_cols(*g),
{
    g.cols()
}

/// Relies on grid::Grid::rows.
#[verifier::external_body]
fn raw_rows(g: &grid::Grid<Option<Tile>>) -> (r: usize)
    ensures
        r as nat == grid_rows(*g),
{
    g.rows()
}

/// Relies on grid::Grid::get: an in-bounds (row, column) pair yields the
/// element at that position, an out-of-range pair yields `None`.
#[verifier::external_body]
fn raw_get(g: &grid::Grid<Option<Tile>>, x: usize, y: usize) -> (r: Option<Option<Tile>>)
    ensures
        (x as nat) < grid_cols(*g) && (y as nat) < grid_rows(*g) ==> r == Some(
            grid_cells(*g)[y as int * grid_cols(*g) as int + x as int],
        ),
        !((x as nat) < grid_cols(*g) && (y as nat) < grid_rows(*g)) ==> r is None,
{
    g.get(y, x).copied()
}

/// Relies on grid::Grid::swap: exchanges the elements at two in-bounds
/// (row, column) positions; an out-of-bounds position panics.
#[verifier::external_body]
fn raw_swap(g: &mut grid::Grid<Option<Tile>>, x1: usize, y1: usize, x2: usize, y2: usize)
    requires
        (x1 as nat) < grid_cols(*old(g)),
        (y1 as nat) < grid_rows(*old(g)),
        (x2 as nat) < grid_cols(*old(g)),
        (y2 as nat) < grid_rows(*old(g)),
    ensures
        grid_cols(*final(g)) == grid_cols(*old(g)),
        grid_rows(*final(g)) == grid_rows(*old(g)),
        grid_cells(*final(g)) == ({
            let cells = grid_cells(*old(g));
            let w = grid_cols(*old(g)) as int;
            let i = y1 as int * w + x1 as int;
            let j = y2 as int * w + x2 as int;
            cells.update(i, cells[j]).update(j, cells[i])
        }),
{
    g.swap((y1, x1), (y2, x2));
}

/// A rectangular board of optional tiles, addressed by (column, row) with
/// both indices 0-based. A cell holding `None` is a hole.
pub struct Board {
    inner: grid::Grid<Option<Tile>>,
}

impl View for Board {
    type V = GridModel;

    closed spec fn view(&self) -> GridModel {
        GridModel {
            width: grid_cols(self.inner),
            height: grid_rows(self.inner),
            cells: grid_cells(self.inner),
        }
    }
}

impl Board {
    /// A board is well formed when its cell sequence matches its dimensions.
    /// Every constructor of this library establishes it and every mutation
    /// preserves it.
    pub open spec fn wf(self) -> bool {
        self@.wf()
    }

    /// Builds a board from a flat row-major sequence of optional tiles.
    /// Construction succeeds exactly when `width` is positive and the
    /// sequence length is a multiple of it; an empty sequence yields the
    /// empty board.
    pub fn new_grid(tiles: Vec<Option<Tile>>, width: usize) -> (r: Option<Board>)
        ensures
            r is Some <==> width > 0 && tiles@.len() % (width as nat) == 0,
            r matches Some(g) ==> {
                &&& g.wf()
                &&& g@.cells == tiles@
                &&& g@.width == if tiles@.len() == 0 {
                    0nat
                } else {
                    width as nat
                }
                &&& g@.height == tiles@.len() / (width as nat)
            },
    {
        if width > 0 && tiles.len() % width == 0 {
            let ghost len = tiles@.len();
            let inner = raw_from_vec(tiles, width);
            proof {
                assert(len / (width as nat) <= len) by {
                    vstd::arithmetic::div_mod::lemma_div_nonincreasing(len as int, width as int);
                }
                if len == 0 {
                    assert(grid_cells(inner).len() == grid_cols(inner) * grid_rows(inner));
                } else {
                    assert(len == (width as nat) * (len / (width as nat))) by {
                        vstd::arithmetic::div_mod::lemma_fundamental_div_mod(
                            len as int,
                            width as int,
                        );
                    }
                    assert(grid_cells(inner).len() == grid_cols(inner) * grid_rows(inner));
                }
            }
            Some(Board { inner })
        } else {
            None
        }
    }

    /// The number of columns.
    pub fn width(&self) -> (w: usize)
        ensures
            w as nat == self@.width,
    {
        raw_cols(&self.inner)
    }

    /// The number of rows.
    pub fn height(&self) -> (h: usize)
        ensures
            h as nat == self@.height,
    {
        raw_rows(&self.inner)
    }

    /// Bounds-checked access: `None` for an out-of-range address, otherwise
    /// the cell at `(x, y)`.
    pub fn get(&self, x: usize, y: usize) -> (r: Option<Option<Tile>>)
        ensures
            r == self@.lookup(x as int, y as int),
    {
        raw_get(&self.inner, x, y)
    }

    /// Exchanges the contents of two in-bounds cells, holes included. The
    /// caller is responsible for having validated the move first.
    pub fn swap(&mut self, a: (usize, usize), b: (usize, usize))
        requires
            old(self).wf(),
            old(self)@.in_bounds(a.0 as int, a.1 as int),
            old(self)@.in_bounds(b.0 as int, b.1 as int),
        ensures
            final(self).wf(),
            final(self)@ == old(self)@.swap_cells(a.0 as int, a.1 as int, b.0 as int, b.1 as int),
    {
        let ghost pre = self@;
        proof {
            lemma_idx_in_range(pre, a.0 as int, a.1 as int);
            lemma_idx_in_range(pre, b.0 as int, b.1 as int);
        }
        raw_swap(&mut self.inner, a.0, a.1, b.0, b.1);
        proof {
            assert(self@ =~= pre.swap_cells(a.0 as int, a.1 as int, b.0 as int, b.1 as int));
        }
    }
}

} // verus!
