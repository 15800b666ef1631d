//! The mathematical model of a puzzle grid: a width, a height, and a flat
//! row-major sequence of optional tiles. All contracts of the library speak
//! of this model.

use vstd::prelude::*;

use crate::tile::Tile;

verus! {

/// Abstract contents of a grid: `cells[y * width + x]` is the cell in
/// column `x` of row `y`; `None` is a hole.
#[verifier::ext_equal]
pub struct GridModel {
    pub width: nat,
    pub height: nat,
    pub cells: Seq<Option<Tile>>,
}

impl GridModel {
    /// A model is well formed when it holds exactly one cell per position
    /// and its dimensions fit the machine's address space.
    pub open spec fn wf(self) -> bool {
        &&& self.cells.len() == self.width * self.height
        &&& self.width <= usize::MAX as nat
        &&& self.height <= usize::MAX as nat
    }

    /// Whether `(x, y)` addresses a cell of the grid.
    pub open spec fn in_bounds(self, x: int, y: int) -> bool {
        0 <= x < self.width && 0 <= y < self.height
    }

    /// Flat row-major index of `(x, y)`.
    pub open spec fn idx(self, x: int, y: int) -> int {
        y * self.width + x
    }

    /// The cell at `(x, y)`; meaningful only in bounds.
    pub open spec fn cell(self, x: int, y: int) -> Option<Tile> {
        self.cells[self.idx(x, y)]
    }

    /// Bounds-checked lookup: `None` for an out-of-range address, otherwise
    /// the cell itself (which may in turn be a hole).
    pub open spec fn lookup(self, x: int, y: int) -> Option<Option<Tile>> {
        if self.in_bounds(x, y) {
            Some(self.cell(x, y))
        } else {
            None
        }
    }

    /// The model after the contents of two cells were exchanged.
    pub open spec fn swap_cells(self, x1: int, y1: int, x2: int, y2: int) -> GridModel {
        let i = self.idx(x1, y1);
        let j = self.idx(x2, y2);
        GridModel {
            cells: self.cells.update(i, self.cells[j]).update(j, self.cells[i]),
            ..self
        }
    }

    /// Whether any cell of the grid holds a battery.
    pub open spec fn has_battery(self) -> bool {
        exists|i: int|
            0 <= i < self.cells.len() && ((#[trigger] self.cells[i]) matches Some(t)
                && t is Battery)
    }
}

/// A flat row-major index stays within the cell sequence whenever its
/// address is in bounds.
pub proof fn lemma_idx_in_range(m: GridModel, x: int, y: int)
    requires
        m.wf(),
        m.in_bounds(x, y),
    ensures
        0 <= m.idx(x, y) < m.cells.len(),
{
    assert(y * m.width + x < m.width * m.height) by {
        assert(y * m.width <= (m.height - 1) * m.width) by (nonlinear_arith)
            requires
                y <= m.height - 1,
                m.width >= 0,
        ;
        assert((m.height - 1) * m.width + m.width == m.height * m.width) by (nonlinear_arith);
        assert(m.width * m.height == m.height * m.width) by (nonlinear_arith);
    }
}

/// Exchanging the same two cells twice restores the grid contents exactly.
pub proof fn lemma_swap_involution(m: GridModel, x1: int, y1: int, x2: int, y2: int)
    requires
        m.wf(),
        m.in_bounds(x1, y1),
        m.in_bounds(x2, y2),
    ensures
        m.swap_cells(x1, y1, x2, y2).swap_cells(x1, y1, x2, y2) == m,
{
    lemma_idx_in_range(m, x1, y1);
    lemma_idx_in_range(m, x2, y2);
    assert(m.swap_cells(x1, y1, x2, y2).swap_cells(x1, y1, x2, y2) =~= m);
}

} // verus!
