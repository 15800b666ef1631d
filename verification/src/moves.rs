//! The move validator: whether a tile may be dragged from one cell to
//! another. A move is legal when the destination is a hole and the greedy
//! hole walk below connects destination and source.

use vstd::prelude::*;

use crate::board::Board;
use crate::model::GridModel;
use crate::tile::Tile;

verus! {

/// Two cells at Chebyshev distance one: they differ by at most one in each
/// axis, diagonals included, and are not the same cell.
pub open spec fn adjacent(x1: int, y1: int, x2: int, y2: int) -> bool {
    &&& (x1 != x2 || y1 != y2)
    &&& -1 <= x1 - x2 <= 1
    &&& -1 <= y1 - y2 <= 1
}

/// Whether `(x, y)` is an in-bounds hole.
pub open spec fn is_hole(m: GridModel, x: int, y: int) -> bool {
    m.in_bounds(x, y) && m.cell(x, y) is None
}

/// Termination weight of one endpoint of the hole walk: every step moves an
/// endpoint one cell to the right or down, staying within bounds.
pub open spec fn walk_measure(m: GridModel, x: nat, y: nat) -> int {
    if m.in_bounds(x as int, y as int) {
        (m.width - x) + (m.height - y)
    } else {
        0
    }
}

/// The connectivity test behind move validation. Adjacent cells are always
/// connected; otherwise the walk greedily extends either endpoint through
/// the hole to its right, else the hole below it, and fails when neither
/// endpoint can be extended. The walk is deliberately asymmetric — it never
/// steps left or up — so some hole chains do not count as connected; this
/// order-dependent rule is part of the library's behaviour, not a shortcut
/// for full reachability.
pub open spec fn path_ok(m: GridModel, x1: nat, y1: nat, x2: nat, y2: nat) -> bool
    decreases walk_measure(m, x1, y1) + walk_measure(m, x2, y2),
{
    if adjacent(x1 as int, y1 as int, x2 as int, y2 as int) {
        true
    } else if is_hole(m, x1 + 1 as int, y1 as int) {
        path_ok(m, (x1 + 1) as nat, y1, x2, y2)
    } else if is_hole(m, x1 as int, y1 + 1 as int) {
        path_ok(m, x1, (y1 + 1) as nat, x2, y2)
    } else if is_hole(m, x2 + 1 as int, y2 as int) {
        path_ok(m, x1, y1, (x2 + 1) as nat, y2)
    } else if is_hole(m, x2 as int, y2 + 1 as int) {
        path_ok(m, x1, y1, x2, (y2 + 1) as nat)
    } else {
        false
    }
}

/// Whether moving the tile at `from` into the cell `to` is legal: `to` must
/// be an in-bounds hole, and the hole walk must connect `to` back to `from`.
pub open spec fn spec_can_move(m: GridModel, fx: nat, fy: nat, tx: nat, ty: nat) -> bool {
    is_hole(m, tx as int, ty as int) && path_ok(m, tx, ty, fx, fy)
}

/// Any two cells at Chebyshev distance one are connected, regardless of the
/// occupancy of any cell: nothing stands between adjacent cells.
pub proof fn lemma_adjacent_always_connected(m: GridModel, x1: nat, y1: nat, x2: nat, y2: nat)
    requires
        adjacent(x1 as int, y1 as int, x2 as int, y2 as int),
    ensures
        path_ok(m, x1, y1, x2, y2),
{
}

/// A move whose destination is occupied, or out of range, is never legal,
/// whatever the connectivity between the two cells.
pub proof fn lemma_occupied_destination_blocks(m: GridModel, fx: nat, fy: nat, tx: nat, ty: nat)
    requires
        !is_hole(m, tx as int, ty as int),
    ensures
        !spec_can_move(m, fx, fy, tx, ty),
{
}

impl Board {
    /// The greedy hole walk of `path_ok`, executed: true when the walk
    /// connects `from` and `to`.
    pub fn has_unobstructed_path(&self, from: (usize, usize), to: (usize, usize)) -> (r: bool)
        requires
            self.wf(),
        ensures
            r == path_ok(self@, from.0 as nat, from.1 as nat, to.0 as nat, to.1 as nat),
        decreases walk_measure(self@, from.0 as nat, from.1 as nat) + walk_measure(
            self@,
            to.0 as nat,
            to.1 as nat,
        ),
    {
        let (x1, y1) = from;
        let (x2, y2) = to;
        let dx_small = if x1 <= x2 {
            x2 - x1 <= 1
        } else {
            x1 - x2 <= 1
        };
        let dy_small = if y1 <= y2 {
            y2 - y1 <= 1
        } else {
            y1 - y2 <= 1
        };
        if (x1 != x2 || y1 != y2) && dx_small && dy_small {
            return true;
        }
        if x1 < usize::MAX {
            if let Some(c) = self.get(x1 + 1, y1) {
                if c.is_none() {
                    return self.has_unobstructed_path((x1 + 1, y1), (x2, y2));
                }
            }
        }
        if y1 < usize::MAX {
            if let Some(c) = self.get(x1, y1 + 1) {
                if c.is_none() {
                    return self.has_unobstructed_path((x1, y1 + 1), (x2, y2));
                }
            }
        }
        if x2 < usize::MAX {
            if let Some(c) = self.get(x2 + 1, y2) {
                if c.is_none() {
                    return self.has_unobstructed_path((x1, y1), (x2 + 1, y2));
                }
            }
        }
        if y2 < usize::MAX {
            if let Some(c) = self.get(x2, y2 + 1) {
                if c.is_none() {
                    return self.has_unobstructed_path((x1, y1), (x2, y2 + 1));
                }
            }
        }
        false
    }

    /// Whether moving the tile at `from` into the cell `to` is legal: the
    /// destination must be an in-bounds hole and the hole walk must connect
    /// destination and source.
    pub fn can_move(&self, from: (usize, usize), to: (usize, usize)) -> (r: bool)
        requires
            self.wf(),
        ensures
            r == spec_can_move(self@, from.0 as nat, from.1 as nat, to.0 as nat, to.1 as nat),
    {
        match self.get(to.0, to.1) {
            Some(c) => {
                if c.is_none() {
                    self.has_unobstructed_path(to, from)
                } else {
                    false
                }
            },
            None => false,
        }
    }
}

} // verus!
