//! Pure coordinate math between grid cells and render space.
//!
//! Render positions are measured in half pixels, in a coordinate system
//! centred on the grid: x grows rightward and y grows upward, while row
//! indices grow downward (row 0 is topmost). Half-pixel units keep every
//! cell anchor an exact integer even when the grid's pixel extent is odd,
//! so the whole mapping is exact integer arithmetic.

use vstd::prelude::*;

use vstd::arithmetic::div_mod::lemma_div_pos_is_pos;
use vstd::arithmetic::div_mod::lemma_fundamental_div_mod;
use vstd::arithmetic::mul::lemma_mul_inequality;

use crate::board::Board;
use crate::model::GridModel;

verus! {

/// A position in render space, in half-pixel units, origin at the grid's
/// centre.
#[derive(Clone, Copy, Debug, PartialEq, Eq, Structural)]
pub struct RenderPos {
    pub x: i64,
    pub y: i64,
}

/// Edge length of one square tile, in whole pixels: the largest for which
/// the grid still fits the viewport.
pub open spec fn spec_tile_edge(m: GridModel, vw: u32, vh: u32) -> int {
    let a = vw as int / m.width as int;
    let b = vh as int / m.height as int;
    if a <= b {
        a
    } else {
        b
    }
}

/// Render-space anchor (top-left corner) of cell `(x, y)`, in half pixels,
/// for tile edge `ts`: the grid's left edge sits at `-width * ts` and its
/// top edge at `height * ts`.
pub open spec fn spec_cell_anchor(m: GridModel, ts: int, x: int, y: int) -> (int, int) {
    (-(m.width * ts) + 2 * x * ts, m.height * ts - 2 * y * ts)
}

/// Column of a render position: its distance from the grid's left edge,
/// rounded to the nearest whole tile (a tie falls to the right), then
/// clamped to `[0, width - 1]`.
pub open spec fn spec_pos_to_col(m: GridModel, ts: int, px: int) -> int {
    let delta = px + m.width * ts;
    if delta <= 0 {
        0
    } else {
        let c = (delta + ts) / (2 * ts);
        if c >= m.width {
            m.width - 1
        } else {
            c
        }
    }
}

/// Row of a render position: its distance below the grid's top edge,
/// rounded to the nearest whole tile (a tie falls downward), then clamped
/// to `[0, height - 1]`.
pub open spec fn spec_pos_to_row(m: GridModel, ts: int, py: int) -> int {
    let delta = m.height * ts - py;
    if delta <= 0 {
        0
    } else {
        let r = (delta + ts) / (2 * ts);
        if r >= m.height {
            m.height - 1
        } else {
            r
        }
    }
}

/// The grid fits the viewport: each dimension times the tile edge length
/// stays within the viewport, and the edge length is never negative.
pub proof fn lemma_grid_fits(m: GridModel, vw: u32, vh: u32)
    requires
        m.width >= 1,
        m.height >= 1,
    ensures
        0 <= spec_tile_edge(m, vw, vh),
        m.width * spec_tile_edge(m, vw, vh) <= vw,
        m.height * spec_tile_edge(m, vw, vh) <= vh,
{
    let w = m.width as int;
    let h = m.height as int;
    let a = vw as int / w;
    let b = vh as int / h;
    let ts = spec_tile_edge(m, vw, vh);
    lemma_div_pos_is_pos(vw as int, w);
    lemma_div_pos_is_pos(vh as int, h);
    lemma_fundamental_div_mod(vw as int, w);
    lemma_fundamental_div_mod(vh as int, h);
    assert(w * a <= vw) by {
        vstd::arithmetic::div_mod::lemma_mod_bound(vw as int, w);
    }
    assert(h * b <= vh) by {
        vstd::arithmetic::div_mod::lemma_mod_bound(vh as int, h);
    }
    assert(w * ts <= w * a) by {
        lemma_mul_inequality(ts, a, w);
        assert(w * ts == ts * w) by (nonlinear_arith);
        assert(w * a == a * w) by (nonlinear_arith);
    }
    assert(h * ts <= h * b) by {
        lemma_mul_inequality(ts, b, h);
        assert(h * ts == ts * h) by (nonlinear_arith);
        assert(h * b == b * h) by (nonlinear_arith);
    }
}

/// A viewport at least as wide and tall as the grid gives a tile edge of
/// at least one pixel.
pub proof fn lemma_tile_edge_positive(m: GridModel, vw: u32, vh: u32)
    requires
        1 <= m.width <= vw as int,
        1 <= m.height <= vh as int,
    ensures
        spec_tile_edge(m, vw, vh) >= 1,
{
    let w = m.width as int;
    let h = m.height as int;
    lemma_fundamental_div_mod(vw as int, w);
    lemma_fundamental_div_mod(vh as int, h);
    vstd::arithmetic::div_mod::lemma_mod_bound(vw as int, w);
    vstd::arithmetic::div_mod::lemma_mod_bound(vh as int, h);
    assert(vw as int / w >= 1) by (nonlinear_arith)
        requires
            vw as int == w * (vw as int / w) + vw as int % w,
            0 <= vw as int % w < w,
            w <= vw as int,
    ;
    assert(vh as int / h >= 1) by (nonlinear_arith)
        requires
            vh as int == h * (vh as int / h) + vh as int % h,
            0 <= vh as int % h < h,
            h <= vh as int,
    ;
}

impl Board {
    /// Edge length of one square tile, in pixels, for the given viewport:
    /// the largest at which the whole grid still fits.
    pub fn tile_edge_length(&self, viewport_w: u32, viewport_h: u32) -> (ts: u32)
        requires
            self@.width >= 1,
            self@.height >= 1,
        ensures
            ts as int == spec_tile_edge(self@, viewport_w, viewport_h),
    {
        let w = self.width();
        let h = self.height();
        let a = (viewport_w as usize) / w;
        let b = (viewport_h as usize) / h;
        let m = if a <= b {
            a
        } else {
            b
        };
        proof {
            vstd::arithmetic::div_mod::lemma_div_nonincreasing(viewport_w as int, w as int);
            vstd::arithmetic::div_mod::lemma_div_nonincreasing(viewport_h as int, h as int);
        }
        m as u32
    }

    /// Render-space anchor of cell `(x, y)` for the given viewport: `None`
    /// when the cell is out of range.
    pub fn cell_to_position(&self, x: usize, y: usize, viewport_w: u32, viewport_h: u32) -> (r:
        Option<RenderPos>)
        requires
            self.wf(),
        ensures
            r is Some <==> self@.in_bounds(x as int, y as int),
            r matches Some(p) ==> ({
                let ts = spec_tile_edge(self@, viewport_w, viewport_h);
                (p.x as int, p.y as int) == spec_cell_anchor(self@, ts, x as int, y as int)
            }),
    {
        let w = self.width();
        let h = self.height();
        if x >= w || y >= h {
            return None;
        }
        let ts = self.tile_edge_length(viewport_w, viewport_h);
        proof {
            lemma_grid_fits(self@, viewport_w, viewport_h);
            lemma_mul_inequality(x as int, w as int, ts as int);
            lemma_mul_inequality(y as int, h as int, ts as int);
            assert(2 * (x as int) * (ts as int) == 2 * ((x as int) * (ts as int)))
                by (nonlinear_arith);
            assert(2 * (y as int) * (ts as int) == 2 * ((y as int) * (ts as int)))
                by (nonlinear_arith);
        }
        let wts: u64 = (w as u64) * (ts as u64);
        let hts: u64 = (h as u64) * (ts as u64);
        let xts: u64 = (x as u64) * (ts as u64);
        let yts: u64 = (y as u64) * (ts as u64);
        let px: i64 = 2 * (xts as i64) - (wts as i64);
        let py: i64 = (hts as i64) - 2 * (yts as i64);
        Some(RenderPos { x: px, y: py })
    }

    /// Interprets a render position as a grid cell: the position is
    /// rounded to the nearest cell and clamped to the grid, so any
    /// position — however far outside — resolves to an in-bounds cell.
    /// The viewport must give each tile at least one pixel.
    pub fn position_to_cell(&self, pos: RenderPos, viewport_w: u32, viewport_h: u32) -> (r: (
        usize,
        usize,
    ))
        requires
            self.wf(),
            1 <= self@.width <= viewport_w as int,
            1 <= self@.height <= viewport_h as int,
        ensures
            self@.in_bounds(r.0 as int, r.1 as int),
            r.0 as int == spec_pos_to_col(
                self@,
                spec_tile_edge(self@, viewport_w, viewport_h),
                pos.x as int,
            ),
            r.1 as int == spec_pos_to_row(
                self@,
                spec_tile_edge(self@, viewport_w, viewport_h),
                pos.y as int,
            ),
    {
        let w = self.width();
        let h = self.height();
        let ts = self.tile_edge_length(viewport_w, viewport_h);
        proof {
            lemma_grid_fits(self@, viewport_w, viewport_h);
            lemma_tile_edge_positive(self@, viewport_w, viewport_h);
        }
        let wts: u64 = (w as u64) * (ts as u64);
        let hts: u64 = (h as u64) * (ts as u64);
        let tsi: i128 = ts as i128;
        let delta_x: i128 = (pos.x as i128) + (wts as i128);
        let col: usize = if delta_x <= 0 {
            0
        } else {
            let c: u128 = ((delta_x + tsi) as u128) / ((2 * tsi) as u128);
            if c >= (w as u128) {
                w - 1
            } else {
                c as usize
            }
        };
        let delta_y: i128 = (hts as i128) - (pos.y as i128);
        let row: usize = if delta_y <= 0 {
            0
        } else {
            let rr: u128 = ((delta_y + tsi) as u128) / ((2 * tsi) as u128);
            if rr >= (h as u128) {
                h - 1
            } else {
                rr as usize
            }
        };
        (col, row)
    }

    /// Snaps a render position to the anchor of the nearest cell: exactly
    /// the anchor of the cell that `position_to_cell` chooses.
    pub fn snap_to_grid(&self, pos: RenderPos, viewport_w: u32, viewport_h: u32) -> (r: RenderPos)
        requires
            self.wf(),
            1 <= self@.width <= viewport_w as int,
            1 <= self@.height <= viewport_h as int,
        ensures
            ({
                let ts = spec_tile_edge(self@, viewport_w, viewport_h);
                let cx = spec_pos_to_col(self@, ts, pos.x as int);
                let cy = spec_pos_to_row(self@, ts, pos.y as int);
                (r.x as int, r.y as int) == spec_cell_anchor(self@, ts, cx, cy)
            }),
    {
        let cell = self.position_to_cell(pos, viewport_w, viewport_h);
        let anchor = self.cell_to_position(cell.0, cell.1, viewport_w, viewport_h);
        anchor.unwrap()
    }
}

} // verus!
