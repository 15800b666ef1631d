//! Puzzle generation: a catalog of authored 3-by-3 layouts. A fresh puzzle
//! picks one layout at random and shuffles its nine tiles over the nine
//! cells, so the board always holds exactly one layout's multiset of tiles.

use vstd::prelude::*;

use rand::seq::SliceRandom;

use crate::board::Board;
use crate::tile::Side;
use crate::tile::Tile;

verus! {

/// The authored layouts, row-major, three cells per row. Layout 0 is the
/// reference layout: solved exactly as written here.
pub open spec fn layout_spec(i: int) -> Seq<Option<Tile>> {
    if i == 0 {
        seq![
            Some(Tile::Cable { entry: Side::Right, exit: Side::Bottom }),
            Some(Tile::Battery { plus_side: Side::Left, minus_side: Side::Right }),
            Some(Tile::N),
            Some(Tile::Cable { entry: Side::Top, exit: Side::Right }),
            Some(Tile::Lamp { entry: Side::Left, exit: Side::Bottom }),
            Some(Tile::P),
            None,
            Some(Tile::Cable { entry: Side::Top, exit: Side::Right }),
            Some(Tile::Cable { entry: Side::Left, exit: Side::Top }),
        ]
    } else if i == 1 {
        seq![
            Some(Tile::N),
            Some(Tile::P),
            None,
            Some(Tile::Cable { entry: Side::Top, exit: Side::Bottom }),
            Some(Tile::Battery { plus_side: Side::Top, minus_side: Side::Right }),
            Some(Tile::Lamp { entry: Side::Bottom, exit: Side::Left }),
            Some(Tile::Cable { entry: Side::Top, exit: Side::Right }),
            Some(Tile::Cable { entry: Side::Left, exit: Side::Right }),
            Some(Tile::Cable { entry: Side::Left, exit: Side::Top }),
        ]
    } else if i == 2 {
        seq![
            Some(Tile::N),
            Some(Tile::P),
            None,
            Some(Tile::Cable { entry: Side::Top, exit: Side::Bottom }),
            Some(Tile::Cable { entry: Side::Bottom, exit: Side::Right }),
            Some(Tile::Cable { entry: Side::Left, exit: Side::Top }),
            Some(Tile::Cable { entry: Side::Bottom, exit: Side::Left }),
            Some(Tile::Lamp { entry: Side::Right, exit: Side::Left }),
            Some(Tile::Battery { plus_side: Side::Bottom, minus_side: Side::Right }),
        ]
    } else {
        seq![
            None,
            Some(Tile::N),
            Some(Tile::P),
            Some(Tile::Battery { plus_side: Side::Left, minus_side: Side::Top }),
            Some(Tile::Cable { entry: Side::Right, exit: Side::Left }),
            Some(Tile::Lamp { entry: Side::Right, exit: Side::Top }),
            Some(Tile::Cable { entry: Side::Bottom, exit: Side::Right }),
            Some(Tile::Cable { entry: Side::Left, exit: Side::Top }),
            Some(Tile::Cable { entry: Side::Bottom, exit: Side::Right }),
        ]
    }
}

/// Builds one authored layout as a flat row-major vector of nine cells.
pub fn layout(i: usize) -> (v: Vec<Option<Tile>>)
    requires
        i < 4,
    ensures
        v@ == layout_spec(i as int),
        v@.len() == 9,
{
    let mut v: Vec<Option<Tile>> = Vec::new();
    if i == 0 {
        v.push(Some(Tile::Cable { entry: Side::Right, exit: Side::Bottom }));
        v.push(Some(Tile::Battery { plus_side: Side::Left, minus_side: Side::Right }));
        v.push(Some(Tile::N));
        v.push(Some(Tile::Cable { entry: Side::Top, exit: Side::Right }));
        v.push(Some(Tile::Lamp { entry: Side::Left, exit: Side::Bottom }));
        v.push(Some(Tile::P));
        v.push(None);
        v.push(Some(Tile::Cable { entry: Side::Top, exit: Side::Right }));
        v.push(Some(Tile::Cable { entry: Side::Left, exit: Side::Top }));
    } else if i == 1 {
        v.push(Some(Tile::N));
        v.push(Some(Tile::P));
        v.push(None);
        v.push(Some(Tile::Cable { entry: Side::Top, exit: Side::Bottom }));
        v.push(Some(Tile::Battery { plus_side: Side::Top, minus_side: Side::Right }));
        v.push(Some(Tile::Lamp { entry: Side::Bottom, exit: Side::Left }));
        v.push(Some(Tile::Cable { entry: Side::Top, exit: Side::Right }));
        v.push(Some(Tile::Cable { entry: Side::Left, exit: Side::Right }));
        v.push(Some(Tile::Cable { entry: Side::Left, exit: Side::Top }));
    } else if i == 2 {
        v.push(Some(Tile::N));
        v.push(Some(Tile::P));
        v.push(None);
        v.push(Some(Tile::Cable { entry: Side::Top, exit: Side::Bottom }));
        v.push(Some(Tile::Cable { entry: Side::Bottom, exit: Side::Right }));
        v.push(Some(Tile::Cable { entry: Side::Left, exit: Side::Top }));
        v.push(Some(Tile::Cable { entry: Side::Bottom, exit: Side::Left }));
        v.push(Some(Tile::Lamp { entry: Side::Right, exit: Side::Left }));
        v.push(Some(Tile::Battery { plus_side: Side::Bottom, minus_side: Side::Right }));
    } else {
        v.push(None);
        v.push(Some(Tile::N));
        v.push(Some(Tile::P));
        v.push(Some(Tile::Battery { plus_side: Side::Left, minus_side: Side::Top }));
        v.push(Some(Tile::Cable { entry: Side::Right, exit: Side::Left }));
        v.push(Some(Tile::Lamp { entry: Side::Right, exit: Side::Top }));
        v.push(Some(Tile::Cable { entry: Side::Bottom, exit: Side::Right }));
        v.push(Some(Tile::Cable { entry: Side::Left, exit: Side::Top }));
        v.push(Some(Tile::Cable { entry: Side::Bottom, exit: Side::Right }));
    }
    proof {
        assert(v@ =~= layout_spec(i as int));
    }
    v
}

/// Relies on rand::random_range over `0..n`: returns a value of that
/// range; an empty range panics.
#[verifier::external_body]
fn random_below(n: usize) -> (r: usize)
    requires
        n > 0,
    ensures
        r < n,
{
    rand::random_range(0..n)
}

/// Relies on rand::seq::SliceRandom::shuffle: permutes the slice in place,
/// so the multiset of tiles — and with it the length — is unchanged.
#[verifier::external_body]
fn shuffle_tiles(tiles: &mut Vec<Option<Tile>>)
    ensures
        final(tiles)@.to_multiset() == old(tiles)@.to_multiset(),
        final(tiles)@.len() == old(tiles)@.len(),
{
    tiles.shuffle(&mut rand::rng());
}

/// Builds a fresh 3-by-3 puzzle: one of the authored layouts, its nine
/// tiles shuffled over the nine cells. Whatever the shuffle returns, the
/// board holds exactly the multiset of tiles of one authored layout.
pub fn generate_puzzle() -> (g: Board)
    ensures
        g.wf(),
        g@.width == 3,
        g@.height == 3,
        exists|i: int|
            0 <= i < 4 && g@.cells.to_multiset() == #[trigger] layout_spec(i).to_multiset(),
{
    let i = random_below(4);
    let mut tiles = layout(i);
    let ghost chosen = i as int;
    shuffle_tiles(&mut tiles);
    let board = Board::new_grid(tiles, 3);
    let g = board.unwrap();
    proof {
        assert(g@.cells.to_multiset() == layout_spec(chosen).to_multiset());
    }
    g
}

} // verus!
