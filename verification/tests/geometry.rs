use halbleiter::board::Board;
use halbleiter::geometry::RenderPos;
use halbleiter::tile::Side;
use halbleiter::tile::Tile;

const VIEW_W: u32 = 1500;
const VIEW_H: u32 = 720;

fn three_by_three() -> Board {
    let tiles = vec![
        Some(Tile::Cable { entry: Side::Right, exit: Side::Bottom }),
        Some(Tile::Battery { plus_side: Side::Left, minus_side: Side::Right }),
        Some(Tile::N),
        Some(Tile::Cable { entry: Side::Top, exit: Side::Right }),
        Some(Tile::Lamp { entry: Side::Left, exit: Side::Bottom }),
        Some(Tile::P),
        None,
        Some(Tile::Cable { entry: Side::Top, exit: Side::Right }),
        Some(Tile::Cable { entry: Side::Left, exit: Side::Top }),
    ];
    Board::new_grid(tiles, 3).unwrap()
}

#[test]
fn tile_edge_is_viewport_constrained() {
    let g = three_by_three();
    // min(1500 / 3, 720 / 3) = min(500, 240).
    assert_eq!(g.tile_edge_length(VIEW_W, VIEW_H), 240);
    assert_eq!(g.tile_edge_length(3000, VIEW_H), 240);
    assert_eq!(g.tile_edge_length(30, VIEW_H), 10);
}

#[test]
fn cell_anchors_in_half_pixels() {
    let g = three_by_three();
    // Grid of 3 * 240 pixels: left edge at -360 px, top edge at +360 px,
    // in half pixels -720 and +720.
    assert_eq!(g.cell_to_position(0, 0, VIEW_W, VIEW_H), Some(RenderPos { x: -720, y: 720 }));
    assert_eq!(g.cell_to_position(2, 1, VIEW_W, VIEW_H), Some(RenderPos { x: 240, y: 240 }));
    assert_eq!(g.cell_to_position(2, 2, VIEW_W, VIEW_H), Some(RenderPos { x: 240, y: -240 }));
}

#[test]
fn cell_to_position_rejects_out_of_range() {
    let g = three_by_three();
    assert_eq!(g.cell_to_position(3, 0, VIEW_W, VIEW_H), None);
    assert_eq!(g.cell_to_position(0, 3, VIEW_W, VIEW_H), None);
}

#[test]
fn position_roundtrips_through_cell() {
    let g = three_by_three();
    for x in 0..3 {
        for y in 0..3 {
            let p = g.cell_to_position(x, y, VIEW_W, VIEW_H).unwrap();
            assert_eq!(g.position_to_cell(p, VIEW_W, VIEW_H), (x, y));
        }
    }
}

#[test]
fn boundary_snap_clamps_far_positions() {
    let g = three_by_three();
    // Far to the right and far below: clamps to the last column and the
    // last row, never out of range.
    let far = RenderPos { x: 10_000_000, y: -10_000_000 };
    assert_eq!(g.position_to_cell(far, VIEW_W, VIEW_H), (2, 2));
    // Far to the left and far above: clamps to the first cell.
    let far_neg = RenderPos { x: -10_000_000, y: 10_000_000 };
    assert_eq!(g.position_to_cell(far_neg, VIEW_W, VIEW_H), (0, 0));
    // The extremes of the position type do not panic either.
    let extreme = RenderPos { x: i64::MAX, y: i64::MIN };
    assert_eq!(g.position_to_cell(extreme, VIEW_W, VIEW_H), (2, 2));
}

#[test]
fn position_rounds_to_nearest_cell() {
    let g = three_by_three();
    // Anchor of cell (1, 0) is x = -240 (half pixels); half a tile to the
    // left of it, x = -480, is the tie between columns 0 and 1 and falls
    // to column 1.
    assert_eq!(g.position_to_cell(RenderPos { x: -480, y: 720 }, VIEW_W, VIEW_H), (1, 0));
    // Just left of the tie resolves to column 0.
    assert_eq!(g.position_to_cell(RenderPos { x: -481, y: 720 }, VIEW_W, VIEW_H), (0, 0));
}

#[test]
fn snap_returns_nearest_anchor() {
    let g = three_by_three();
    // A position slightly off the anchor of cell (1, 0) snaps onto it.
    let snapped = g.snap_to_grid(RenderPos { x: -239, y: 715 }, VIEW_W, VIEW_H);
    assert_eq!(snapped, RenderPos { x: -240, y: 720 });
    // A far-out position snaps to the nearest boundary anchor.
    let snapped_far = g.snap_to_grid(RenderPos { x: 10_000_000, y: 10_000_000 }, VIEW_W, VIEW_H);
    assert_eq!(snapped_far, g.cell_to_position(2, 0, VIEW_W, VIEW_H).unwrap());
}
