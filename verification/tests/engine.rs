use halbleiter::board::Board;
use halbleiter::tile::Side;
use halbleiter::tile::Tile;

fn cable(entry: Side, exit: Side) -> Option<Tile> {
    Some(Tile::Cable { entry, exit })
}

fn battery(plus_side: Side, minus_side: Side) -> Option<Tile> {
    Some(Tile::Battery { plus_side, minus_side })
}

fn lamp(entry: Side, exit: Side) -> Option<Tile> {
    Some(Tile::Lamp { entry, exit })
}

/// The reference 3x3 layout, solved exactly as authored.
fn golden_grid() -> Board {
    let tiles = vec![
        cable(Side::Right, Side::Bottom),
        battery(Side::Left, Side::Right),
        Some(Tile::N),
        cable(Side::Top, Side::Right),
        lamp(Side::Left, Side::Bottom),
        Some(Tile::P),
        None,
        cable(Side::Top, Side::Right),
        cable(Side::Left, Side::Top),
    ];
    Board::new_grid(tiles, 3).unwrap()
}

#[test]
fn golden_layout_is_solved() {
    let g = golden_grid();
    assert!(g.is_solved());
}

#[test]
fn queries_are_deterministic() {
    let g = golden_grid();
    let a = g.is_solved();
    let b = g.is_solved();
    assert_eq!(a, b);
    let c = g.can_move((1, 2), (0, 2));
    let d = g.can_move((1, 2), (0, 2));
    assert_eq!(c, d);
}

#[test]
fn swap_involution_restores_grid() {
    let mut g = golden_grid();
    let before: Vec<Option<Tile>> = (0..3)
        .flat_map(|y| (0..3).map(move |x| (x, y)))
        .map(|(x, y)| g.get(x, y).unwrap())
        .collect();
    g.swap((0, 0), (2, 1));
    g.swap((0, 0), (2, 1));
    let after: Vec<Option<Tile>> = (0..3)
        .flat_map(|y| (0..3).map(move |x| (x, y)))
        .map(|(x, y)| g.get(x, y).unwrap())
        .collect();
    assert_eq!(before, after);
}

#[test]
fn swap_moves_tile_into_hole() {
    let mut g = golden_grid();
    assert_eq!(g.get(0, 2), Some(None));
    g.swap((0, 2), (1, 2));
    assert_eq!(g.get(1, 2), Some(None));
    assert_eq!(g.get(0, 2), Some(cable(Side::Top, Side::Right)));
}

#[test]
fn adjacent_cells_always_connected() {
    // A board with every cell occupied: adjacency alone connects.
    let tiles = vec![
        cable(Side::Left, Side::Right),
        cable(Side::Left, Side::Right),
        cable(Side::Left, Side::Right),
        cable(Side::Left, Side::Right),
        cable(Side::Left, Side::Right),
        cable(Side::Left, Side::Right),
        cable(Side::Left, Side::Right),
        cable(Side::Left, Side::Right),
        cable(Side::Left, Side::Right),
    ];
    let g = Board::new_grid(tiles, 3).unwrap();
    // Orthogonal neighbours.
    assert!(g.has_unobstructed_path((1, 1), (0, 1)));
    assert!(g.has_unobstructed_path((1, 1), (2, 1)));
    assert!(g.has_unobstructed_path((1, 1), (1, 0)));
    assert!(g.has_unobstructed_path((1, 1), (1, 2)));
    // Diagonal neighbours: Chebyshev distance one as well.
    assert!(g.has_unobstructed_path((1, 1), (0, 0)));
    assert!(g.has_unobstructed_path((1, 1), (2, 2)));
    assert!(g.has_unobstructed_path((0, 0), (1, 1)));
    assert!(g.has_unobstructed_path((2, 0), (1, 1)));
}

#[test]
fn occupied_destination_blocks_move() {
    let g = golden_grid();
    // (1, 2) holds a cable and is adjacent to (0, 2): connectivity is
    // there, yet the destination is occupied.
    assert!(!g.can_move((0, 2), (1, 2)));
    // Out-of-range destinations are no holes either.
    assert!(!g.can_move((0, 0), (3, 0)));
}

#[test]
fn move_into_adjacent_hole_is_legal() {
    let g = golden_grid();
    assert!(g.can_move((1, 2), (0, 2)));
    assert!(g.can_move((1, 1), (0, 2)));
}

#[test]
fn walk_blocked_without_holes() {
    let g = golden_grid();
    // (1, 0) and (1, 2) are two cells apart; every extension cell of the
    // walk is occupied.
    assert!(!g.has_unobstructed_path((1, 0), (1, 2)));
}

#[test]
fn walk_extends_through_holes_rightward() {
    // Top row all holes: the walk steps right until adjacent.
    let tiles = vec![
        None,
        None,
        None,
        cable(Side::Left, Side::Right),
        cable(Side::Left, Side::Right),
        cable(Side::Left, Side::Right),
        cable(Side::Left, Side::Right),
        cable(Side::Left, Side::Right),
        cable(Side::Left, Side::Right),
    ];
    let g = Board::new_grid(tiles, 3).unwrap();
    assert!(g.has_unobstructed_path((0, 0), (2, 0)));
}

#[test]
fn walk_extends_from_destination_side_too() {
    // The source corner has no hole to its right or below; the walk still
    // succeeds by extending the other endpoint through the hole at (1, 0).
    let tiles = vec![
        cable(Side::Left, Side::Right),
        None,
        cable(Side::Left, Side::Right),
        cable(Side::Left, Side::Right),
        cable(Side::Left, Side::Right),
        cable(Side::Left, Side::Right),
        cable(Side::Left, Side::Right),
        cable(Side::Left, Side::Right),
        cable(Side::Left, Side::Right),
    ];
    let g = Board::new_grid(tiles, 3).unwrap();
    assert!(g.has_unobstructed_path((2, 0), (0, 0)));
}

#[test]
fn walk_extends_through_hole_below() {
    // No hole to the right of the source, but one below it leads to
    // adjacency with the destination.
    let tiles = vec![
        cable(Side::Left, Side::Right),
        cable(Side::Left, Side::Right),
        cable(Side::Left, Side::Right),
        None,
        cable(Side::Left, Side::Right),
        cable(Side::Left, Side::Right),
        cable(Side::Left, Side::Right),
        cable(Side::Left, Side::Right),
        cable(Side::Left, Side::Right),
    ];
    let g = Board::new_grid(tiles, 3).unwrap();
    assert!(g.has_unobstructed_path((0, 0), (0, 2)));
}

#[test]
fn greedy_walk_misses_downward_hole() {
    // Holes right of and below the source: the walk greedily takes the
    // hole to the right, which dead-ends, and never backtracks to the
    // hole below — the deliberate asymmetry of the rule.
    let tiles = vec![
        cable(Side::Left, Side::Right),
        None,
        cable(Side::Left, Side::Right),
        None,
        cable(Side::Left, Side::Right),
        cable(Side::Left, Side::Right),
        cable(Side::Left, Side::Right),
        cable(Side::Left, Side::Right),
        cable(Side::Left, Side::Right),
    ];
    let g = Board::new_grid(tiles, 3).unwrap();
    assert!(!g.has_unobstructed_path((0, 0), (0, 2)));
}

#[test]
fn no_battery_never_solved() {
    let tiles = vec![
        cable(Side::Left, Side::Right),
        cable(Side::Left, Side::Right),
        cable(Side::Left, Side::Right),
        lamp(Side::Left, Side::Right),
        Some(Tile::P),
        Some(Tile::N),
        None,
        None,
        None,
    ];
    let g = Board::new_grid(tiles, 3).unwrap();
    assert!(!g.is_solved());
}

#[test]
fn junction_wrong_polarity_unsolved() {
    // A loop that would close if the junction conducted both ways: the
    // battery's plus side feeds the N half first, and N cannot be entered
    // except from P.
    let tiles = vec![
        battery(Side::Right, Side::Bottom),
        Some(Tile::N),
        lamp(Side::Right, Side::Top),
        Some(Tile::P),
    ];
    let g = Board::new_grid(tiles, 2).unwrap();
    assert!(!g.is_solved());
}

#[test]
fn junction_correct_polarity_solves() {
    // The same loop with P and N exchanged: current flows battery, P, N,
    // lamp, and back into the minus side.
    let tiles = vec![
        battery(Side::Right, Side::Bottom),
        Some(Tile::P),
        lamp(Side::Right, Side::Top),
        Some(Tile::N),
    ];
    let g = Board::new_grid(tiles, 2).unwrap();
    assert!(g.is_solved());
}

#[test]
fn junction_cycle_terminates_unsolved() {
    // The battery feeds a P/N pair that keeps handing the current back
    // and forth; the visited set prunes the repetition and the search
    // ends unsolved.
    let tiles = vec![
        Some(Tile::P),
        Some(Tile::N),
        battery(Side::Top, Side::Left),
        None,
    ];
    let g = Board::new_grid(tiles, 2).unwrap();
    assert!(!g.is_solved());
}

#[test]
fn cable_ring_terminates_unsolved() {
    // A closed directed cable ring with no battery anywhere.
    let tiles = vec![
        cable(Side::Left, Side::Right),
        cable(Side::Left, Side::Bottom),
        cable(Side::Bottom, Side::Left),
        cable(Side::Right, Side::Top),
    ];
    let g = Board::new_grid(tiles, 2).unwrap();
    assert!(!g.is_solved());
}

#[test]
fn misdirected_cable_breaks_circuit() {
    // The golden layout with the loop broken: the cable under the lamp is
    // turned so its entry no longer faces the lamp's exit.
    let tiles = vec![
        cable(Side::Right, Side::Bottom),
        battery(Side::Left, Side::Right),
        Some(Tile::N),
        cable(Side::Top, Side::Right),
        lamp(Side::Left, Side::Bottom),
        Some(Tile::P),
        None,
        cable(Side::Bottom, Side::Right),
        cable(Side::Left, Side::Top),
    ];
    let g = Board::new_grid(tiles, 3).unwrap();
    assert!(!g.is_solved());
}

#[test]
fn battery_plus_side_off_grid_unsolved() {
    let tiles = vec![battery(Side::Left, Side::Right), cable(Side::Left, Side::Right)];
    let g = Board::new_grid(tiles, 2).unwrap();
    assert!(!g.is_solved());
}

#[test]
fn new_grid_rejects_mismatched_length() {
    let tiles = vec![Some(Tile::P), Some(Tile::N), None, None, None];
    assert!(Board::new_grid(tiles, 3).is_none());
}

#[test]
fn new_grid_rejects_zero_width() {
    let tiles = vec![Some(Tile::P)];
    assert!(Board::new_grid(tiles, 0).is_none());
}

#[test]
fn new_grid_empty_yields_empty_board() {
    let g = Board::new_grid(Vec::new(), 4).unwrap();
    assert_eq!(g.width(), 0);
    assert_eq!(g.height(), 0);
    assert_eq!(g.get(0, 0), None);
    assert!(!g.is_solved());
}

#[test]
fn get_out_of_range_is_none() {
    let g = golden_grid();
    assert_eq!(g.get(3, 0), None);
    assert_eq!(g.get(0, 3), None);
    assert_eq!(g.get(1, 1), Some(lamp(Side::Left, Side::Bottom)));
}

#[test]
fn side_offsets() {
    assert_eq!(Side::Left.x_offset(), -1);
    assert_eq!(Side::Right.x_offset(), 1);
    assert_eq!(Side::Top.x_offset(), 0);
    assert_eq!(Side::Bottom.x_offset(), 0);
    assert_eq!(Side::Left.y_offset(), 0);
    assert_eq!(Side::Right.y_offset(), 0);
    assert_eq!(Side::Top.y_offset(), -1);
    assert_eq!(Side::Bottom.y_offset(), 1);
}

#[test]
fn solving_by_one_move() {
    // Break the golden layout by dragging a tile into the hole, then
    // undo the move and the circuit closes again.
    let mut g = golden_grid();
    assert!(g.can_move((1, 2), (0, 2)));
    g.swap((1, 2), (0, 2));
    assert!(!g.is_solved());
    assert!(g.can_move((0, 2), (1, 2)));
    g.swap((0, 2), (1, 2));
    assert!(g.is_solved());
}
