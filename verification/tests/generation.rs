use halbleiter::board::Board;
use halbleiter::puzzle::generate_puzzle;
use halbleiter::puzzle::layout;
use halbleiter::tile::Tile;

/// Counts (batteries, lamps, cables, p, n, holes) over a whole board.
fn census(g: &Board) -> (usize, usize, usize, usize, usize, usize) {
    let mut counts = (0, 0, 0, 0, 0, 0);
    for y in 0..g.height() {
        for x in 0..g.width() {
            match g.get(x, y).unwrap() {
                Some(Tile::Battery { .. }) => counts.0 += 1,
                Some(Tile::Lamp { .. }) => counts.1 += 1,
                Some(Tile::Cable { .. }) => counts.2 += 1,
                Some(Tile::P) => counts.3 += 1,
                Some(Tile::N) => counts.4 += 1,
                None => counts.5 += 1,
            }
        }
    }
    counts
}

#[test]
fn generated_puzzle_is_three_by_three() {
    let g = generate_puzzle();
    assert_eq!(g.width(), 3);
    assert_eq!(g.height(), 3);
}

#[test]
fn generated_puzzle_holds_one_layout_multiset() {
    // Every authored layout holds one battery, one lamp, one P, one N,
    // four cables and one hole; the shuffle must keep that multiset.
    for _ in 0..20 {
        let g = generate_puzzle();
        assert_eq!(census(&g), (1, 1, 4, 1, 1, 1));
    }
}

#[test]
fn authored_layouts_have_one_battery_and_a_hole() {
    for i in 0..4 {
        let tiles = layout(i);
        assert_eq!(tiles.len(), 9);
        let g = Board::new_grid(tiles, 3).unwrap();
        assert_eq!(census(&g), (1, 1, 4, 1, 1, 1));
    }
}

#[test]
fn reference_layout_is_solved_as_authored() {
    // The first catalog entry is the reference layout and is written in
    // its solved arrangement; the second is as well. The remaining two
    // are authored pre-scrambled.
    let g0 = Board::new_grid(layout(0), 3).unwrap();
    assert!(g0.is_solved());
    let g1 = Board::new_grid(layout(1), 3).unwrap();
    assert!(g1.is_solved());
    let g2 = Board::new_grid(layout(2), 3).unwrap();
    assert!(!g2.is_solved());
    let g3 = Board::new_grid(layout(3), 3).unwrap();
    assert!(!g3.is_solved());
}

#[test]
fn generated_puzzle_queries_terminate() {
    // Whatever arrangement the shuffle produced, the evaluator and the
    // validator come back (and agree with themselves).
    for _ in 0..20 {
        let g = generate_puzzle();
        let solved = g.is_solved();
        assert_eq!(solved, g.is_solved());
        let legal = g.can_move((0, 0), (2, 2));
        assert_eq!(legal, g.can_move((0, 0), (2, 2)));
    }
}
