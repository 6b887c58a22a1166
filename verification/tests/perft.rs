use checkers_perft::board::{Board, Color};
use checkers_perft::move_generator::MoveGenerator;
use checkers_perft::perft::{perft, perft_recur};

#[test]
fn test_perft_depth_zero_counts_one_leaf() {
    let board = Board::new();
    assert_eq!(perft(Color::Black, &board, 0), 1);
    assert_eq!(perft_recur(Color::Black, &board, 0), 1);
}

#[test]
fn test_perft_depth_one_equals_opening_move_count() {
    // From the start no capture is possible, so depth one counts the
    // legal simple opening moves.
    let board = Board::new();
    let opening_moves = MoveGenerator::new(board.clone(), Color::Black).generate_moves();
    assert_eq!(perft(Color::Black, &board, 1), opening_moves.len() as u64);
    assert_eq!(perft(Color::Black, &board, 1), 7);
}

#[test]
fn test_perft_known_counts() {
    let board = Board::new();
    let expected: [u64; 6] = [1, 7, 49, 302, 1469, 7361];
    for (depth, want) in expected.iter().enumerate() {
        assert_eq!(perft(Color::Black, &board, depth as u32), *want);
    }
}

#[test]
fn test_perft_parallel_matches_sequential() {
    // The parallel first ply and the sequential recursion must agree
    // for every position and depth; spot-check several, twice each, to
    // see determinism under the worker pool.
    let board = Board::new();
    for depth in 0..7u32 {
        let sequential = perft_recur(Color::Black, &board, depth);
        assert_eq!(perft(Color::Black, &board, depth), sequential);
        assert_eq!(perft(Color::Black, &board, depth), sequential);
    }
    for depth in 0..5u32 {
        let sequential = perft_recur(Color::White, &board, depth);
        assert_eq!(perft(Color::White, &board, depth), sequential);
    }
}
