use checkers_perft::bitboard::Bitboard;
use checkers_perft::board::{Board, Color};
use checkers_perft::move_generator::MoveGenerator;
use checkers_perft::moves::Move;

#[test]
fn test_start_position() {
    let board = Board::new();
    let mut dark = board.bp.as_notation_vector();
    dark.sort();
    assert_eq!(dark, (1..=12).collect::<Vec<u8>>());
    let mut light = board.wp.as_notation_vector();
    light.sort();
    assert_eq!(light, (21..=32).collect::<Vec<u8>>());
    assert!(board.kings.is_empty());
}

#[test]
fn test_no_captures_from_start() {
    let board = Board::new();
    assert!(board.jumpers(Color::Black).is_empty());
    assert!(board.jumpers(Color::White).is_empty());
}

#[test]
fn test_opposite_is_involution() {
    assert_eq!(Color::Black.opposite(), Color::White);
    assert_eq!(Color::White.opposite(), Color::Black);
    assert_eq!(Color::Black.opposite().opposite(), Color::Black);
}

#[test]
fn test_apply_move_twice_restores_piece_sets() {
    // Applying the same move again undoes it on both piece sets: the
    // symmetric-difference update is self-inverse.
    let mut board = Board::new();
    let moves = MoveGenerator::new(board.clone(), Color::Black).generate_moves();
    let m = moves[0];
    let before = board.clone();
    board.apply_move(Color::Black, &m);
    assert_ne!(board.bp, before.bp);
    board.apply_move(Color::Black, &m);
    assert_eq!(board.bp, before.bp);
    assert_eq!(board.wp, before.wp);
}

#[test]
fn test_apply_move_removes_captured_piece() {
    let mut board = Board::from_bitboards(
        Bitboard::from_notation_vector(&[22]),
        Bitboard::from_notation_vector(&[26]),
        Bitboard::new(),
    );
    let m = Move::new(
        Bitboard::from_notation_vector(&[22, 31]),
        Bitboard::from_notation_vector(&[26]),
    );
    board.apply_move(Color::Black, &m);
    assert_eq!(board.bp, Bitboard::from_notation_vector(&[31]));
    assert!(board.wp.is_empty());
}

#[test]
fn test_promote_kings_far_row() {
    // A dark piece promotes on squares 29 through 32, a light piece on
    // 1 through 4; promote_kings reports the newly flagged squares.
    let mut board = Board::from_bitboards(
        Bitboard::from_notation_vector(&[30]),
        Bitboard::from_notation_vector(&[3]),
        Bitboard::new(),
    );
    let promoted = board.promote_kings();
    let mut squares = promoted.as_notation_vector();
    squares.sort();
    assert_eq!(squares, vec![3, 30]);
    assert_eq!(board.kings, promoted);
    // A second call finds nothing new.
    assert!(board.promote_kings().is_empty());
}

#[test]
fn test_promote_kings_ignores_existing_kings() {
    let spot = Bitboard::from_notation_vector(&[29]);
    let mut board = Board::from_bitboards(spot, Bitboard::new(), spot);
    assert!(board.promote_kings().is_empty());
}

#[test]
fn test_movers_require_empty_destination() {
    // Dark men move toward higher-numbered squares; a fully blocked
    // piece is not a mover.
    let board = Board::from_bitboards(
        Bitboard::from_notation_vector(&[1]),
        Bitboard::from_notation_vector(&[5, 6]),
        Bitboard::new(),
    );
    assert!(board.movers(Color::Black).is_empty());
}
