use checkers_perft::bitboard::Bitboard;
use checkers_perft::board::{Board, Color};
use checkers_perft::move_generator::MoveGenerator;
use checkers_perft::moves::Move;

#[test]
fn test_movegen_multi_jump() {
    let bp = Bitboard::from_notation_vector(&[23, 15, 8]);
    let wp = Bitboard::from_notation_vector(&[27]);
    let kings = Bitboard::from(0);
    let board = Board::from_bitboards(bp, wp, kings);
    let moves = MoveGenerator::new(board, Color::White).generate_moves();
    assert!(moves.len() == 1);
    let m = Move::new(
        Bitboard::from_notation_vector(&[27, 4]),
        Bitboard::from_notation_vector(&[23, 15, 8]),
    );
    assert!(moves.contains(&m));
}

#[test]
fn test_movegen_circle_jump() {
    let board = Board::from_bitboards(
        Bitboard::from_notation_vector(&[23]),
        Bitboard::from_notation_vector(&[18, 19, 10, 11]),
        Bitboard::from_notation_vector(&[23]),
    );
    let moves = MoveGenerator::new(board, Color::Black).generate_moves();
    assert!(moves.len() == 2);
    let m = Move::new(
        Bitboard::new(),
        Bitboard::from_notation_vector(&[18, 19, 10, 11]),
    );
    assert!(moves.contains(&m));
}

#[test]
fn test_movegen_black_kings() {
    let board = Board::from_bitboards(
        Bitboard::from_notation_vector(&[29]),
        Bitboard::new(),
        Bitboard::from_notation_vector(&[29]),
    );
    let moves = MoveGenerator::new(board, Color::Black).generate_moves();
    assert!(
        moves.len() == 1,
        "expected 1 move, found: {:?}",
        moves.len()
    );
    let m = Move::new(Bitboard::from_notation_vector(&[29, 25]), Bitboard::new());
    assert!(
        moves.contains(&m),
        "expected: {:?} in moves: {:?}",
        m,
        moves
    );
}

#[test]
fn test_movegen_circle_jump_captures_everything() {
    let board = Board::from_bitboards(
        Bitboard::from_notation_vector(&[23]),
        Bitboard::from_notation_vector(&[18, 19, 10, 11]),
        Bitboard::from_notation_vector(&[23]),
    );
    let moves = MoveGenerator::new(board, Color::Black).generate_moves();
    let all_light = Bitboard::from_notation_vector(&[18, 19, 10, 11]);
    for m in &moves {
        assert_eq!(m.jumped, all_light);
        assert!(m.movers.is_empty());
    }
}

#[test]
fn test_movegen_mandatory_capture_suppresses_simple_moves() {
    // The dark piece at 22 could step to 25, but the light piece at 26
    // gives it a jump, so no simple move may be offered.
    let board = Board::from_bitboards(
        Bitboard::from_notation_vector(&[22]),
        Bitboard::from_notation_vector(&[26]),
        Bitboard::new(),
    );
    let moves = MoveGenerator::new(board, Color::Black).generate_moves();
    for m in &moves {
        assert!(!m.jumped.is_empty());
    }
    assert!(moves.len() == 1);
    let m = Move::new(
        Bitboard::from_notation_vector(&[22, 31]),
        Bitboard::from_notation_vector(&[26]),
    );
    assert!(moves.contains(&m));
}

#[test]
fn test_movegen_opening_moves_count() {
    let board = Board::new();
    let moves = MoveGenerator::new(board, Color::Black).generate_moves();
    assert_eq!(moves.len(), 7);
    for m in &moves {
        assert!(m.jumped.is_empty());
    }
}

#[test]
fn test_movegen_no_moves_when_blocked() {
    // A lone dark man on its own back row corner square cannot move
    // backward, and both forward squares are occupied by light pieces
    // that cannot be jumped (no landing square behind them).
    let board = Board::from_bitboards(
        Bitboard::from_notation_vector(&[4]),
        Bitboard::from_notation_vector(&[8, 11, 12]),
        Bitboard::new(),
    );
    let moves = MoveGenerator::new(board, Color::Black).generate_moves();
    assert!(moves.is_empty());
}
