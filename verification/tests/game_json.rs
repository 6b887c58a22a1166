use checkers_perft::bitboard::Bitboard;
use checkers_perft::game_json::{MoveDetail, MoveKind};
use checkers_perft::moves::Move;

#[test]
fn test_into_move_simple() {
    let detail = MoveDetail { kind: MoveKind::Simple, moves: vec![9, 13] };
    let m = detail.into_move();
    let expected = Move::new(
        Bitboard::from_notation_vector(&[9, 13]),
        Bitboard::new(),
    );
    assert_eq!(m, expected);
}

#[test]
fn test_into_move_single_jump() {
    let detail = MoveDetail { kind: MoveKind::Jump, moves: vec![27, 18] };
    let m = detail.into_move();
    let expected = Move::new(
        Bitboard::from_notation_vector(&[27, 18]),
        Bitboard::from_notation_vector(&[23]),
    );
    assert_eq!(m, expected);
}

#[test]
fn test_into_move_multi_jump() {
    // A double jump 27 -> 18 -> 11 captures the midpoints 23 and 15;
    // only the endpoints stand in the movers set.
    let detail = MoveDetail { kind: MoveKind::Jump, moves: vec![27, 18, 11] };
    let m = detail.into_move();
    let expected = Move::new(
        Bitboard::from_notation_vector(&[27, 11]),
        Bitboard::from_notation_vector(&[23, 15]),
    );
    assert_eq!(m, expected);
}
