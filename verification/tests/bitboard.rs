use checkers_perft::bitboard::Bitboard;

#[test]
fn test_from_notation_round_trip() {
    let squares: Vec<u8> = vec![1, 5, 32, 17, 9];
    let bitboard = Bitboard::from_notation_vector(&squares);
    let mut back = bitboard.as_notation_vector();
    back.sort();
    let mut expected = squares.clone();
    expected.sort();
    assert_eq!(back, expected);
}

#[test]
fn test_from_notation_order_independent() {
    let a = Bitboard::from_notation_vector(&[3, 14, 27]);
    let b = Bitboard::from_notation_vector(&[27, 3, 14]);
    assert_eq!(a, b);
}

#[test]
fn test_len_and_is_empty() {
    assert!(Bitboard::new().is_empty());
    assert_eq!(Bitboard::new().len(), 0);
    let b = Bitboard::from_notation_vector(&[1, 2, 3, 31]);
    assert!(!b.is_empty());
    assert_eq!(b.len(), 4);
}

#[test]
fn test_jumped_midpoint() {
    // A jump from 27 landing on 18 passes over 23.
    let start = Bitboard::from_notation_vector(&[27]);
    let landing = Bitboard::from_notation_vector(&[18]);
    assert_eq!(start.jumped(landing), Bitboard::from_notation_vector(&[23]));
}

#[test]
fn test_as_notation_vector_sorted_ascending() {
    // The read-out lists notation numbers in ascending order whatever
    // the order the squares were set in.
    let b = Bitboard::from_notation_vector(&[32, 1, 5]);
    assert_eq!(b.as_notation_vector(), vec![1, 5, 32]);
    let c = Bitboard::from_notation_vector(&[17, 9, 30, 2]);
    assert_eq!(c.as_notation_vector(), vec![2, 9, 17, 30]);
}

#[test]
fn test_iter_yields_each_bit_once() {
    let b = Bitboard::from_notation_vector(&[4, 13, 22]);
    let mut iter = b.iter();
    let mut seen: u64 = 0;
    let mut count = 0;
    while let Some(bit) = iter.next() {
        assert_eq!(bit.count_ones(), 1);
        assert_eq!(seen & bit, 0);
        seen |= bit;
        count += 1;
    }
    assert_eq!(count, 3);
    assert_eq!(Bitboard::from(seen), b);
}
