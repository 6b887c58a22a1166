use vstd::prelude::*;

verus! {

use crate::bitboard::{Bitboard, nth, one_bit, lemma_nth_ops, lemma_nth_shifts, lemma_word_facts};
use crate::moves::{Move, MoveRep};

/// Mask of the 32 playable (dark) squares.
pub const PLAYABLE: u64 = 2130169298400;

/// The first side's starting pieces.
pub const BLACK_START: u64 = 2130035343360;

/// The row on which the second side's pieces promote.
pub const BLACK_KING_ROW: u64 = 2061584302080;

/// The second side's starting pieces.
pub const WHITE_START: u64 = 261600;

/// The row on which the first side's pieces promote.
pub const WHITE_KING_ROW: u64 = 480;

/// The side to move: Black moves first.
#[derive(Clone, Copy, PartialEq, Eq, Structural, Debug)]
pub enum Color {
    Black,
    White,
}

/// The other side.
pub open spec fn opposite_of(c: Color) -> Color {
    match c {
        Color::Black => Color::White,
        Color::White => Color::Black,
    }
}

impl Color {
    /// The other side; a total involution.
    pub fn opposite(&self) -> (r: Self)
        ensures
            r == opposite_of(*self),
    {
        match self {
            Color::Black => Color::White,
            Color::White => Color::Black,
        }
    }
}

/// The mathematical value of a [`Board`]: the two sides' piece words and
/// the king-flag word.
pub ghost struct BoardRep {
    pub bp: u64,
    pub wp: u64,
    pub kings: u64,
}

/// The pieces of side `c`.
pub open spec fn side_pieces(b: BoardRep, c: Color) -> u64 {
    match c {
        Color::Black => b.bp,
        Color::White => b.wp,
    }
}

/// The pieces of the side opposing `c`.
pub open spec fn foe_pieces(b: BoardRep, c: Color) -> u64 {
    match c {
        Color::Black => b.wp,
        Color::White => b.bp,
    }
}

/// The empty playable squares.
pub open spec fn empty_of(b: BoardRep) -> u64 {
    !(b.bp | b.wp) & PLAYABLE
}

/// The board's structural invariant: the two sides' pieces are disjoint
/// subsets of the playable squares, and every king flag sits on a
/// piece. Positions built from explicit square sets may break it; every
/// operation stays total regardless.
pub open spec fn board_wf(b: BoardRep) -> bool {
    b.bp & b.wp == 0 && (b.bp | b.wp) & !PLAYABLE == 0 && b.kings & !(b.bp | b.wp) == 0
}

/// Square `d` is one diagonal step forward of square `i` for side `c`
/// (Black moves toward lower bit indices, White toward higher).
pub open spec fn step_fwd(c: Color, i: u64, d: u64) -> bool {
    match c {
        Color::Black => i == d + 4 || i == d + 5,
        Color::White => d == i + 4 || d == i + 5,
    }
}

/// Square `d` is one diagonal capture-jump forward of square `i` for
/// side `c`.
pub open spec fn jump_fwd(c: Color, i: u64, d: u64) -> bool {
    match c {
        Color::Black => i == d + 8 || i == d + 10,
        Color::White => d == i + 8 || d == i + 10,
    }
}

/// A piece of side `c` standing on square `i` may step to square `d`:
/// `d` is empty and diagonally adjacent, forward for a man, either way
/// for a king.
pub open spec fn can_step(b: BoardRep, c: Color, i: u64, d: u64) -> bool {
    i < 64 && d < 64 && nth(empty_of(b), d) && (step_fwd(c, i, d) || (nth(b.kings, i) && step_fwd(
        opposite_of(c),
        i,
        d,
    )))
}

/// A piece of side `c` standing on square `i` may capture-jump to square
/// `d`: `d` is empty two diagonal steps away, the square between holds
/// an enemy piece, and the direction is forward for a man, either way
/// for a king.
pub open spec fn can_jump(b: BoardRep, c: Color, i: u64, d: u64) -> bool {
    i < 64 && d < 64 && (i + d) % 2 == 0 && nth(empty_of(b), d) && nth(
        foe_pieces(b, c),
        ((i + d) / 2) as u64,
    ) && (jump_fwd(c, i, d) || (nth(b.kings, i) && jump_fwd(opposite_of(c), i, d)))
}

/// The word of Black pieces that have at least one simple step.
pub open spec fn black_movers_of(b: BoardRep) -> u64 {
    let e = empty_of(b);
    let fwd = ((e << 4u64) & b.bp) | ((e << 5u64) & b.bp);
    if b.bp & b.kings != 0 {
        (fwd | ((e >> 4u64) & (b.bp & b.kings))) | ((e >> 5u64) & (b.bp & b.kings))
    } else {
        fwd
    }
}

/// The word of White pieces that have at least one simple step.
pub open spec fn white_movers_of(b: BoardRep) -> u64 {
    let e = empty_of(b);
    let fwd = ((e >> 4u64) & b.wp) | ((e >> 5u64) & b.wp);
    if b.wp & b.kings != 0 {
        (fwd | ((e << 4u64) & (b.wp & b.kings))) | ((e << 5u64) & (b.wp & b.kings))
    } else {
        fwd
    }
}

/// The step destinations of the Black piece word `p`.
pub open spec fn black_moves_of(b: BoardRep, p: u64) -> u64 {
    let e = empty_of(b);
    let fwd = ((p >> 4u64) | (p >> 5u64)) & e;
    if b.kings & p != 0 {
        fwd | (((p << 4u64) | (p << 5u64)) & e)
    } else {
        fwd
    }
}

/// The step destinations of the White piece word `p`.
pub open spec fn white_moves_of(b: BoardRep, p: u64) -> u64 {
    let e = empty_of(b);
    let fwd = ((p << 4u64) | (p << 5u64)) & e;
    if b.kings & p != 0 {
        fwd | (((p >> 4u64) | (p >> 5u64)) & e)
    } else {
        fwd
    }
}

/// The word of Black pieces that have at least one capture-jump.
pub open spec fn black_jumpers_of(b: BoardRep) -> u64 {
    let e = empty_of(b);
    let fwd = ((((e << 4u64) & b.wp) << 4u64) & b.bp) | ((((e << 5u64) & b.wp) << 5u64) & b.bp);
    if b.bp & b.kings != 0 {
        (fwd | ((((e >> 4u64) & b.wp) >> 4u64) & (b.bp & b.kings))) | ((((e >> 5u64) & b.wp)
            >> 5u64) & (b.bp & b.kings))
    } else {
        fwd
    }
}

/// The word of White pieces that have at least one capture-jump.
pub open spec fn white_jumpers_of(b: BoardRep) -> u64 {
    let e = empty_of(b);
    let fwd = ((((e >> 4u64) & b.bp) >> 4u64) & b.wp) | ((((e >> 5u64) & b.bp) >> 5u64) & b.wp);
    if b.wp & b.kings != 0 {
        (fwd | ((((e << 4u64) & b.bp) << 4u64) & (b.wp & b.kings))) | ((((e << 5u64) & b.bp)
            << 5u64) & (b.wp & b.kings))
    } else {
        fwd
    }
}

/// The capture-landing squares of the Black piece word `p`.
pub open spec fn black_jumps_of(b: BoardRep, p: u64) -> u64 {
    let e = empty_of(b);
    let fwd = ((((p >> 4u64) & b.wp) >> 4u64) & e) | ((((p >> 5u64) & b.wp) >> 5u64) & e);
    if b.kings & p != 0 {
        (fwd | ((((p << 4u64) & b.wp) << 4u64) & e)) | ((((p << 5u64) & b.wp) << 5u64) & e)
    } else {
        fwd
    }
}

/// The capture-landing squares of the White piece word `p`.
pub open spec fn white_jumps_of(b: BoardRep, p: u64) -> u64 {
    let e = empty_of(b);
    let fwd = ((((p << 4u64) & b.bp) << 4u64) & e) | ((((p << 5u64) & b.bp) << 5u64) & e);
    if b.kings & p != 0 {
        (fwd | ((((p >> 4u64) & b.bp) >> 4u64) & e)) | ((((p >> 5u64) & b.bp) >> 5u64) & e)
    } else {
        fwd
    }
}

/// The movers word of side `c`.
pub open spec fn movers_of(b: BoardRep, c: Color) -> u64 {
    match c {
        Color::Black => black_movers_of(b),
        Color::White => white_movers_of(b),
    }
}

/// The step destinations of piece word `p` of side `c`.
pub open spec fn moves_of(b: BoardRep, c: Color, p: u64) -> u64 {
    match c {
        Color::Black => black_moves_of(b, p),
        Color::White => white_moves_of(b, p),
    }
}

/// The jumpers word of side `c`.
pub open spec fn jumpers_of(b: BoardRep, c: Color) -> u64 {
    match c {
        Color::Black => black_jumpers_of(b),
        Color::White => white_jumpers_of(b),
    }
}

/// The capture-landing squares of piece word `p` of side `c`.
pub open spec fn jumps_of(b: BoardRep, c: Color, p: u64) -> u64 {
    match c {
        Color::Black => black_jumps_of(b, p),
        Color::White => white_jumps_of(b, p),
    }
}

/// The board after side `c` plays move `m`: the mover's pieces are
/// toggled by `m.movers`, the enemy's by `m.jumped`; if the moving piece
/// was a king its flag moves with it, and flags of captured squares are
/// cleared.
pub open spec fn apply_of(b: BoardRep, c: Color, m: MoveRep) -> BoardRep {
    let bp2 = match c {
        Color::Black => b.bp ^ m.movers,
        Color::White => b.bp ^ m.jumped,
    };
    let wp2 = match c {
        Color::Black => b.wp ^ m.jumped,
        Color::White => b.wp ^ m.movers,
    };
    let k1 = if m.movers & b.kings != 0 {
        b.kings ^ m.movers
    } else {
        b.kings
    };
    let k2 = if m.jumped & k1 != 0 {
        k1 ^ (m.jumped & k1)
    } else {
        k1
    };
    BoardRep { bp: bp2, wp: wp2, kings: k2 }
}

/// The squares newly promoted to king: pieces on the far row not yet
/// flagged.
pub open spec fn promoted_of(b: BoardRep) -> u64 {
    ((b.bp & WHITE_KING_ROW) | (b.wp & BLACK_KING_ROW)) & !b.kings
}

/// The board after king promotion.
pub open spec fn promote_of(b: BoardRep) -> BoardRep {
    if promoted_of(b) != 0 {
        BoardRep { bp: b.bp, wp: b.wp, kings: b.kings | promoted_of(b) }
    } else {
        b
    }
}

/// Movers characterization: a square is in the movers word exactly when
/// a piece of side `c` stands there and some step destination exists.
pub proof fn lemma_movers_char(b: BoardRep, c: Color)
    ensures
        forall|i: u64| #[trigger] nth(movers_of(b, c), i) <==> nth(side_pieces(b, c), i)
            && exists|d: u64| can_step(b, c, i, d),
{
    lemma_nth_ops();
    lemma_nth_shifts();
    lemma_word_facts();
    let e = empty_of(b);
    match c {
        Color::Black => {
            assert forall|i: u64| #[trigger] nth(black_movers_of(b), i) <==> nth(b.bp, i)
                && exists|d: u64| can_step(b, Color::Black, i, d) by {
                if nth(b.bp, i) {
                    if i >= 4 && nth(e, (i - 4) as u64) {
                        assert(can_step(b, Color::Black, i, (i - 4) as u64));
                    }
                    if i >= 5 && nth(e, (i - 5) as u64) {
                        assert(can_step(b, Color::Black, i, (i - 5) as u64));
                    }
                    if nth(b.kings, i) && i < 60 && nth(e, (i + 4) as u64) {
                        assert(can_step(b, Color::Black, i, (i + 4) as u64));
                    }
                    if nth(b.kings, i) && i < 59 && nth(e, (i + 5) as u64) {
                        assert(can_step(b, Color::Black, i, (i + 5) as u64));
                    }
                }
            }
        },
        Color::White => {
            assert forall|i: u64| #[trigger] nth(white_movers_of(b), i) <==> nth(b.wp, i)
                && exists|d: u64| can_step(b, Color::White, i, d) by {
                if nth(b.wp, i) {
                    if i < 60 && nth(e, (i + 4) as u64) {
                        assert(can_step(b, Color::White, i, (i + 4) as u64));
                    }
                    if i < 59 && nth(e, (i + 5) as u64) {
                        assert(can_step(b, Color::White, i, (i + 5) as u64));
                    }
                    if nth(b.kings, i) && i >= 4 && nth(e, (i - 4) as u64) {
                        assert(can_step(b, Color::White, i, (i - 4) as u64));
                    }
                    if nth(b.kings, i) && i >= 5 && nth(e, (i - 5) as u64) {
                        assert(can_step(b, Color::White, i, (i - 5) as u64));
                    }
                }
            }
        },
    }
}

/// Step-destination characterization for a single piece on square `i`.
pub proof fn lemma_moves_char(b: BoardRep, c: Color, i: u64)
    requires
        i < 64,
    ensures
        forall|d: u64| #[trigger] nth(moves_of(b, c, one_bit(i)), d) <==> can_step(b, c, i, d),
{
    lemma_nth_ops();
    lemma_nth_shifts();
    lemma_word_facts();
}

/// Jumpers characterization: a square is in the jumpers word exactly
/// when a piece of side `c` stands there and some capture-landing square
/// exists.
#[verifier::rlimit(50)]
pub proof fn lemma_jumpers_char(b: BoardRep, c: Color)
    ensures
        forall|i: u64| #[trigger] nth(jumpers_of(b, c), i) <==> nth(side_pieces(b, c), i)
            && exists|d: u64| can_jump(b, c, i, d),
{
    lemma_nth_ops();
    lemma_nth_shifts();
    lemma_word_facts();
    let e = empty_of(b);
    match c {
        Color::Black => {
            assert forall|i: u64| #[trigger] nth(black_jumpers_of(b), i) implies nth(b.bp, i)
                && exists|d: u64| can_jump(b, Color::Black, i, d) by {
                if i >= 8 && nth(b.wp, (i - 4) as u64) && nth(e, (i - 8) as u64) {
                    assert(can_jump(b, Color::Black, i, (i - 8) as u64));
                }
                if i >= 10 && nth(b.wp, (i - 5) as u64) && nth(e, (i - 10) as u64) {
                    assert(can_jump(b, Color::Black, i, (i - 10) as u64));
                }
                if nth(b.kings, i) && i < 56 && nth(b.wp, (i + 4) as u64) && nth(
                    e,
                    (i + 8) as u64,
                ) {
                    assert(can_jump(b, Color::Black, i, (i + 8) as u64));
                }
                if nth(b.kings, i) && i < 54 && nth(b.wp, (i + 5) as u64) && nth(
                    e,
                    (i + 10) as u64,
                ) {
                    assert(can_jump(b, Color::Black, i, (i + 10) as u64));
                }
            }
            assert forall|i: u64|
                nth(b.bp, i) && (exists|d: u64|
                    can_jump(b, Color::Black, i, d)) implies #[trigger] nth(
                black_jumpers_of(b),
                i,
            ) by {
                let d = choose|d: u64| can_jump(b, Color::Black, i, d);
                let mid = ((i + d) / 2) as u64;
                if i == d + 8 {
                    assert(mid == (i - 4) as u64);
                    assert(nth((e << 4u64) & b.wp, (i - 4) as u64));
                    assert(nth(((e << 4u64) & b.wp) << 4u64, i));
                } else if i == d + 10 {
                    assert(mid == (i - 5) as u64);
                    assert(nth((e << 5u64) & b.wp, (i - 5) as u64));
                    assert(nth(((e << 5u64) & b.wp) << 5u64, i));
                } else if d == i + 8 {
                    assert(nth(b.kings, i) && mid == (i + 4) as u64);
                    assert(nth(b.bp & b.kings, i));
                    assert(nth((e >> 4u64) & b.wp, (i + 4) as u64));
                    assert(nth(((e >> 4u64) & b.wp) >> 4u64, i));
                } else {
                    assert(d == i + 10);
                    assert(nth(b.kings, i) && mid == (i + 5) as u64);
                    assert(nth(b.bp & b.kings, i));
                    assert(nth((e >> 5u64) & b.wp, (i + 5) as u64));
                    assert(nth(((e >> 5u64) & b.wp) >> 5u64, i));
                }
            }
        },
        Color::White => {
            assert forall|i: u64| #[trigger] nth(white_jumpers_of(b), i) implies nth(b.wp, i)
                && exists|d: u64| can_jump(b, Color::White, i, d) by {
                if i < 56 && nth(b.bp, (i + 4) as u64) && nth(e, (i + 8) as u64) {
                    assert(can_jump(b, Color::White, i, (i + 8) as u64));
                }
                if i < 54 && nth(b.bp, (i + 5) as u64) && nth(e, (i + 10) as u64) {
                    assert(can_jump(b, Color::White, i, (i + 10) as u64));
                }
                if nth(b.kings, i) && i >= 8 && nth(b.bp, (i - 4) as u64) && nth(
                    e,
                    (i - 8) as u64,
                ) {
                    assert(can_jump(b, Color::White, i, (i - 8) as u64));
                }
                if nth(b.kings, i) && i >= 10 && nth(b.bp, (i - 5) as u64) && nth(
                    e,
                    (i - 10) as u64,
                ) {
                    assert(can_jump(b, Color::White, i, (i - 10) as u64));
                }
            }
            assert forall|i: u64|
                nth(b.wp, i) && (exists|d: u64|
                    can_jump(b, Color::White, i, d)) implies #[trigger] nth(
                white_jumpers_of(b),
                i,
            ) by {
                let d = choose|d: u64| can_jump(b, Color::White, i, d);
                let mid = ((i + d) / 2) as u64;
                if d == i + 8 {
                    assert(mid == (i + 4) as u64);
                    assert(nth((e >> 4u64) & b.bp, (i + 4) as u64));
                    assert(nth(((e >> 4u64) & b.bp) >> 4u64, i));
                } else if d == i + 10 {
                    assert(mid == (i + 5) as u64);
                    assert(nth((e >> 5u64) & b.bp, (i + 5) as u64));
                    assert(nth(((e >> 5u64) & b.bp) >> 5u64, i));
                } else if i == d + 8 {
                    assert(nth(b.kings, i) && mid == (i - 4) as u64);
                    assert(nth(b.wp & b.kings, i));
                    assert(nth((e << 4u64) & b.bp, (i - 4) as u64));
                    assert(nth(((e << 4u64) & b.bp) << 4u64, i));
                } else {
                    assert(i == d + 10);
                    assert(nth(b.kings, i) && mid == (i - 5) as u64);
                    assert(nth(b.wp & b.kings, i));
                    assert(nth((e << 5u64) & b.bp, (i - 5) as u64));
                    assert(nth(((e << 5u64) & b.bp) << 5u64, i));
                }
            }
        },
    }
}

/// Capture-landing characterization for a single piece on square `i`.
pub proof fn lemma_jumps_char(b: BoardRep, c: Color, i: u64)
    requires
        i < 64,
    ensures
        forall|d: u64| #[trigger] nth(jumps_of(b, c, one_bit(i)), d) <==> can_jump(b, c, i, d),
{
    lemma_nth_ops();
    lemma_nth_shifts();
    lemma_word_facts();
}

/// Promotion preserves the structural invariant: it only flags squares
/// already holding a piece.
pub proof fn lemma_promote_wf(b: BoardRep)
    requires
        board_wf(b),
    ensures
        board_wf(promote_of(b)),
{
    lemma_nth_ops();
    lemma_word_facts();
    let b2 = promote_of(b);
    assert forall|j: u64| !#[trigger] nth(b2.kings & !(b2.bp | b2.wp), j) by {
        if nth(b2.kings, j) && !nth(b.kings, j) {
            assert(nth(promoted_of(b), j));
            assert(nth((b.bp & WHITE_KING_ROW) | (b.wp & BLACK_KING_ROW), j));
        }
        if nth(b.kings, j) {
            assert(!nth(b.kings & !(b.bp | b.wp), j));
        }
    }
    crate::bitboard::lemma_nth_ext_zero(b2.kings & !(b2.bp | b2.wp));
}

/// Applying the same move twice returns both piece sets to their prior
/// state: the symmetric-difference update is self-inverse. King flags
/// are excluded: a captured king's flag is cleared, not restored.
pub proof fn lemma_apply_move_involution(b: BoardRep, c: Color, m: MoveRep)
    ensures
        apply_of(apply_of(b, c, m), c, m).bp == b.bp,
        apply_of(apply_of(b, c, m), c, m).wp == b.wp,
{
    lemma_word_facts();
}

/// A draughts position: the first side's pieces, the second side's
/// pieces, and the king flags over both.
#[derive(Clone, Copy, PartialEq, Eq, Structural, Debug)]
pub struct Board {
    pub bp: Bitboard,
    pub wp: Bitboard,
    pub kings: Bitboard,
}

impl View for Board {
    type V = BoardRep;

    open spec fn view(&self) -> BoardRep {
        BoardRep { bp: self.bp@, wp: self.wp@, kings: self.kings@ }
    }
}

impl Board {
    /// The standard starting position.
    pub fn new() -> (r: Self)
        ensures
            r@.bp == BLACK_START,
            r@.wp == WHITE_START,
            r@.kings == 0u64,
            board_wf(r@),
    {
        proof {
            assert(BLACK_START & WHITE_START == 0 && (BLACK_START | WHITE_START) & !PLAYABLE == 0
                && 0u64 & !(BLACK_START | WHITE_START) == 0) by (bit_vector);
        }
        Board {
            bp: Bitboard { bits: BLACK_START },
            wp: Bitboard { bits: WHITE_START },
            kings: Bitboard { bits: 0 },
        }
    }

    /// An arbitrary position from explicit square sets.
    pub fn from_bitboards(bp: Bitboard, wp: Bitboard, kings: Bitboard) -> (r: Self)
        ensures
            r@.bp == bp@,
            r@.wp == wp@,
            r@.kings == kings@,
    {
        Board { bp, wp, kings }
    }

    /// The pieces of side `color` that have at least one simple-step
    /// destination (capture availability is computed separately and
    /// takes precedence at the generator level).
    pub fn movers(&self, color: Color) -> (r: Bitboard)
        ensures
            r@ == movers_of(self@, color),
            forall|i: u64| #[trigger] nth(r@, i) <==> nth(side_pieces(self@, color), i)
                && exists|d: u64| can_step(self@, color, i, d),
    {
        proof {
            lemma_movers_char(self@, color);
        }
        match color {
            Color::Black => self.black_movers(),
            Color::White => self.white_movers(),
        }
    }

    /// The legal simple-step destinations of the single piece `piece` of
    /// side `color`.
    pub fn moves(&self, color: Color, piece: Bitboard) -> (r: Bitboard)
        ensures
            r@ == moves_of(self@, color, piece@),
            forall|i: u64, d: u64|
                #![trigger nth(r@, d), one_bit(i)]
                i < 64 && piece@ == one_bit(i) ==> (nth(r@, d) <==> can_step(self@, color, i, d)),
    {
        proof {
            assert forall|i: u64, d: u64|
                #![trigger nth(moves_of(self@, color, piece@), d), one_bit(i)]
                i < 64 && piece@ == one_bit(i) implies (nth(moves_of(self@, color, piece@), d)
                <==> can_step(self@, color, i, d)) by {
                lemma_moves_char(self@, color, i);
            }
        }
        match color {
            Color::Black => self.black_moves(piece),
            Color::White => self.white_moves(piece),
        }
    }

    /// The pieces of side `color` that have at least one legal capture.
    pub fn jumpers(&self, color: Color) -> (r: Bitboard)
        ensures
            r@ == jumpers_of(self@, color),
            forall|i: u64| #[trigger] nth(r@, i) <==> nth(side_pieces(self@, color), i)
                && exists|d: u64| can_jump(self@, color, i, d),
    {
        proof {
            lemma_jumpers_char(self@, color);
        }
        match color {
            Color::Black => self.black_jumpers(),
            Color::White => self.white_jumpers(),
        }
    }

    /// The legal capture-landing squares of the single piece `piece` of
    /// side `color`.
    pub fn jumps(&self, color: Color, piece: Bitboard) -> (r: Bitboard)
        ensures
            r@ == jumps_of(self@, color, piece@),
            forall|i: u64, d: u64|
                #![trigger nth(r@, d), one_bit(i)]
                i < 64 && piece@ == one_bit(i) ==> (nth(r@, d) <==> can_jump(self@, color, i, d)),
    {
        proof {
            assert forall|i: u64, d: u64|
                #![trigger nth(jumps_of(self@, color, piece@), d), one_bit(i)]
                i < 64 && piece@ == one_bit(i) implies (nth(jumps_of(self@, color, piece@), d)
                <==> can_jump(self@, color, i, d)) by {
                lemma_jumps_char(self@, color, i);
            }
        }
        match color {
            Color::Black => self.black_jumps(piece),
            Color::White => self.white_jumps(piece),
        }
    }

    /// Play move `m` for side `color`: toggle the mover's pieces by
    /// `m.movers`, remove the enemy's captured pieces, move the king
    /// flag with a moving king, and clear flags of captured squares.
    pub fn apply_move(&mut self, color: Color, m: &Move)
        ensures
            final(self)@ == apply_of(old(self)@, color, (*m)@),
    {
        match color {
            Color::Black => {
                self.bp = self.bp.xor(m.movers);
                self.wp = self.wp.xor(m.jumped);
            },
            Color::White => {
                self.wp = self.wp.xor(m.movers);
                self.bp = self.bp.xor(m.jumped);
            },
        }
        if !m.movers.and(self.kings).is_empty() {
            self.kings = self.kings.xor(m.movers);
        }
        if !m.jumped.and(self.kings).is_empty() {
            self.kings = self.kings.xor(m.jumped.and(self.kings));
        }
    }

    /// Flag every piece newly arrived on the far row as a king and
    /// return the set of squares promoted by this call.
    pub fn promote_kings(&mut self) -> (r: Bitboard)
        ensures
            r@ == promoted_of(old(self)@),
            final(self)@ == promote_of(old(self)@),
    {
        let black_kings = self.bp.bits & WHITE_KING_ROW;
        let white_kings = self.wp.bits & BLACK_KING_ROW;
        let new_kings = (black_kings | white_kings) & !self.kings.bits;
        if new_kings != 0 {
            self.kings = Bitboard { bits: self.kings.bits | new_kings };
        }
        Bitboard { bits: new_kings }
    }

    fn black_movers(&self) -> (r: Bitboard)
        ensures
            r@ == black_movers_of(self@),
    {
        let e = !(self.bp.bits | self.wp.bits) & PLAYABLE;
        let mut movers = (e << 4u64) & self.bp.bits;
        movers = movers | ((e << 5u64) & self.bp.bits);
        let kings = self.bp.bits & self.kings.bits;
        if kings != 0 {
            movers = movers | ((e >> 4u64) & kings);
            movers = movers | ((e >> 5u64) & kings);
        }
        Bitboard { bits: movers }
    }

    fn white_movers(&self) -> (r: Bitboard)
        ensures
            r@ == white_movers_of(self@),
    {
        let e = !(self.bp.bits | self.wp.bits) & PLAYABLE;
        let mut movers = (e >> 4u64) & self.wp.bits;
        movers = movers | ((e >> 5u64) & self.wp.bits);
        let kings = self.wp.bits & self.kings.bits;
        if kings != 0 {
            movers = movers | ((e << 4u64) & kings);
            movers = movers | ((e << 5u64) & kings);
        }
        Bitboard { bits: movers }
    }

    fn black_moves(&self, piece: Bitboard) -> (r: Bitboard)
        ensures
            r@ == black_moves_of(self@, piece@),
    {
        let e = !(self.bp.bits | self.wp.bits) & PLAYABLE;
        let p = piece.bits;
        let mut moves = ((p >> 4u64) | (p >> 5u64)) & e;
        let king = self.kings.bits & p;
        if king != 0 {
            moves = moves | (((p << 4u64) | (p << 5u64)) & e);
        }
        Bitboard { bits: moves }
    }

    fn white_moves(&self, piece: Bitboard) -> (r: Bitboard)
        ensures
            r@ == white_moves_of(self@, piece@),
    {
        let e = !(self.bp.bits | self.wp.bits) & PLAYABLE;
        let p = piece.bits;
        let mut moves = ((p << 4u64) | (p << 5u64)) & e;
        let king = self.kings.bits & p;
        if king != 0 {
            moves = moves | (((p >> 4u64) | (p >> 5u64)) & e);
        }
        Bitboard { bits: moves }
    }

    fn black_jumpers(&self) -> (r: Bitboard)
        ensures
            r@ == black_jumpers_of(self@),
    {
        let e = !(self.bp.bits | self.wp.bits) & PLAYABLE;
        let mut jumped = (e << 4u64) & self.wp.bits;
        let mut jumpers = (jumped << 4u64) & self.bp.bits;
        jumped = (e << 5u64) & self.wp.bits;
        jumpers = jumpers | ((jumped << 5u64) & self.bp.bits);
        let kings = self.bp.bits & self.kings.bits;
        if kings != 0 {
            jumped = (e >> 4u64) & self.wp.bits;
            jumpers = jumpers | ((jumped >> 4u64) & kings);
            jumped = (e >> 5u64) & self.wp.bits;
            jumpers = jumpers | ((jumped >> 5u64) & kings);
        }
        Bitboard { bits: jumpers }
    }

    fn white_jumpers(&self) -> (r: Bitboard)
        ensures
            r@ == white_jumpers_of(self@),
    {
        let e = !(self.bp.bits | self.wp.bits) & PLAYABLE;
        let mut jumped = (e >> 4u64) & self.bp.bits;
        let mut jumpers = (jumped >> 4u64) & self.wp.bits;
        jumped = (e >> 5u64) & self.bp.bits;
        jumpers = jumpers | ((jumped >> 5u64) & self.wp.bits);
        let kings = self.wp.bits & self.kings.bits;
        if kings != 0 {
            jumped = (e << 4u64) & self.bp.bits;
            jumpers = jumpers | ((jumped << 4u64) & kings);
            jumped = (e << 5u64) & self.bp.bits;
            jumpers = jumpers | ((jumped << 5u64) & kings);
        }
        Bitboard { bits: jumpers }
    }

    fn black_jumps(&self, piece: Bitboard) -> (r: Bitboard)
        ensures
            r@ == black_jumps_of(self@, piece@),
    {
        let e = !(self.bp.bits | self.wp.bits) & PLAYABLE;
        let p = piece.bits;
        let mut jumps = (((p >> 4u64) & self.wp.bits) >> 4u64) & e;
        jumps = jumps | ((((p >> 5u64) & self.wp.bits) >> 5u64) & e);
        let king = self.kings.bits & p;
        if king != 0 {
            jumps = jumps | ((((p << 4u64) & self.wp.bits) << 4u64) & e);
            jumps = jumps | ((((p << 5u64) & self.wp.bits) << 5u64) & e);
        }
        Bitboard { bits: jumps }
    }

    fn white_jumps(&self, piece: Bitboard) -> (r: Bitboard)
        ensures
            r@ == white_jumps_of(self@, piece@),
    {
        let e = !(self.bp.bits | self.wp.bits) & PLAYABLE;
        let p = piece.bits;
        let mut jumps = (((p << 4u64) & self.bp.bits) << 4u64) & e;
        jumps = jumps | ((((p << 5u64) & self.bp.bits) << 5u64) & e);
        let king = self.kings.bits & p;
        if king != 0 {
            jumps = jumps | ((((p >> 4u64) & self.bp.bits) >> 4u64) & e);
            jumps = jumps | ((((p >> 5u64) & self.bp.bits) >> 5u64) & e);
        }
        Bitboard { bits: jumps }
    }
}

} // verus!
