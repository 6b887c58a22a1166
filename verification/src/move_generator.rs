use vstd::prelude::*;

verus! {

use crate::bitboard::{Bitboard, nth, one_bit, lemma_nth_ops, lemma_word_facts, lemma_tz_one_bit};
use crate::board::{
    Board, BoardRep, Color, foe_pieces, jumpers_of, jumps_of, movers_of, moves_of, apply_of,
    can_jump, lemma_jumps_char,
};
use crate::moves::{Move, MoveRep, move_views, lemma_move_views_push};

/// The simple move of a piece from square `i` to square `d`.
pub open spec fn simple_move_at(i: u64, d: u64) -> MoveRep {
    MoveRep { movers: one_bit(i) | one_bit(d), jumped: 0u64 }
}

/// The single capture-jump of a piece from square `i` to square `d`,
/// capturing the square between them.
pub open spec fn single_jump_at(i: u64, d: u64) -> MoveRep {
    MoveRep { movers: one_bit(i) | one_bit(d), jumped: one_bit(((i + d) / 2) as u64) }
}

/// Each continuation in `s` prefixed with the single jump `m`: the
/// symmetric difference of the `movers` words cancels the shared
/// intermediate square, and the captures accumulate by union.
pub open spec fn combined(m: MoveRep, s: Seq<MoveRep>) -> Seq<MoveRep> {
    s.map_values(
        |f: MoveRep| MoveRep { movers: m.movers ^ f.movers, jumped: m.jumped | f.jumped },
    )
}

/// The simple moves of the piece on square `i` whose destination square
/// is below `d`, ascending by destination.
pub open spec fn simple_dests_below(b: BoardRep, c: Color, i: u64, d: int) -> Seq<MoveRep>
    decreases d,
{
    if d <= 0 {
        Seq::<MoveRep>::empty()
    } else {
        let rest = simple_dests_below(b, c, i, d - 1);
        if nth(moves_of(b, c, one_bit(i)), (d - 1) as u64) {
            rest + seq![simple_move_at(i, (d - 1) as u64)]
        } else {
            rest
        }
    }
}

/// The simple moves of all mover pieces on squares below `i`, ascending
/// by mover square then by destination.
pub open spec fn simple_moves_below(b: BoardRep, c: Color, i: int) -> Seq<MoveRep>
    decreases i,
{
    if i <= 0 {
        Seq::<MoveRep>::empty()
    } else {
        simple_moves_below(b, c, i - 1) + (if nth(movers_of(b, c), (i - 1) as u64) {
            simple_dests_below(b, c, (i - 1) as u64, 64)
        } else {
            Seq::<MoveRep>::empty()
        })
    }
}

/// All simple moves of side `c`.
pub open spec fn simple_moves_of(b: BoardRep, c: Color) -> Seq<MoveRep> {
    simple_moves_below(b, c, 64)
}

/// All maximal capture chains of the piece of side `c` standing on
/// square `i`, ascending by first landing square.
pub open spec fn chain_moves_from(b: BoardRep, c: Color, i: u64) -> Seq<MoveRep>
    decreases foe_pieces(b, c), 1int, 64int,
{
    chain_dests_below(b, c, i, 64)
}

/// The maximal capture chains of the piece on square `i` whose first
/// landing square is below `d`. A chain that can be extended is never
/// emitted by itself: each emitted move carries the chain to a square
/// from which no further capture exists.
pub open spec fn chain_dests_below(b: BoardRep, c: Color, i: u64, d: int) -> Seq<MoveRep>
    decreases foe_pieces(b, c), 0int, d,
    via chain_dests_below_decreases
{
    if d <= 0 {
        Seq::<MoveRep>::empty()
    } else {
        let rest = chain_dests_below(b, c, i, d - 1);
        let dd = (d - 1) as u64;
        if i < 64 && nth(jumps_of(b, c, one_bit(i)), dd) {
            let m = single_jump_at(i, dd);
            let b2 = apply_of(b, c, m);
            if jumps_of(b2, c, one_bit(dd)) == 0 {
                rest + seq![m]
            } else {
                rest + combined(m, chain_moves_from(b2, c, dd))
            }
        } else {
            rest
        }
    }
}

#[via_fn]
proof fn chain_dests_below_decreases(b: BoardRep, c: Color, i: u64, d: int) {
    lemma_nth_ops();
    lemma_word_facts();
    if d > 0 && i < 64 {
        let dd = (d - 1) as u64;
        if nth(jumps_of(b, c, one_bit(i)), dd) {
            lemma_jumps_char(b, c, i);
            assert(can_jump(b, c, i, dd));
            let m = single_jump_at(i, dd);
            let mid = ((i + dd) / 2) as u64;
            assert(nth(foe_pieces(b, c), mid));
            let b2 = apply_of(b, c, m);
            assert(foe_pieces(b2, c) == foe_pieces(b, c) ^ one_bit(mid));
            assert(foe_pieces(b2, c) < foe_pieces(b, c));
        }
    }
}

/// The maximal capture chains of every jumper piece on squares below
/// `i`, ascending by jumper square.
pub open spec fn jump_moves_below(b: BoardRep, c: Color, jumpers: u64, i: int) -> Seq<MoveRep>
    decreases i,
{
    if i <= 0 {
        Seq::<MoveRep>::empty()
    } else {
        jump_moves_below(b, c, jumpers, i - 1) + (if nth(jumpers, (i - 1) as u64) {
            chain_moves_from(b, c, (i - 1) as u64)
        } else {
            Seq::<MoveRep>::empty()
        })
    }
}

/// All capture moves of side `c`: every maximal capture chain of every
/// jumper piece.
pub open spec fn jump_moves_of(b: BoardRep, c: Color) -> Seq<MoveRep> {
    jump_moves_below(b, c, jumpers_of(b, c), 64)
}

/// The full legal move list of side `c`: when any capture is available,
/// exactly the maximal capture chains; otherwise exactly the simple
/// moves.
pub open spec fn gen_moves_of(b: BoardRep, c: Color) -> Seq<MoveRep> {
    if jumpers_of(b, c) == 0 {
        simple_moves_of(b, c)
    } else {
        jump_moves_of(b, c)
    }
}

/// Scanning a one-square jumper word visits exactly that square's
/// chains.
proof fn lemma_jump_moves_single(b: BoardRep, c: Color, dbit: u64, i: int)
    requires
        dbit < 64,
        i <= 64,
    ensures
        jump_moves_below(b, c, one_bit(dbit), i) == if dbit < i {
            chain_moves_from(b, c, dbit)
        } else {
            Seq::<MoveRep>::empty()
        },
    decreases i,
{
    lemma_nth_ops();
    if i > 0 {
        lemma_jump_moves_single(b, c, dbit, i - 1);
        if dbit == i - 1 {
            assert(nth(one_bit(dbit), (i - 1) as u64));
            assert(jump_moves_below(b, c, one_bit(dbit), i - 1) == Seq::<MoveRep>::empty());
            assert(jump_moves_below(b, c, one_bit(dbit), i) =~= chain_moves_from(b, c, dbit));
        } else {
            assert(!nth(one_bit(dbit), (i - 1) as u64));
            assert(jump_moves_below(b, c, one_bit(dbit), i) =~= jump_moves_below(
                b,
                c,
                one_bit(dbit),
                i - 1,
            ));
        }
    }
}

/// Every emitted capture chain captures at least one piece.
proof fn lemma_chain_dests_capture(b: BoardRep, c: Color, i: u64, d: int)
    requires
        d <= 64,
    ensures
        forall|k: int| 0 <= k < chain_dests_below(b, c, i, d).len() ==> (#[trigger] chain_dests_below(
            b,
            c,
            i,
            d,
        )[k]).jumped != 0,
    decreases d,
{
    lemma_word_facts();
    if d > 0 {
        lemma_chain_dests_capture(b, c, i, d - 1);
        let rest = chain_dests_below(b, c, i, d - 1);
        let dd = (d - 1) as u64;
        if i < 64 && nth(jumps_of(b, c, one_bit(i)), dd) {
            let m = single_jump_at(i, dd);
            assert(m.jumped == one_bit(((i + dd) / 2) as u64));
            assert((((i + dd) / 2) as u64) < 64);
            assert(m.jumped != 0);
            let b2 = apply_of(b, c, m);
            if jumps_of(b2, c, one_bit(dd)) == 0 {
                assert forall|k: int|
                    0 <= k < chain_dests_below(b, c, i, d).len() implies (
                #[trigger] chain_dests_below(b, c, i, d)[k]).jumped != 0 by {
                    if k < rest.len() {
                        assert(chain_dests_below(b, c, i, d)[k] == rest[k]);
                    } else {
                        assert(chain_dests_below(b, c, i, d)[k] == m);
                    }
                }
            } else {
                let tail = combined(m, chain_moves_from(b2, c, dd));
                assert forall|k: int|
                    0 <= k < chain_dests_below(b, c, i, d).len() implies (
                #[trigger] chain_dests_below(b, c, i, d)[k]).jumped != 0 by {
                    if k < rest.len() {
                        assert(chain_dests_below(b, c, i, d)[k] == rest[k]);
                    } else {
                        assert(chain_dests_below(b, c, i, d)[k] == tail[k - rest.len()]);
                        assert(tail[k - rest.len()].jumped == (m.jumped | chain_moves_from(
                            b2,
                            c,
                            dd,
                        )[k - rest.len()].jumped));
                    }
                }
            }
        } else {
            assert(chain_dests_below(b, c, i, d) == rest);
        }
    }
}

/// Every capture move of side `c` captures at least one piece.
proof fn lemma_jump_moves_capture(b: BoardRep, c: Color, jumpers: u64, i: int)
    requires
        i <= 64,
    ensures
        forall|k: int| 0 <= k < jump_moves_below(b, c, jumpers, i).len() ==> (
        #[trigger] jump_moves_below(b, c, jumpers, i)[k]).jumped != 0,
    decreases i,
{
    if i > 0 {
        lemma_jump_moves_capture(b, c, jumpers, i - 1);
        lemma_chain_dests_capture(b, c, (i - 1) as u64, 64);
        let prefix = jump_moves_below(b, c, jumpers, i - 1);
        assert forall|k: int|
            0 <= k < jump_moves_below(b, c, jumpers, i).len() implies (#[trigger] jump_moves_below(
            b,
            c,
            jumpers,
            i,
        )[k]).jumped != 0 by {
            if k < prefix.len() {
                assert(jump_moves_below(b, c, jumpers, i)[k] == prefix[k]);
            } else {
                assert(nth(jumpers, (i - 1) as u64));
                assert(jump_moves_below(b, c, jumpers, i)[k] == chain_moves_from(
                    b,
                    c,
                    (i - 1) as u64,
                )[k - prefix.len()]);
                assert(chain_moves_from(b, c, (i - 1) as u64)[k - prefix.len()]
                    == chain_dests_below(b, c, (i - 1) as u64, 64)[k - prefix.len()]);
            }
        }
    }
}

/// Mandatory capture at the generator level: whenever any capture is
/// available to side `c`, every move in the generated list is a capture
/// (no simple move is ever offered beside a jump).
pub proof fn lemma_mandatory_capture(b: BoardRep, c: Color)
    ensures
        jumpers_of(b, c) != 0 ==> forall|k: int|
            0 <= k < gen_moves_of(b, c).len() ==> (#[trigger] gen_moves_of(b, c)[k]).jumped != 0,
{
    if jumpers_of(b, c) != 0 {
        lemma_jump_moves_capture(b, c, jumpers_of(b, c), 64);
    }
}

/// Generates the full legal move list for a fixed board and side to
/// move.
pub struct MoveGenerator {
    pub board: Board,
    pub color: Color,
}

impl MoveGenerator {
    /// A generator over the given position for the given side.
    pub fn new(board: Board, color: Color) -> (r: Self)
        ensures
            r.board == board,
            r.color == color,
    {
        MoveGenerator { board, color }
    }

    /// The full legal move list: every maximal capture chain when a
    /// capture is available anywhere (captures are compulsory), and
    /// every simple move otherwise. An empty result means the side to
    /// move has no legal move.
    pub fn generate_moves(&self) -> (r: Vec<Move>)
        ensures
            move_views(r@) == gen_moves_of(self.board@, self.color),
            jumpers_of(self.board@, self.color) != 0 ==> forall|k: int|
                0 <= k < r@.len() ==> (#[trigger] r@[k])@.jumped != 0,
    {
        proof {
            lemma_mandatory_capture(self.board@, self.color);
        }
        let jumpers = self.board.jumpers(self.color);
        if jumpers.is_empty() {
            self.generate_simple_moves()
        } else {
            let r = self.generate_jump_moves(jumpers);
            proof {
                assert(forall|k: int| 0 <= k < r@.len() ==> (#[trigger] r@[k])@ == move_views(
                    r@,
                )[k]);
            }
            r
        }
    }

    /// One non-capturing move per (mover, destination) pair.
    fn generate_simple_moves(&self) -> (r: Vec<Move>)
        ensures
            move_views(r@) == simple_moves_of(self.board@, self.color),
    {
        let ghost b = self.board@;
        let ghost c = self.color;
        let mut moves: Vec<Move> = Vec::new();
        let movers = self.board.movers(self.color);
        for i in 0..64u64
            invariant
                b == self.board@,
                c == self.color,
                movers@ == movers_of(b, c),
                move_views(moves@) == simple_moves_below(b, c, i as int),
        {
            if (movers.bits >> i) & 1 == 1 {
                let mover_bb = Bitboard { bits: 1u64 << i };
                let possible_moves = self.board.moves(self.color, mover_bb);
                for d in 0..64u64
                    invariant
                        b == self.board@,
                        c == self.color,
                        i < 64,
                        nth(movers_of(b, c), i),
                        mover_bb@ == one_bit(i),
                        possible_moves@ == moves_of(b, c, one_bit(i)),
                        move_views(moves@) == simple_moves_below(b, c, i as int)
                            + simple_dests_below(b, c, i, d as int),
                {
                    if (possible_moves.bits >> d) & 1 == 1 {
                        let dest_bb = Bitboard { bits: 1u64 << d };
                        let m = Move::new(mover_bb.or(dest_bb), Bitboard::new());
                        let ghost before = moves@;
                        moves.push(m);
                        proof {
                            lemma_move_views_push(before, m);
                            assert(m@ == simple_move_at(i, d));
                            assert(nth(moves_of(b, c, one_bit(i)), d));
                            assert(simple_dests_below(b, c, i, d as int + 1) == simple_dests_below(
                                b,
                                c,
                                i,
                                d as int,
                            ) + seq![simple_move_at(i, d)]);
                            assert(move_views(moves@) =~= simple_moves_below(b, c, i as int)
                                + simple_dests_below(b, c, i, d as int + 1));
                        }
                    }
                }
                proof {
                    assert(move_views(moves@) =~= simple_moves_below(b, c, i as int + 1));
                }
            } else {
                proof {
                    assert(!nth(movers_of(b, c), i));
                    assert(move_views(moves@) =~= simple_moves_below(b, c, i as int + 1));
                }
            }
        }
        moves
    }

    /// For each jumper and each landing square, the single jump if no
    /// further capture follows, else every maximal continuation chained
    /// onto it (recursing over the post-capture board).
    fn generate_jump_moves(&self, jumpers: Bitboard) -> (r: Vec<Move>)
        ensures
            move_views(r@) == jump_moves_below(self.board@, self.color, jumpers@, 64),
        decreases foe_pieces(self.board@, self.color),
    {
        let ghost b = self.board@;
        let ghost c = self.color;
        let mut jumps: Vec<Move> = Vec::new();
        for i in 0..64u64
            invariant
                b == self.board@,
                c == self.color,
                move_views(jumps@) == jump_moves_below(b, c, jumpers@, i as int),
        {
            if (jumpers.bits >> i) & 1 == 1 {
                let jumper_bb = Bitboard { bits: 1u64 << i };
                let possible_jumps = self.board.jumps(self.color, jumper_bb);
                for d in 0..64u64
                    invariant
                        b == self.board@,
                        c == self.color,
                        i < 64,
                        jumper_bb@ == one_bit(i),
                        possible_jumps@ == jumps_of(b, c, one_bit(i)),
                        move_views(jumps@) == jump_moves_below(b, c, jumpers@, i as int)
                            + chain_dests_below(b, c, i, d as int),
                {
                    if (possible_jumps.bits >> d) & 1 == 1 {
                        let dest_bb = Bitboard { bits: 1u64 << d };
                        proof {
                            lemma_word_facts();
                            lemma_tz_one_bit(i);
                            lemma_tz_one_bit(d);
                        }
                        let jumped_bb = jumper_bb.jumped(dest_bb);
                        let current_move = Move::new(jumper_bb.or(dest_bb), jumped_bb);
                        proof {
                            assert(current_move@ == single_jump_at(i, d));
                        }
                        let mut new_board = self.board.clone();
                        new_board.apply_move(self.color, &current_move);
                        let ghost b2 = apply_of(b, c, single_jump_at(i, d));
                        proof {
                            assert(new_board@ == b2);
                        }
                        let multiple_jumps = new_board.jumps(self.color, dest_bb);
                        if multiple_jumps.is_empty() {
                            let ghost before = jumps@;
                            jumps.push(current_move);
                            proof {
                                lemma_move_views_push(before, current_move);
                                assert(nth(jumps_of(b, c, one_bit(i)), d));
                                assert(chain_dests_below(b, c, i, d as int + 1)
                                    == chain_dests_below(b, c, i, d as int) + seq![
                                    single_jump_at(i, d),
                                ]);
                                assert(move_views(jumps@) =~= jump_moves_below(b, c, jumpers@, i as int)
                                    + chain_dests_below(b, c, i, d as int + 1));
                            }
                        } else {
                            proof {
                                lemma_nth_ops();
                                lemma_jumps_char(b, c, i);
                                assert(nth(jumps_of(b, c, one_bit(i)), d));
                                assert(can_jump(b, c, i, d));
                                assert(nth(foe_pieces(b, c), ((i + d) / 2) as u64));
                                assert(foe_pieces(b2, c) == foe_pieces(b, c) ^ one_bit(
                                    ((i + d) / 2) as u64,
                                ));
                                assert(foe_pieces(b2, c) < foe_pieces(b, c));
                            }
                            let move_generator = MoveGenerator::new(new_board, self.color);
                            let further_jumps = move_generator.generate_jump_moves(dest_bb);
                            proof {
                                lemma_jump_moves_single(b2, c, d, 64);
                                assert(move_views(further_jumps@) == chain_moves_from(b2, c, d));
                            }
                            let ghost chain = combined(single_jump_at(i, d), chain_moves_from(b2, c, d));
                            let n_further = further_jumps.len();
                            for k in 0..n_further
                                invariant
                                    n_further == further_jumps@.len(),
                                    move_views(further_jumps@) == chain_moves_from(b2, c, d),
                                    chain == combined(
                                        single_jump_at(i, d),
                                        chain_moves_from(b2, c, d),
                                    ),
                                    current_move@ == single_jump_at(i, d),
                                    move_views(jumps@) == jump_moves_below(b, c, jumpers@, i as int)
                                        + chain_dests_below(b, c, i, d as int) + chain.take(
                                        k as int,
                                    ),
                            {
                                let further_jump = further_jumps[k];
                                let combined_move = Move::new(
                                    current_move.movers.xor(further_jump.movers),
                                    current_move.jumped.or(further_jump.jumped),
                                );
                                let ghost before = jumps@;
                                jumps.push(combined_move);
                                proof {
                                    lemma_move_views_push(before, combined_move);
                                    assert(further_jump@ == chain_moves_from(b2, c, d)[k as int]);
                                    assert(combined_move@ == chain[k as int]);
                                    assert(chain.take(k as int + 1) =~= chain.take(k as int).push(
                                        chain[k as int],
                                    ));
                                    assert(move_views(jumps@) =~= jump_moves_below(
                                        b,
                                        c,
                                        jumpers@,
                                        i as int,
                                    ) + chain_dests_below(b, c, i, d as int) + chain.take(
                                        k as int + 1,
                                    ));
                                }
                            }
                            proof {
                                assert(chain.take(chain.len() as int) =~= chain);
                                assert(move_views(jumps@) =~= jump_moves_below(b, c, jumpers@, i as int)
                                    + chain_dests_below(b, c, i, d as int + 1));
                            }
                        }
                    }
                }
                proof {
                    assert(move_views(jumps@) =~= jump_moves_below(b, c, jumpers@, i as int + 1));
                }
            } else {
                proof {
                    assert(move_views(jumps@) =~= jump_moves_below(b, c, jumpers@, i as int + 1));
                }
            }
        }
        jumps
    }
}

} // verus!
