use vstd::prelude::*;

verus! {

use crate::bitboard::{
    Bitboard, bits_of_notation, lemma_tz_one_bit, notation_bit, notation_bit_index, one_bit,
};
use crate::moves::Move;

/// One free-form name/value pair from a game record's header list.
#[derive(Debug, Clone)]
pub struct Header {
    pub name: String,
    pub value: String,
}

/// Whether a recorded move is a simple step or a capture-jump sequence.
#[derive(Debug, Clone, Copy, PartialEq, Eq, Structural)]
pub enum MoveKind {
    Simple,
    Jump,
}

/// One recorded move: a simple move lists its start and end square, a
/// jump lists its start square, each intermediate landing square, and
/// the final landing square, all in checkers notation.
#[derive(Debug, Clone)]
pub struct MoveDetail {
    pub kind: MoveKind,
    pub moves: Vec<u8>,
}

/// The union of the squares jumped over between consecutive squares of
/// the recorded sequence `s`.
pub open spec fn jump_mids(s: Seq<u8>) -> u64
    decreases s.len(),
{
    if s.len() < 2 {
        0u64
    } else {
        jump_mids(s.drop_last()) | one_bit(
            ((notation_bit(s[s.len() - 2]) + notation_bit(s.last())) / 2) as u64,
        )
    }
}

impl MoveDetail {
    /// The move value this record denotes: a simple record's two squares
    /// become the `movers` word; a jump record's `movers` holds its
    /// first and last square and its `jumped` holds the square between
    /// each consecutive pair.
    pub fn into_move(self) -> (r: Move)
        requires
            forall|k: int| 0 <= k < self.moves@.len() ==> 1 <= #[trigger] self.moves@[k] <= 32,
            self.kind == MoveKind::Jump ==> self.moves@.len() >= 1,
        ensures
            self.kind == MoveKind::Simple ==> (r@.movers == bits_of_notation(self.moves@)
                && r@.jumped == 0),
            self.kind == MoveKind::Jump ==> (r@.movers == (one_bit(notation_bit(self.moves@[0]))
                | one_bit(notation_bit(self.moves@[self.moves@.len() - 1]))) && r@.jumped
                == jump_mids(self.moves@)),
    {
        match self.kind {
            MoveKind::Simple => self.from_simple(),
            MoveKind::Jump => self.from_jumps(),
        }
    }

    fn from_simple(self) -> (r: Move)
        requires
            forall|k: int| 0 <= k < self.moves@.len() ==> 1 <= #[trigger] self.moves@[k] <= 32,
        ensures
            r@.movers == bits_of_notation(self.moves@),
            r@.jumped == 0,
    {
        Move::new(Bitboard::from_notation_vector(self.moves.as_slice()), Bitboard::new())
    }

    fn from_jumps(self) -> (r: Move)
        requires
            forall|k: int| 0 <= k < self.moves@.len() ==> 1 <= #[trigger] self.moves@[k] <= 32,
            self.moves@.len() >= 1,
        ensures
            r@.movers == (one_bit(notation_bit(self.moves@[0])) | one_bit(
                notation_bit(self.moves@[self.moves@.len() - 1]),
            )),
            r@.jumped == jump_mids(self.moves@),
    {
        let len = self.moves.len();
        let dest = self.moves[len - 1];
        let start = self.moves[0];
        let start_bit = notation_bit_index(start);
        let dest_bit = notation_bit_index(dest);
        let movers = Bitboard {
            bits: (1u64 << (start_bit as u64)) | (1u64 << (dest_bit as u64)),
        };
        let mut jumpers = Bitboard::new();
        let mut last_bb = Bitboard { bits: 1u64 << (start_bit as u64) };
        for k in 1..len
            invariant
                len == self.moves@.len(),
                1 <= len,
                forall|j: int| 0 <= j < self.moves@.len() ==> 1 <= #[trigger] self.moves@[j] <= 32,
                last_bb@ == one_bit(notation_bit(self.moves@[k - 1])),
                jumpers@ == jump_mids(self.moves@.take(k as int)),
        {
            let n_bit = notation_bit_index(self.moves[k]);
            let n_bb = Bitboard { bits: 1u64 << (n_bit as u64) };
            proof {
                lemma_tz_one_bit(notation_bit(self.moves@[k - 1]));
                lemma_tz_one_bit(notation_bit(self.moves@[k as int]));
                assert(last_bb@ != 0 && n_bb@ != 0) by {
                    crate::bitboard::lemma_word_facts();
                }
            }
            jumpers = jumpers.or(last_bb.jumped(n_bb));
            last_bb = n_bb;
            proof {
                assert(self.moves@.take(k + 1).drop_last() =~= self.moves@.take(k as int));
                assert(self.moves@.take(k + 1).last() == self.moves@[k as int]);
                assert(self.moves@.take(k + 1)[k - 1] == self.moves@[k - 1]);
            }
        }
        proof {
            assert(self.moves@.take(len as int) =~= self.moves@);
        }
        Move::new(movers, jumpers)
    }
}

/// One numbered pair of recorded moves; the second side's move is
/// absent when the game ends mid-pair.
#[derive(Debug, Clone)]
pub struct MovePair {
    pub number: u32,
    pub black: MoveDetail,
    pub white: Option<MoveDetail>,
}

/// A full game record: a header list and the ordered move pairs.
#[derive(Debug, Clone)]
pub struct Game {
    pub headers: Vec<Header>,
    pub moves: Vec<MovePair>,
}

} // verus!
