use vstd::prelude::*;

verus! {

use crate::bitboard::Bitboard;

/// The mathematical value of a [`Move`]: two square-set words.
pub ghost struct MoveRep {
    pub movers: u64,
    pub jumped: u64,
}

/// An immutable move description: `movers` holds exactly the start and
/// final landing square of the moving piece (the intermediate squares of
/// a multi-jump cancel out under symmetric difference), and `jumped`
/// holds every square whose occupant is captured by the move (empty for
/// a simple move).
#[derive(Clone, Copy, PartialEq, Eq, Structural, Debug)]
pub struct Move {
    pub movers: Bitboard,
    pub jumped: Bitboard,
}

impl View for Move {
    type V = MoveRep;

    open spec fn view(&self) -> MoveRep {
        MoveRep { movers: self.movers@, jumped: self.jumped@ }
    }
}

impl Move {
    /// A move from its two square sets.
    pub fn new(movers: Bitboard, jumped: Bitboard) -> (r: Self)
        ensures
            r.movers == movers,
            r.jumped == jumped,
    {
        Move { movers, jumped }
    }
}

/// The mathematical values of a sequence of moves.
pub open spec fn move_views(s: Seq<Move>) -> Seq<MoveRep> {
    s.map_values(|m: Move| m@)
}

/// Appending one move appends its value.
pub proof fn lemma_move_views_push(s: Seq<Move>, m: Move)
    ensures
        move_views(s.push(m)) == move_views(s).push(m@),
{
    assert(move_views(s.push(m)) =~= move_views(s).push(m@));
}

} // verus!
