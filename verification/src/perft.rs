use vstd::prelude::*;

use rayon::iter::{IntoParallelRefIterator, ParallelIterator};

verus! {

use crate::board::{Board, BoardRep, Color, apply_of, opposite_of, promote_of};
use crate::move_generator::{MoveGenerator, gen_moves_of};
use crate::moves::{Move, MoveRep, move_views};

/// Addition of two subtree counts, saturating at the machine word.
pub open spec fn sat_add64(a: nat, b: nat) -> nat {
    if a + b > u64::MAX {
        u64::MAX as nat
    } else {
        a + b
    }
}

/// The number of leaf positions exactly `depth` plies below the
/// position, with side `c` to move: 1 at depth zero, else the sum over
/// every legal move of the count below the resulting promoted board,
/// saturating at the machine word.
pub open spec fn perft_count(c: Color, b: BoardRep, depth: nat) -> nat
    decreases depth, 1int, 0int,
{
    if depth == 0 {
        1
    } else {
        perft_sum_below(c, b, gen_moves_of(b, c), gen_moves_of(b, c).len() as int, depth)
    }
}

/// The saturating sum of the subtree counts of the first `k` moves of
/// `moves`, played by side `c` on board `b` at the given depth.
pub open spec fn perft_sum_below(
    c: Color,
    b: BoardRep,
    moves: Seq<MoveRep>,
    k: int,
    depth: nat,
) -> nat
    decreases depth, 0int, k,
{
    if depth == 0 || k <= 0 {
        0
    } else {
        sat_add64(
            perft_sum_below(c, b, moves, k - 1, depth),
            perft_count(opposite_of(c), promote_of(apply_of(b, c, moves[k - 1])), (depth - 1) as nat),
        )
    }
}

/// At depth one every legal move contributes exactly one leaf, so the
/// count equals the length of the generated move list.
pub proof fn lemma_perft_depth_one(c: Color, b: BoardRep)
    requires
        gen_moves_of(b, c).len() <= u64::MAX,
    ensures
        perft_count(c, b, 1) == gen_moves_of(b, c).len(),
{
    lemma_perft_sum_depth_one(c, b, gen_moves_of(b, c), gen_moves_of(b, c).len() as int);
}

proof fn lemma_perft_sum_depth_one(c: Color, b: BoardRep, moves: Seq<MoveRep>, k: int)
    requires
        0 <= k <= moves.len(),
        moves.len() <= u64::MAX,
    ensures
        perft_sum_below(c, b, moves, k, 1) == k,
    decreases k,
{
    if k > 0 {
        lemma_perft_sum_depth_one(c, b, moves, k - 1);
        assert(perft_count(opposite_of(c), promote_of(apply_of(b, c, moves[k - 1])), 0) == 1);
    }
}

/// Saturating accumulation of two subtree counts.
fn add_counts(a: u64, b: u64) -> (r: u64)
    ensures
        r as nat == sat_add64(a as nat, b as nat),
{
    a.saturating_add(b)
}

/// One subtree of the count: play `m` for `color` on a clone of the
/// board, promote kings, and count the remaining depth for the other
/// side.
pub fn perft_child(color: Color, board: &Board, m: &Move, depth: u32) -> (r: u64)
    requires
        depth >= 1,
    ensures
        r as nat == perft_count(
            opposite_of(color),
            promote_of(apply_of(board@, color, (*m)@)),
            (depth - 1) as nat,
        ),
    decreases depth, 0int,
{
    let mut new_board = board.clone();
    new_board.apply_move(color, m);
    new_board.promote_kings();
    perft_recur(color.opposite(), &new_board, depth - 1)
}

/// The sequential exhaustive count: exactly `perft_count`, the same
/// value the parallel [`perft`] returns.
pub fn perft_recur(color: Color, board: &Board, depth: u32) -> (r: u64)
    ensures
        r as nat == perft_count(color, board@, depth as nat),
    decreases depth, 1int,
{
    if depth == 0 {
        return 1;
    }
    let move_generator = MoveGenerator::new(board.clone(), color);
    let moves = move_generator.generate_moves();
    let mut count: u64 = 0;
    let n = moves.len();
    for k in 0..n
        invariant
            n == moves@.len(),
            depth >= 1,
            move_views(moves@) == gen_moves_of(board@, color),
            count as nat == perft_sum_below(
                color,
                board@,
                move_views(moves@),
                k as int,
                depth as nat,
            ),
    {
        let m = moves[k];
        let sub = perft_child(color, board, &m, depth);
        count = add_counts(count, sub);
        proof {
            assert(move_views(moves@)[k as int] == m@);
        }
    }
    count
}

/// Relies on rayon's `par_iter`, `map` and `reduce`: mapping the
/// verified `perft_child` over the move list and reducing with the
/// associative, commutative `add_counts` (identity 0) yields the same
/// value as the sequential left fold of the subtree counts, whatever
/// order the worker pool chooses.
#[verifier::external_body]
fn par_count_subtrees(color: Color, board: &Board, moves: &Vec<Move>, depth: u32) -> (r: u64)
    requires
        depth >= 1,
    ensures
        r as nat == perft_sum_below(
            color,
            board@,
            move_views(moves@),
            moves@.len() as int,
            depth as nat,
        ),
{
    moves.par_iter().map(|m| perft_child(color, board, m, depth)).reduce(
        || 0u64,
        |a, b| add_counts(a, b),
    )
}

/// The exhaustive leaf count `depth` plies below `board` with `color`
/// to move, parallelizing the first ply across a worker pool and
/// counting deeper plies sequentially within each branch. Returns
/// exactly `perft_count` — the same value as the sequential
/// [`perft_recur`] — independent of task scheduling order.
pub fn perft(color: Color, board: &Board, depth: u32) -> (r: u64)
    ensures
        r as nat == perft_count(color, board@, depth as nat),
{
    if depth == 0 {
        return 1;
    }
    let move_generator = MoveGenerator::new(board.clone(), color);
    let moves = move_generator.generate_moves();
    par_count_subtrees(color, board, &moves, depth)
}

} // verus!
