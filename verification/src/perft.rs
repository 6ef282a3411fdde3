//! Counting the leaves of the tree of legal moves.
use vstd::prelude::*;
use crate::movegen::laws::lemma_movegen_admitted;
use crate::movegen::{movegen, movegen_spec, Tables};
use crate::position::{Move, Position};

verus! {

/// The number of legal move sequences of length `depth` from `pos`, counted
/// modulo 2^64: a move is legal if it is generated and does not leave the
/// mover's king in check.
pub open spec fn perft_spec(pos: Position, depth: nat) -> u64
    decreases depth, 1nat, 0nat,
{
    if depth == 0 {
        1
    } else {
        perft_sum(pos, depth, movegen_spec(pos, true))
    }
}

/// The leaf count below one move: nothing where the move leaves the
/// mover's king in check.
pub open spec fn perft_below(pos: Position, depth: nat, m: Move) -> u64
    decreases depth, 0nat, 0nat,
{
    if depth > 0 && !pos.make_move_spec(m).in_check_spec(pos.side) {
        perft_spec(pos.make_move_spec(m), (depth - 1) as nat)
    } else {
        0
    }
}

/// The sum of the leaf counts below the moves of `moves`.
pub open spec fn perft_sum(pos: Position, depth: nat, moves: Seq<Move>) -> u64
    decreases depth, 0nat, moves.len(),
{
    if depth == 0 || moves.len() == 0 {
        0
    } else {
        perft_sum(pos, depth, moves.drop_last()).wrapping_add(perft_below(pos, depth, moves.last()))
    }
}

/// The sum over one move more.
proof fn lemma_perft_step(pos: Position, depth: nat, moves: Seq<Move>, i: int)
    requires
        depth > 0,
        0 <= i < moves.len(),
    ensures
        perft_sum(pos, depth, moves.take(i + 1)) == perft_sum(pos, depth, moves.take(i)).wrapping_add(
            perft_below(pos, depth, moves[i]),
        ),
{
    assert(moves.take(i + 1).drop_last() =~= moves.take(i));
    assert(moves.take(i + 1).last() == moves[i]);
}

/// Counts the leaves of the tree of legal moves of depth `depth` below `pos`.
pub fn perft(tables: &Tables, pos: &Position, depth: u8) -> (count: u64)
    requires
        tables.wf(),
        pos.halfmove + depth <= 255,
    ensures
        count == perft_spec(*pos, depth as nat),
    decreases depth, 1nat,
{
    if depth == 0 {
        return 1;
    }
    let moves = movegen::<true>(tables, pos);
    proof {
        lemma_movegen_admitted(*pos, true);
    }
    let mut count: u64 = 0;
    let mut i: usize = 0;
    while i < moves.len()
        invariant
            tables.wf(),
            depth > 0,
            pos.halfmove + depth <= 255,
            forall|k: int| 0 <= k < moves@.len() ==> pos.admits(#[trigger] moves@[k]),
            i <= moves@.len(),
            count == perft_sum(*pos, depth as nat, moves@.take(i as int)),
        decreases moves@.len() - i,
    {
        let m: Move = moves.get(i);
        proof {
            lemma_perft_step(*pos, depth as nat, moves@, i as int);
        }
        let below: u64 = leaves_below(tables, pos, depth, m);
        count = count.wrapping_add(below);
        i = i + 1;
    }
    proof {
        assert(moves@.take(i as int) =~= moves@);
    }
    count
}

/// The leaf count below one move.
fn leaves_below(tables: &Tables, pos: &Position, depth: u8, m: Move) -> (count: u64)
    requires
        tables.wf(),
        depth > 0,
        pos.halfmove + depth <= 255,
        pos.admits(m),
    ensures
        count == perft_below(*pos, depth as nat, m),
    decreases depth, 0nat,
{
    let next: Position = pos.make_move(m);
    if !next.in_check(tables, pos.side) {
        perft(tables, &next, depth - 1)
    } else {
        0
    }
}

} // verus!
