//! Moves of the pawns.
use vstd::prelude::*;
use crate::bitboard::{
    holds, lemma_holds_ops, lemma_holds_plain_shift, lemma_pop, lemma_squares_empty, lsb, north,
    reset_lsb, south, square_bit, squares, FILE_A, FILE_H, RANK_1, RANK_2, RANK_4, RANK_5, RANK_7,
    RANK_8,
};
use crate::movegen::{for_each_square, lemma_for_each_cons, MoveList};
use crate::position::{Move, MoveFlag, PieceColor, PieceType, NO_SQUARE};

verus! {

/// The moves of a pawn from `from` to `to` with the flags `flags`: onto the
/// first or the last rank the four promotions, to knight, bishop, rook and
/// queen; else the one move.
pub open spec fn step_moves(from: u8, to: u8, flags: u8) -> Seq<Move> {
    if to >= 56 || to <= 7 {
        seq![
            Move { from, to, flags: (flags + 8) as u8, piece: PieceType::Pawn },
            Move { from, to, flags: (flags + 9) as u8, piece: PieceType::Pawn },
            Move { from, to, flags: (flags + 10) as u8, piece: PieceType::Pawn },
            Move { from, to, flags: (flags + 11) as u8, piece: PieceType::Pawn },
        ]
    } else {
        seq![Move { from, to, flags, piece: PieceType::Pawn }]
    }
}

/// The moves of a pawn that goes `delta` squares on, as a function of its square.
pub open spec fn step_from(delta: int, flags: u8) -> spec_fn(u8) -> Seq<Move> {
    |from: u8| step_moves(from, (from + delta) as u8, flags)
}

/// The moves of the pawns on `froms`, lowest square first, each going
/// `delta` squares on.
pub open spec fn steps(froms: u64, delta: int, flags: u8) -> Seq<Move> {
    for_each_square(squares(froms), step_from(delta, flags))
}

/// The one move of a pawn to `to`, or `delta` squares on where `to` is
/// `NO_SQUARE`, as a function of its square.
pub open spec fn plain_from(delta: int, to: u8, flags: u8) -> spec_fn(u8) -> Seq<Move> {
    |from: u8|
        seq![
            Move {
                from,
                to: if to == NO_SQUARE {
                    (from + delta) as u8
                } else {
                    to
                },
                flags,
                piece: PieceType::Pawn,
            },
        ]
}

/// One move for each pawn on `froms`, lowest square first.
pub open spec fn plain_steps(froms: u64, delta: int, to: u8, flags: u8) -> Seq<Move> {
    for_each_square(squares(froms), plain_from(delta, to, flags))
}

/// Every pawn on `froms` stays on the board when it goes `delta` squares on.
pub open spec fn in_reach(froms: u64, delta: int) -> bool {
    forall|k: u8| k < 64 && holds(froms, k) ==> 0 <= #[trigger] (k + delta) < 64
}

fn push_steps(list: &mut MoveList, froms: u64, delta: i8, flags: u8)
    requires
        in_reach(froms, delta as int),
        flags <= 4,
    ensures
        final(list)@ == old(list)@ + steps(froms, delta as int, flags),
{
    let mut rest: u64 = froms;
    let ghost f = step_from(delta as int, flags);
    assert(list@ + for_each_square(squares(rest), f) == old(list)@ + steps(froms, delta as int, flags));
    while rest != 0
        invariant
            flags <= 4,
            f == step_from(delta as int, flags),
            in_reach(froms, delta as int),
            forall|k: u8| k < 64 && holds(rest, k) ==> holds(froms, k),
            list@ + for_each_square(squares(rest), f) == old(list)@ + steps(froms, delta as int, flags),
        decreases rest,
    {
        let from: u8 = lsb(rest);
        let next: u64 = reset_lsb(rest);
        let ghost before = list@;
        proof {
            lemma_pop(rest, from, next);
            lemma_for_each_cons(from, squares(next), f);
            assert(0 <= from + delta < 64);
        }
        let to: u8 = (from as i8 + delta) as u8;
        if to >= 56 || to <= 7 {
            list.push(Move::new(from, to, flags + MoveFlag::PROMO, PieceType::Pawn));
            list.push(Move::new(from, to, flags + MoveFlag::PROMO + 1, PieceType::Pawn));
            list.push(Move::new(from, to, flags + MoveFlag::PROMO + 2, PieceType::Pawn));
            list.push(Move::new(from, to, flags + MoveFlag::PROMO + 3, PieceType::Pawn));
        } else {
            list.push(Move::new(from, to, flags, PieceType::Pawn));
        }
        assert(list@ =~= before + f(from));
        assert(list@ + for_each_square(squares(next), f) =~= before + for_each_square(squares(rest), f));
        rest = next;
    }
    proof {
        lemma_squares_empty(64);
        assert(list@ + Seq::<Move>::empty() =~= list@);
    }
}

fn push_plain_steps(list: &mut MoveList, froms: u64, delta: i8, to: u8, flags: u8)
    requires
        to == NO_SQUARE ==> in_reach(froms, delta as int),
    ensures
        final(list)@ == old(list)@ + plain_steps(froms, delta as int, to, flags),
{
    let mut rest: u64 = froms;
    let ghost f = plain_from(delta as int, to, flags);
    assert(list@ + for_each_square(squares(rest), f) == old(list)@ + plain_steps(
        froms,
        delta as int,
        to,
        flags,
    ));
    while rest != 0
        invariant
            f == plain_from(delta as int, to, flags),
            to == NO_SQUARE ==> in_reach(froms, delta as int),
            forall|k: u8| k < 64 && holds(rest, k) ==> holds(froms, k),
            list@ + for_each_square(squares(rest), f) == old(list)@ + plain_steps(
                froms,
                delta as int,
                to,
                flags,
            ),
        decreases rest,
    {
        let from: u8 = lsb(rest);
        let next: u64 = reset_lsb(rest);
        let ghost before = list@;
        proof {
            lemma_pop(rest, from, next);
            lemma_for_each_cons(from, squares(next), f);
            if to == NO_SQUARE {
                assert(0 <= from + delta < 64);
            }
        }
        let target: u8 = if to == NO_SQUARE {
            (from as i8 + delta) as u8
        } else {
            to
        };
        list.push(Move::new(from, target, flags, PieceType::Pawn));
        assert(list@ =~= before + f(from));
        assert(list@ + for_each_square(squares(next), f) =~= before + for_each_square(squares(rest), f));
        rest = next;
    }
    proof {
        lemma_squares_empty(64);
        assert(list@ + Seq::<Move>::empty() =~= list@);
    }
}

/// One rank towards the near side of `color`.
pub open spec fn backward(color: PieceColor, x: u64) -> u64 {
    match color {
        PieceColor::White => (x & !RANK_1) >> 8,
        PieceColor::Black => (x & !RANK_8) << 8,
    }
}

/// The number of squares that a pawn of `color` advances by one step.
pub open spec fn advance(color: PieceColor) -> int {
    match color {
        PieceColor::White => 8,
        PieceColor::Black => -8,
    }
}

fn back(color: PieceColor, x: u64) -> (r: u64)
    ensures
        r == backward(color, x),
        forall|k: u8| k < 64 ==> holds(r, k) == (0 <= k + advance(color) < 64 && holds(x, (k + advance(color)) as u8)),
{
    match color {
        PieceColor::White => south(x),
        PieceColor::Black => north(x),
    }
}

/// The pawns of `pawns` whose next square is in `empty`.
pub open spec fn pushable(pawns: u64, color: PieceColor, empty: u64) -> u64 {
    pawns & backward(color, empty)
}

/// Appends the single steps of the pawns of `color` on `pawns` onto squares
/// of `empty`, lowest pawn first; a step onto the last rank gives the four
/// promotions.
pub fn single_pawn_moves(pawns: u64, color: PieceColor, empty: u64, out: &mut MoveList)
    ensures
        final(out)@ == old(out)@ + steps(pushable(pawns, color, empty), advance(color), 0),
{
    let behind: u64 = back(color, empty);
    let push: u64 = pawns & behind;
    let delta: i8 = match color {
        PieceColor::White => 8,
        PieceColor::Black => -8,
    };
    proof {
        assert forall|k: u8| k < 64 && holds(push, k) implies 0 <= #[trigger] (k + delta) < 64 by {
            lemma_holds_ops(pawns, behind, k);
        }
    }
    push_steps(out, push, delta, MoveFlag::QUIET);
}

/// The rank from which the pawns of `color` may step twice.
pub open spec fn start_rank(color: PieceColor) -> u64 {
    match color {
        PieceColor::White => RANK_2,
        PieceColor::Black => RANK_7,
    }
}

/// The pawns of `pawns` on their starting rank whose next two squares are in `empty`.
pub open spec fn double_pushable(pawns: u64, color: PieceColor, empty: u64) -> u64 {
    pawns & backward(color, empty) & start_rank(color) & backward(color, backward(color, empty))
}

/// Appends the double steps of the pawns of `color` on `pawns`: from the
/// starting rank, over a square of `empty` onto a square of `empty`.
pub fn double_pawn_moves(pawns: u64, color: PieceColor, empty: u64, out: &mut MoveList)
    ensures
        final(out)@ == old(out)@ + plain_steps(
            double_pushable(pawns, color, empty),
            2 * advance(color),
            NO_SQUARE,
            1,
        ),
{
    let behind: u64 = back(color, empty);
    let behind2: u64 = back(color, behind);
    let rank: u64 = match color {
        PieceColor::White => RANK_2,
        PieceColor::Black => RANK_7,
    };
    let double: u64 = pawns & behind & rank & behind2;
    let delta: i8 = match color {
        PieceColor::White => 16,
        PieceColor::Black => -16,
    };
    proof {
        assert forall|k: u8| k < 64 && holds(double, k) implies 0 <= #[trigger] (k + delta) < 64 by {
            lemma_holds_ops(pawns & behind & rank, behind2, k);
        }
    }
    push_plain_steps(out, double, delta, NO_SQUARE, MoveFlag::DOUBLE_PAWN);
}

/// The board moved `by` squares towards the far side of `side`.
pub open spec fn shift_spec(side: PieceColor, bitboard: u64, by: u8) -> u64 {
    match side {
        PieceColor::White => bitboard << by,
        PieceColor::Black => bitboard >> by,
    }
}

/// The board moved `by` squares towards the far side of `side`.
pub fn shift(side: PieceColor, bitboard: u64, by: u8) -> (r: u64)
    requires
        by < 64,
    ensures
        r == shift_spec(side, bitboard, by),
{
    match side {
        PieceColor::White => bitboard << by,
        PieceColor::Black => bitboard >> by,
    }
}

/// The pawns of `pawns` that attack a square of `enemies` by a step of seven
/// squares: towards the a-file for White, towards the h-file for Black.
pub open spec fn left_attackers(pawns: u64, color: PieceColor, enemies: u64) -> u64 {
    match color {
        PieceColor::White => pawns & !FILE_A & (enemies >> 7),
        PieceColor::Black => pawns & !FILE_H & (enemies << 7),
    }
}

/// The pawns of `pawns` that attack a square of `enemies` by a step of nine
/// squares: towards the h-file for White, towards the a-file for Black.
pub open spec fn right_attackers(pawns: u64, color: PieceColor, enemies: u64) -> u64 {
    match color {
        PieceColor::White => pawns & !FILE_H & (enemies >> 9),
        PieceColor::Black => pawns & !FILE_A & (enemies << 9),
    }
}

/// The number of squares of a capturing step of seven, and of nine.
pub open spec fn capture_step(color: PieceColor, by: int) -> int {
    match color {
        PieceColor::White => by,
        PieceColor::Black => -by,
    }
}

/// Appends the captures of the pawns of `color` on `pawns`: first those by a
/// step of seven squares, then those by a step of nine, each lowest pawn
/// first; a capture onto the last rank gives the four promotions.
pub fn pawn_attacks(pawns: u64, color: PieceColor, enemies: u64, out: &mut MoveList)
    ensures
        final(out)@ == old(out)@ + steps(
            left_attackers(pawns, color, enemies),
            capture_step(color, 7),
            4,
        ) + steps(right_attackers(pawns, color, enemies), capture_step(color, 9), 4),
{
    let left_mask: u64 = match color {
        PieceColor::White => !FILE_A,
        PieceColor::Black => !FILE_H,
    };
    let right_mask: u64 = match color {
        PieceColor::White => !FILE_H,
        PieceColor::Black => !FILE_A,
    };
    let seven: u64 = shift(color.flip(), enemies, 7);
    let nine: u64 = shift(color.flip(), enemies, 9);
    let left: u64 = pawns & left_mask & seven;
    let right: u64 = pawns & right_mask & nine;
    let d7: i8 = match color {
        PieceColor::White => 7,
        PieceColor::Black => -7,
    };
    let d9: i8 = match color {
        PieceColor::White => 9,
        PieceColor::Black => -9,
    };
    proof {
        assert forall|k: u8| k < 64 && holds(left, k) implies 0 <= #[trigger] (k + d7) < 64 by {
            lemma_holds_ops(pawns & left_mask, seven, k);
            lemma_holds_plain_shift(enemies, 7, k);
        }
        assert forall|k: u8| k < 64 && holds(right, k) implies 0 <= #[trigger] (k + d9) < 64 by {
            lemma_holds_ops(pawns & right_mask, nine, k);
            lemma_holds_plain_shift(enemies, 9, k);
        }
    }
    push_steps(out, left, d7, MoveFlag::CAP);
    push_steps(out, right, d9, MoveFlag::CAP);
}

/// The rank on which a pawn of `color` stands when it may capture en passant.
pub open spec fn ep_rank(color: PieceColor) -> u64 {
    match color {
        PieceColor::White => RANK_5,
        PieceColor::Black => RANK_4,
    }
}

/// The pawns of `pawns` that may capture en passant on `en_passant`: those
/// on the en-passant rank that stand seven or nine squares before the target.
pub open spec fn ep_capturers(pawns: u64, color: PieceColor, en_passant: u8) -> u64 {
    let ep_bit = crate::bitboard::bit(en_passant);
    pawns & (shift_spec(color.other(), ep_bit, 7) | shift_spec(color.other(), ep_bit, 9)) & ep_rank(
        color,
    )
}

/// The en-passant captures of the pawns of `color` on `pawns`; none without a target.
pub open spec fn en_passant_spec(pawns: u64, color: PieceColor, en_passant: u8) -> Seq<Move> {
    if en_passant < 64 {
        plain_steps(ep_capturers(pawns, color, en_passant), 0, en_passant, 5)
    } else {
        Seq::empty()
    }
}

/// Appends the en-passant captures of the pawns of `color` on `pawns`.
pub fn en_passant(pawns: u64, color: PieceColor, en_passant: u8, out: &mut MoveList)
    ensures
        final(out)@ == old(out)@ + en_passant_spec(pawns, color, en_passant),
{
    if en_passant < 64 {
        let ep_bit: u64 = square_bit(en_passant);
        let ep_squares: u64 = shift(color.flip(), ep_bit, 7) | shift(color.flip(), ep_bit, 9);
        let rank: u64 = match color {
            PieceColor::White => RANK_5,
            PieceColor::Black => RANK_4,
        };
        let ep_pawns: u64 = pawns & ep_squares & rank;
        push_plain_steps(out, ep_pawns, 0, en_passant, MoveFlag::EP);
    } else {
        assert(out@ =~= old(out)@ + en_passant_spec(pawns, color, en_passant));
    }
}

/// The moves of the pawns of `side` on `pawns`: if `quiets`, the single
/// steps and then the double steps; the captures; the en-passant captures.
pub open spec fn pawn_moves_spec(
    pawns: u64,
    empty: u64,
    them: u64,
    en_passant: u8,
    side: PieceColor,
    quiets: bool,
) -> Seq<Move> {
    (if quiets {
        steps(pushable(pawns, side, empty), advance(side), 0) + plain_steps(
            double_pushable(pawns, side, empty),
            2 * advance(side),
            NO_SQUARE,
            1,
        )
    } else {
        Seq::empty()
    }) + (steps(left_attackers(pawns, side, them), capture_step(side, 7), 4) + steps(
        right_attackers(pawns, side, them),
        capture_step(side, 9),
        4,
    )) + en_passant_spec(pawns, side, en_passant)
}

/// Appends the moves of the pawns of `side`.
pub fn pawn_moves<const QUIETS: bool>(
    pawns: u64,
    empty: u64,
    them: u64,
    ep: u8,
    side: PieceColor,
    moves: &mut MoveList,
)
    ensures
        final(moves)@ == old(moves)@ + pawn_moves_spec(pawns, empty, them, ep, side, QUIETS),
{
    if QUIETS {
        single_pawn_moves(pawns, side, empty, moves);
        double_pawn_moves(pawns, side, empty, moves);
    }
    pawn_attacks(pawns, side, them, moves);
    en_passant(pawns, side, ep, moves);
    assert(moves@ =~= old(moves)@ + pawn_moves_spec(pawns, empty, them, ep, side, QUIETS));
}

} // verus!
