//! Moves of the knights.
use vstd::prelude::*;
use crate::bitboard::{
    board_of, holds, lemma_board_of, lemma_holds_bit, lemma_holds_ops, square_bit,
};

use crate::movegen::{each_piece, kind_moves, MoveList, Tables};
use crate::position::PieceType;

verus! {

/// A knight on `a` reaches `k` in one jump.
pub open spec fn knight_step(a: u8, k: u8) -> bool {
    let x = k % 8 - a % 8;
    let y = k / 8 - a / 8;
    ||| (x == 1 || x == -1) && (y == 2 || y == -2)
    ||| (x == 2 || x == -2) && (y == 1 || y == -1)
}

/// The squares that a knight on `a` reaches.
pub open spec fn knight_attack_spec(a: u8) -> u64 {
    board_of(|k: u8| knight_step(a, k))
}

/// The board with the square `df` files and `dr` ranks from `square`, if that
/// is on the board; else the empty board.
fn jump(square: u8, df: i8, dr: i8) -> (result: u64)
    requires
        square < 64,
        -2 <= df <= 2,
        -2 <= dr <= 2,
    ensures
        forall|k: u8|
            k < 64 ==> holds(result, k) == (k % 8 - square % 8 == df && k / 8 - square / 8 == dr),
{
    let f: i8 = (square % 8) as i8 + df;
    let r: i8 = (square / 8) as i8 + dr;
    if 0 <= f && f < 8 && 0 <= r && r < 8 {
        let target: u8 = (r * 8 + f) as u8;
        let result: u64 = square_bit(target);
        proof {
            assert(target % 8 == f && target / 8 == r);
            assert forall|k: u8| k < 64 implies holds(result, k) == (k % 8 - square % 8 == df && k / 8
                - square / 8 == dr) by {
                lemma_holds_bit(target, k);
            }
        }
        result
    } else {
        let result: u64 = 0;
        proof {
            assert forall|k: u8| k < 64 implies holds(result, k) == (k % 8 - square % 8 == df && k / 8
                - square / 8 == dr) by {
                lemma_holds_ops(0, 0, k);
            }
        }
        result
    }
}

/// The squares that a knight on `square` reaches.
pub fn knight_attack(square: u8) -> (result: u64)
    requires
        square < 64,
    ensures
        result == knight_attack_spec(square),
{
    let a: u64 = jump(square, 1, 2);
    let b: u64 = jump(square, -1, 2);
    let c: u64 = jump(square, 1, -2);
    let d: u64 = jump(square, -1, -2);
    let e: u64 = jump(square, 2, 1);
    let f: u64 = jump(square, 2, -1);
    let g: u64 = jump(square, -2, 1);
    let h: u64 = jump(square, -2, -1);
    let result: u64 = a | b | c | d | e | f | g | h;
    proof {
        assert forall|k: u8| k < 64 implies holds(result, k) == knight_step(square, k) by {
            lemma_holds_ops(a, b, k);
            lemma_holds_ops(a | b, c, k);
            lemma_holds_ops(a | b | c, d, k);
            lemma_holds_ops(a | b | c | d, e, k);
            lemma_holds_ops(a | b | c | d | e, f, k);
            lemma_holds_ops(a | b | c | d | e | f, g, k);
            lemma_holds_ops(a | b | c | d | e | f | g, h, k);
        }
        lemma_board_of(result, |k: u8| knight_step(square, k));
    }
    result
}

/// The table of knight jumps, one board per square.
pub fn generate_moves() -> (attacks: [u64; 64])
    ensures
        forall|i: int| 0 <= i < 64 ==> #[trigger] attacks[i] == knight_attack_spec(i as u8),
{
    let mut attacks: [u64; 64] = [0u64; 64];
    let mut i: usize = 0;
    while i < 64
        invariant
            i <= 64,
            forall|j: int| 0 <= j < i ==> #[trigger] attacks[j] == knight_attack_spec(j as u8),
        decreases 64 - i,
    {
        attacks[i] = knight_attack(i as u8);
        i = i + 1;
    }
    attacks
}

/// Appends the moves of the knights on `knights` to the squares of
/// `free_squares`: for each knight, lowest square first, its quiet moves (if
/// `QUIETS`) and then its captures of `enemies`.
pub fn knight_moves<const QUIETS: bool>(
    tables: &Tables,
    knights: u64,
    free_squares: u64,
    enemies: u64,
    moves: &mut MoveList,
)
    requires
        tables.wf(),
    ensures
        final(moves)@ == old(moves)@ + kind_moves(
            PieceType::Knight,
            knights,
            0,
            free_squares,
            enemies,
            QUIETS,
        ),
{
    each_piece(tables, PieceType::Knight, knights, 0, free_squares, enemies, QUIETS, moves);
}

/// The squares that a knight on `knight` reaches.
pub fn single_knight_moves(tables: &Tables, knight: u8) -> (result: u64)
    requires
        tables.wf(),
        knight < 64,
    ensures
        result == knight_attack_spec(knight),
{
    tables.knight[knight as usize]
}

} // verus!
