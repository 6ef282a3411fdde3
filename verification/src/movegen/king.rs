//! Moves of the king, castling included.
use vstd::prelude::*;
use crate::bitboard::{
    board_of, east, holds, lemma_board_of, lemma_holds_bit, lemma_holds_ops, north, south,
    square_bit, west,
};
use crate::movegen::sliding::magic::dist;

use crate::bitboard::{lowest, lsb};
use crate::movegen::{attackers, is_attacking, moves_to, push_moves, MoveList, Tables};
use crate::position::{king_home, Move, MoveFlag, PieceColor, PieceType, Position, NO_SQUARE};

verus! {

/// A king on `a` reaches `k` in one step.
pub open spec fn king_step(a: u8, k: u8) -> bool {
    dist(a, k) == 1
}

/// The squares next to `a`.
pub open spec fn king_attack_spec(a: u8) -> u64 {
    board_of(|k: u8| king_step(a, k))
}

/// The squares next to `square`.
pub fn king_attack(square: u8) -> (result: u64)
    requires
        square < 64,
    ensures
        result == king_attack_spec(square),
{
    let king: u64 = square_bit(square);
    let w: u64 = west(king);
    let e: u64 = east(king);
    let row: u64 = king | w | e;
    let n: u64 = north(row);
    let s: u64 = south(row);
    let result: u64 = w | e | n | s;
    proof {
        assert forall|k: u8| k < 64 implies holds(result, k) == king_step(square, k) by {
            lemma_holds_bit(square, k);
            if k % 8 != 0 {
                lemma_holds_bit(square, (k - 1) as u8);
            }
            if k % 8 != 7 {
                lemma_holds_bit(square, (k + 1) as u8);
            }
            lemma_holds_ops(king, w, k);
            lemma_holds_ops(king | w, e, k);
            lemma_holds_ops(w, e, k);
            lemma_holds_ops(w | e, n, k);
            lemma_holds_ops(w | e | n, s, k);
            if k >= 8 {
                let below = (k - 8) as u8;
                lemma_holds_bit(square, below);
                lemma_holds_ops(king, w, below);
                lemma_holds_ops(king | w, e, below);
                if below % 8 != 0 {
                    lemma_holds_bit(square, (below - 1) as u8);
                }
                if below % 8 != 7 {
                    lemma_holds_bit(square, (below + 1) as u8);
                }
            }
            if k < 56 {
                let above = (k + 8) as u8;
                lemma_holds_bit(square, above);
                lemma_holds_ops(king, w, above);
                lemma_holds_ops(king | w, e, above);
                if above % 8 != 0 {
                    lemma_holds_bit(square, (above - 1) as u8);
                }
                if above % 8 != 7 {
                    lemma_holds_bit(square, (above + 1) as u8);
                }
            }
        }
        lemma_board_of(result, |k: u8| king_step(square, k));
    }
    result
}

/// The table of king steps, one board per square.
pub fn generate_lookup() -> (attacks: [u64; 64])
    ensures
        forall|i: int| 0 <= i < 64 ==> #[trigger] attacks[i] == king_attack_spec(i as u8),
{
    let mut attacks: [u64; 64] = [0u64; 64];
    let mut i: usize = 0;
    while i < 64
        invariant
            i <= 64,
            forall|j: int| 0 <= j < i ==> #[trigger] attacks[j] == king_attack_spec(j as u8),
        decreases 64 - i,
    {
        attacks[i] = king_attack(i as u8);
        i = i + 1;
    }
    attacks
}

/// The moves of the king on the board `king`: nothing where the board is
/// empty; else, from its lowest square, the quiet moves to the neighbours in
/// `empty` (if `quiets`) and then the captures of the neighbours in `them`.
pub open spec fn king_moves_spec(king: u64, empty: u64, them: u64, quiets: bool) -> Seq<Move> {
    if king == 0 {
        Seq::empty()
    } else {
        let from = lowest(king);
        (if quiets {
            moves_to(from, king_attack_spec(from) & empty, 0, PieceType::King)
        } else {
            Seq::empty()
        }) + moves_to(from, king_attack_spec(from) & them, 4, PieceType::King)
    }
}

/// Appends the moves of the king, castling apart.
pub fn king_moves<const QUIETS: bool>(
    tables: &Tables,
    king: u64,
    empty: u64,
    them: u64,
    movelist: &mut MoveList,
)
    requires
        tables.wf(),
    ensures
        final(movelist)@ == old(movelist)@ + king_moves_spec(king, empty, them, QUIETS),
{
    if king != 0 {
        let from: u8 = lsb(king);
        let moves: u64 = tables.king[from as usize];
        if QUIETS {
            push_moves(movelist, from, moves & empty, MoveFlag::QUIET, PieceType::King);
        }
        push_moves(movelist, from, moves & them, MoveFlag::CAP, PieceType::King);
        assert(movelist@ =~= old(movelist)@ + king_moves_spec(king, empty, them, QUIETS));
    } else {
        assert(movelist@ =~= old(movelist)@ + king_moves_spec(king, empty, them, QUIETS));
    }
}

/// The squares next to `king`.
pub fn lookup_king(tables: &Tables, king: u8) -> (result: u64)
    requires
        tables.wf(),
        king < 64,
    ensures
        result == king_attack_spec(king),
{
    tables.king[king as usize]
}

/// The files b, c and d of a rank, which must be empty to castle queenside.
pub const QUEENSIDE_CASTLE: u64 = 0xe;

/// The files f and g of a rank, which must be empty to castle kingside.
pub const KINGSIDE_CASTLE: u64 = 0x60;

/// The occupied squares of the back rank of `side`, moved down to the first rank.
pub open spec fn back_rank(empty: u64, side: PieceColor) -> u64 {
    match side {
        PieceColor::White => (!empty) & 0xff,
        PieceColor::Black => ((!empty) >> 56) & 0xff,
    }
}

/// The castling moves of the side to move: none unless its king stands on
/// its home square. Queenside, if the files b, c and d of the back rank are
/// empty, the right is left, and the square next to the king on that side is
/// not attacked; kingside, if the files f and g are empty, the right is
/// left, and the square next to the king on that side is not attacked. The
/// king goes two files.
pub open spec fn castling_moves_spec(pos: Position, king: u64, empty: u64) -> Seq<Move> {
    let side = pos.side;
    let home = king_home(side.idx());
    if king == 0 || lowest(king) != home {
        Seq::empty()
    } else {
        let rank = back_rank(empty, side);
        let left = if rank & QUEENSIDE_CASTLE == 0 && pos.castling[side.idx()][0] != NO_SQUARE
            && attackers(pos, (home - 1) as u8, side.other()) == 0 {
            seq![Move { from: home, to: (home - 2) as u8, flags: 2, piece: PieceType::King }]
        } else {
            Seq::empty()
        };
        let right = if rank & KINGSIDE_CASTLE == 0 && pos.castling[side.idx()][1] != NO_SQUARE
            && attackers(pos, (home + 1) as u8, side.other()) == 0 {
            seq![Move { from: home, to: (home + 2) as u8, flags: 3, piece: PieceType::King }]
        } else {
            Seq::empty()
        };
        left + right
    }
}

/// Appends the castling moves of the side to move.
pub fn castling_moves(tables: &Tables, king: u64, empty: u64, pos: &Position, movelist: &mut MoveList)
    requires
        tables.wf(),
    ensures
        final(movelist)@ == old(movelist)@ + castling_moves_spec(*pos, king, empty),
{
    let side: PieceColor = pos.side;
    let home: u8 = match side {
        PieceColor::White => 4,
        PieceColor::Black => 60,
    };
    if king != 0 && lsb(king) == home {
        let rank: u64 = match side {
            PieceColor::White => (!empty) & 0xff,
            PieceColor::Black => ((!empty) >> 56) & 0xff,
        };
        let ghost start = movelist@;
        if rank & QUEENSIDE_CASTLE == 0 && pos.castling[side.index()][0] != NO_SQUARE && !is_attacking(
            tables,
            home - 1,
            pos,
            side.flip(),
        ) {
            movelist.push(Move::new(home, home - 2, MoveFlag::CASTLE_LEFT, PieceType::King));
        }
        if rank & KINGSIDE_CASTLE == 0 && pos.castling[side.index()][1] != NO_SQUARE && !is_attacking(
            tables,
            home + 1,
            pos,
            side.flip(),
        ) {
            movelist.push(Move::new(home, home + 2, MoveFlag::CASTLE_RIGHT, PieceType::King));
        }
        assert(movelist@ =~= old(movelist)@ + castling_moves_spec(*pos, king, empty));
    } else {
        assert(movelist@ =~= old(movelist)@ + castling_moves_spec(*pos, king, empty));
    }
}

} // verus!
