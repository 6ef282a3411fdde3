//! Moves of rooks, bishops and queens.
pub mod magic;

use vstd::prelude::*;
use crate::movegen::sliding::magic::{bishop_attack_spec, rook_attack_spec};
use crate::movegen::{each_piece, kind_moves, MoveList, Tables};
use crate::position::PieceType;

verus! {

/// The squares to which a rook on `rook` may go: what it attacks, without
/// the squares of its own side.
pub open spec fn single_rook_moves_spec(rook: u8, us: u64, them: u64) -> u64 {
    rook_attack_spec(rook, us | them) & !us
}

/// The squares to which a bishop on `bishop` may go: what it attacks,
/// without the squares of its own side.
pub open spec fn single_bishop_moves_spec(bishop: u8, us: u64, them: u64) -> u64 {
    bishop_attack_spec(bishop, us | them) & !us
}

/// The squares to which a rook on `rook` may go.
pub fn single_rook_moves(tables: &Tables, rook: u8, us: u64, them: u64) -> (result: u64)
    requires
        tables.wf(),
        rook < 64,
    ensures
        result == single_rook_moves_spec(rook, us, them),
{
    tables.rook.lookup(rook, us | them) & !us
}

/// The squares to which a bishop on `bishop` may go.
pub fn single_bishop_moves(tables: &Tables, bishop: u8, us: u64, them: u64) -> (result: u64)
    requires
        tables.wf(),
        bishop < 64,
    ensures
        result == single_bishop_moves_spec(bishop, us, them),
{
    tables.bishop.lookup(bishop, us | them) & !us
}

/// Appends the moves of the queens on `queens`: for each, lowest square
/// first, its quiet moves (if `QUIETS`) and then its captures.
pub fn queen_moves<const QUIETS: bool>(
    tables: &Tables,
    queens: u64,
    us: u64,
    them: u64,
    movelist: &mut MoveList,
)
    requires
        tables.wf(),
    ensures
        final(movelist)@ == old(movelist)@ + kind_moves(
            PieceType::Queen,
            queens,
            us | them,
            !us,
            them,
            QUIETS,
        ),
{
    each_piece(tables, PieceType::Queen, queens, us | them, !us, them, QUIETS, movelist);
}

/// Appends the moves of the rooks on `rooks`: for each, lowest square first,
/// its quiet moves (if `QUIETS`) and then its captures.
pub fn rook_moves<const QUIETS: bool>(
    tables: &Tables,
    rooks: u64,
    us: u64,
    them: u64,
    movelist: &mut MoveList,
)
    requires
        tables.wf(),
    ensures
        final(movelist)@ == old(movelist)@ + kind_moves(
            PieceType::Rook,
            rooks,
            us | them,
            !us,
            them,
            QUIETS,
        ),
{
    each_piece(tables, PieceType::Rook, rooks, us | them, !us, them, QUIETS, movelist);
}

/// Appends the moves of the bishops on `bishops`: for each, lowest square
/// first, its quiet moves (if `QUIETS`) and then its captures.
pub fn bishop_moves<const QUIETS: bool>(
    tables: &Tables,
    bishops: u64,
    us: u64,
    them: u64,
    movelist: &mut MoveList,
)
    requires
        tables.wf(),
    ensures
        final(movelist)@ == old(movelist)@ + kind_moves(
            PieceType::Bishop,
            bishops,
            us | them,
            !us,
            them,
            QUIETS,
        ),
{
    each_piece(tables, PieceType::Bishop, bishops, us | them, !us, them, QUIETS, movelist);
}

} // verus!
