//! What holds of every move that the generator lists.
use vstd::prelude::*;
use crate::bitboard::{
    bit, holds, lemma_holds_bit, lemma_holds_ops, lemma_holds_plain_shift, lemma_holds_shift,
    lemma_squares_below_members, lowest, squares, };
use crate::movegen::king::{
    back_rank, castling_moves_spec, king_attack_spec, king_moves_spec, KINGSIDE_CASTLE,
    QUEENSIDE_CASTLE,
};
use crate::movegen::pawn::{
    advance, capture_step, double_pushable, en_passant_spec, ep_capturers, ep_rank, left_attackers,
    pawn_moves_spec, plain_from, plain_steps, pushable, right_attackers, start_rank, step_from,
    step_moves, steps,
};
use crate::movegen::{
    attack_of, attackers, for_each_square, kind_from, kind_moves, movegen_spec, moves_to, one_move,
    piece_moves,
};
use crate::movegen::knight::{knight_attack_spec, knight_step};
use crate::movegen::sliding::magic::{
    along, bishop_attack_spec, bishop_sees, dist, on_ray, ray_sees, rook_attack_spec, rook_sees,
};
use crate::movegen::{pawn_attack_spec, pawn_hits};
use crate::position::{king_home, Move, PieceColor, PieceType, Position, NO_SQUARE};

verus! {

/// Every move of `s` satisfies `p`.
pub open spec fn all_of(s: Seq<Move>, p: spec_fn(Move) -> bool) -> bool {
    forall|i: int| 0 <= i < s.len() ==> p(#[trigger] s[i])
}

/// What holds of every move of two lists holds of every move of both together.
pub proof fn lemma_all_concat(a: Seq<Move>, b: Seq<Move>, p: spec_fn(Move) -> bool)
    requires
        all_of(a, p),
        all_of(b, p),
    ensures
        all_of(a + b, p),
{
    assert forall|i: int| 0 <= i < (a + b).len() implies p(#[trigger] (a + b)[i]) by {
        if i < a.len() {
            assert((a + b)[i] == a[i]);
        } else {
            assert((a + b)[i] == b[i - a.len()]);
        }
    }
}

/// What holds of every move of the list of each square holds of every move
/// of all the lists together.
pub proof fn lemma_for_each_all(s: Seq<u8>, f: spec_fn(u8) -> Seq<Move>, p: spec_fn(Move) -> bool)
    requires
        forall|k: int| 0 <= k < s.len() ==> all_of(#[trigger] f(s[k]), p),
    ensures
        all_of(for_each_square(s, f), p),
    decreases s.len(),
{
    if s.len() > 0 {
        assert(all_of(f(s[0]), p));
        assert forall|k: int| 0 <= k < s.drop_first().len() implies all_of(
            #[trigger] f(s.drop_first()[k]),
            p,
        ) by {
            assert(s.drop_first()[k] == s[k + 1]);
        }
        lemma_for_each_all(s.drop_first(), f, p);
        lemma_all_concat(f(s[0]), for_each_square(s.drop_first(), f), p);
    }
}

/// What holds of the list of every square of a board holds of every move of
/// all those lists together.
pub proof fn lemma_each_square(b: u64, f: spec_fn(u8) -> Seq<Move>, p: spec_fn(Move) -> bool)
    requires
        forall|sq: u8| sq < 64 && holds(b, sq) ==> all_of(#[trigger] f(sq), p),
    ensures
        all_of(for_each_square(squares(b), f), p),
{
    lemma_squares_below_members(b, 64);
    let s = squares(b);
    assert forall|k: int| 0 <= k < s.len() implies all_of(#[trigger] f(s[k]), p) by {
        assert(s[k] < 64 && holds(b, s[k]));
    }
    lemma_for_each_all(s, f, p);
}

/// Every move of `moves_to` goes from `from` to a square of `targets`.
pub proof fn lemma_moves_to(from: u8, targets: u64, flags: u8, piece: PieceType, p: spec_fn(Move) -> bool)
    requires
        forall|to: u8| to < 64 && holds(targets, to) ==> p(Move { from, to, flags, piece }),
    ensures
        all_of(moves_to(from, targets, flags, piece), p),
{
    let f = one_move(from, flags, piece);
    assert forall|sq: u8| sq < 64 && holds(targets, sq) implies all_of(#[trigger] f(sq), p) by {
        assert(f(sq)[0] == Move { from, to: sq, flags, piece });
    }
    lemma_each_square(targets, f, p);
}

/// The lowest square of a board that is not empty is one of its squares.
pub proof fn lemma_lowest(x: u64)
    requires
        x != 0,
    ensures
        lowest(x) < 64,
        holds(x, lowest(x)),
{
    vstd::std_specs::bits::axiom_u64_trailing_zeros(x);
    let tz: u64 = vstd::std_specs::bits::u64_trailing_zeros(x) as u64;
    let sq: u8 = lowest(x);
    assert((x >> tz) & 1u64 == 1u64);
    assert(x & (1u64 << sq) != 0) by (bit_vector)
        requires
            (x >> tz) & 1u64 == 1u64,
            tz < 64,
            sq == tz,
    ;
}

/// The move of a queen, rook, bishop or knight that the position offers: the
/// piece stands on its origin and belongs to the side to move, it attacks its
/// target, which its own side does not hold; the move is quiet if the target
/// is vacant and a capture if the enemy holds it.
pub open spec fn offers_piece_move(pos: Position, m: Move, quiets: bool) -> bool {
    let us = pos.colors[pos.side.idx()];
    let them = pos.colors[pos.side.other().idx()];
    &&& m.piece == PieceType::Queen || m.piece == PieceType::Rook || m.piece == PieceType::Bishop
        || m.piece == PieceType::Knight
    &&& m.from < 64
    &&& m.to < 64
    &&& holds(pos.pieces[m.piece.idx()], m.from)
    &&& holds(us, m.from)
    &&& holds(attack_of(m.piece, m.from, us | them), m.to)
    &&& !holds(us, m.to)
    &&& (m.flags == 0 && quiets && !holds(them, m.to)) || (m.flags == 4 && holds(them, m.to))
}

/// The move of the king that the position offers, castling apart.
pub open spec fn offers_king_move(pos: Position, m: Move, quiets: bool) -> bool {
    let us = pos.colors[pos.side.idx()];
    let them = pos.colors[pos.side.other().idx()];
    let king = pos.pieces[5] & us;
    &&& m.piece == PieceType::King
    &&& king != 0
    &&& m.from == lowest(king)
    &&& m.to < 64
    &&& holds(king_attack_spec(m.from), m.to)
    &&& (m.flags == 0 && quiets && !holds(us | them, m.to)) || (m.flags == 4 && holds(them, m.to))
}

/// The castling move that the position offers: the king stands on its home
/// square and is not in check, the right is left, the squares between king
/// and rook are vacant, and the square that the king passes is not attacked.
pub open spec fn offers_castling(pos: Position, m: Move, quiets: bool) -> bool {
    let s = pos.side.idx();
    let us = pos.colors[s];
    let occupied = pos.colors[0] | pos.colors[1];
    let king = pos.pieces[5] & us;
    let home = king_home(s);
    &&& quiets
    &&& !pos.in_check_spec(pos.side)
    &&& king != 0
    &&& lowest(king) == home
    &&& m.piece == PieceType::King
    &&& m.from == home
    &&& if m.flags == 2 {
        &&& m.to == home - 2
        &&& pos.castling[s][0] != NO_SQUARE
        &&& !holds(occupied, (home - 1) as u8) && !holds(occupied, (home - 2) as u8) && !holds(
            occupied,
            (home - 3) as u8,
        )
        &&& attackers(pos, (home - 1) as u8, pos.side.other()) == 0
    } else {
        &&& m.flags == 3
        &&& m.to == home + 2
        &&& pos.castling[s][1] != NO_SQUARE
        &&& !holds(occupied, (home + 1) as u8) && !holds(occupied, (home + 2) as u8)
        &&& attackers(pos, (home + 1) as u8, pos.side.other()) == 0
    }
}

/// The flags of a pawn's step to `to`: one of the four promotions on the
/// first or last rank, else the plain flags `base`.
pub open spec fn step_flags(m: Move, base: u8) -> bool {
    if m.to >= 56 || m.to <= 7 {
        base + 8 <= m.flags <= base + 11
    } else {
        m.flags == base
    }
}

/// The move of a pawn that the position offers: a single step onto a vacant
/// square; a double step from the starting rank over a vacant square onto a
/// vacant square; a capture of an enemy piece one file to the side; or a
/// capture en passant on the target, from the rank beside it.
pub open spec fn offers_pawn_move(pos: Position, m: Move, quiets: bool) -> bool {
    let us = pos.colors[pos.side.idx()];
    let them = pos.colors[pos.side.other().idx()];
    let occupied = pos.colors[0] | pos.colors[1];
    let ahead = advance(pos.side);
    &&& m.piece == PieceType::Pawn
    &&& m.from < 64
    &&& m.to < 64
    &&& holds(pos.pieces[0], m.from)
    &&& holds(us, m.from)
    &&& {
        ||| quiets && m.to == m.from + ahead && !holds(occupied, m.to) && step_flags(m, 0)
        ||| quiets && m.flags == 1 && m.to == m.from + 2 * ahead && !holds(occupied, m.to) && !holds(
            occupied,
            (m.from + ahead) as u8,
        ) && holds(start_rank(pos.side), m.from)
        ||| (m.to == m.from + capture_step(pos.side, 7) || m.to == m.from + capture_step(pos.side, 9))
            && holds(them, m.to) && step_flags(m, 4) && (m.to % 8 - m.from % 8 == 1 || m.from % 8
            - m.to % 8 == 1)
        ||| m.flags == 5 && pos.en_passant < 64 && m.to == pos.en_passant && holds(
            ep_rank(pos.side),
            m.from,
        ) && (m.to == m.from + capture_step(pos.side, 7) || m.to == m.from + capture_step(pos.side, 9))
    }
}

/// A move that the position offers.
pub open spec fn offers(pos: Position, m: Move, quiets: bool) -> bool {
    ||| offers_piece_move(pos, m, quiets)
    ||| offers_king_move(pos, m, quiets)
    ||| offers_castling(pos, m, quiets)
    ||| offers_pawn_move(pos, m, quiets)
}

/// Every move of the pieces of one kind is one that the position offers.
proof fn lemma_kind_moves(pos: Position, kind: PieceType, quiets: bool)
    requires
        kind == PieceType::Queen || kind == PieceType::Rook || kind == PieceType::Bishop || kind
            == PieceType::Knight,
    ensures
        all_of(
            kind_moves(
                kind,
                pos.pieces[kind.idx()] & pos.colors[pos.side.idx()],
                if kind == PieceType::Knight {
                    0
                } else {
                    pos.colors[pos.side.idx()] | pos.colors[pos.side.other().idx()]
                },
                !pos.colors[pos.side.idx()],
                pos.colors[pos.side.other().idx()],
                quiets,
            ),
            |m: Move| offers(pos, m, quiets),
        ),
{
    let us = pos.colors[pos.side.idx()];
    let them = pos.colors[pos.side.other().idx()];
    let occ = if kind == PieceType::Knight {
        0
    } else {
        us | them
    };
    let pieces = pos.pieces[kind.idx()] & us;
    let p = |m: Move| offers(pos, m, quiets);
    let f = kind_from(kind, occ, !us, them, quiets);
    assert forall|from: u8| from < 64 && holds(pieces, from) implies all_of(#[trigger] f(from), p) by {
        lemma_holds_ops(pos.pieces[kind.idx()], us, from);
        let reach = attack_of(kind, from, occ) & !us;
        assert(attack_of(kind, from, occ) == attack_of(kind, from, us | them));
        if quiets {
            assert forall|to: u8| to < 64 && holds(reach & !them, to) implies p(
                Move { from, to, flags: 0, piece: kind },
            ) by {
                lemma_holds_ops(reach, !them, to);
                lemma_holds_ops(them, them, to);
                lemma_holds_ops(attack_of(kind, from, occ), !us, to);
                lemma_holds_ops(us, us, to);
                assert(offers_piece_move(pos, Move { from, to, flags: 0, piece: kind }, quiets));
            }
        }
        assert forall|to: u8| to < 64 && holds(reach & them, to) implies p(
            Move { from, to, flags: 4, piece: kind },
        ) by {
            lemma_holds_ops(reach, them, to);
            lemma_holds_ops(attack_of(kind, from, occ), !us, to);
            lemma_holds_ops(us, us, to);
            assert(offers_piece_move(pos, Move { from, to, flags: 4, piece: kind }, quiets));
        }
        if quiets {
            lemma_moves_to(from, reach & !them, 0, kind, p);
        }
        lemma_moves_to(from, reach & them, 4, kind, p);
        if quiets {
            lemma_all_concat(
                moves_to(from, reach & !them, 0, kind),
                moves_to(from, reach & them, 4, kind),
                p,
            );
        } else {
            assert(Seq::<Move>::empty() + moves_to(from, reach & them, 4, kind) =~= moves_to(
                from,
                reach & them,
                4,
                kind,
            ));
        }
        assert(f(from) == piece_moves(from, reach, them, quiets, kind));
    }
    lemma_each_square(pieces, f, p);
}

/// Every move of the king is one that the position offers.
proof fn lemma_king_moves(pos: Position, quiets: bool)
    ensures
        all_of(
            king_moves_spec(
                pos.pieces[5] & pos.colors[pos.side.idx()],
                !(pos.colors[0] | pos.colors[1]),
                pos.colors[pos.side.other().idx()],
                quiets,
            ),
            |m: Move| offers(pos, m, quiets),
        ),
{
    let us = pos.colors[pos.side.idx()];
    let them = pos.colors[pos.side.other().idx()];
    let occupied = pos.colors[0] | pos.colors[1];
    assert(occupied == us | them || occupied == them | us);
    let empty = !occupied;
    let king = pos.pieces[5] & us;
    let p = |m: Move| offers(pos, m, quiets);
    if king != 0 {
        lemma_lowest(king);
        let from = lowest(king);
        let reach = king_attack_spec(from);
        if quiets {
            assert forall|to: u8| to < 64 && holds(reach & empty, to) implies p(
                Move { from, to, flags: 0, piece: PieceType::King },
            ) by {
                lemma_holds_ops(reach, empty, to);
                lemma_holds_ops(occupied, occupied, to);
                lemma_holds_ops(us, them, to);
                lemma_holds_ops(them, us, to);
                assert(offers_king_move(pos, Move { from, to, flags: 0, piece: PieceType::King }, quiets));
            }
            lemma_moves_to(from, reach & empty, 0, PieceType::King, p);
        }
        assert forall|to: u8| to < 64 && holds(reach & them, to) implies p(
            Move { from, to, flags: 4, piece: PieceType::King },
        ) by {
            lemma_holds_ops(reach, them, to);
            assert(offers_king_move(pos, Move { from, to, flags: 4, piece: PieceType::King }, quiets));
        }
        lemma_moves_to(from, reach & them, 4, PieceType::King, p);
        if quiets {
            lemma_all_concat(
                moves_to(from, reach & empty, 0, PieceType::King),
                moves_to(from, reach & them, 4, PieceType::King),
                p,
            );
        } else {
            assert(Seq::<Move>::empty() + moves_to(from, reach & them, 4, PieceType::King) =~= moves_to(
                from,
                reach & them,
                4,
                PieceType::King,
            ));
        }
    }
}

/// What the back rank says of the squares beside a king on its home square.
proof fn lemma_back_rank(empty: u64, side: PieceColor, k: u8)
    requires
        k < 64,
    ensures
        back_rank(empty, side) & QUEENSIDE_CASTLE == 0 && (k == king_home(side.idx()) - 1 || k
            == king_home(side.idx()) - 2 || k == king_home(side.idx()) - 3) ==> holds(empty, k),
        back_rank(empty, side) & KINGSIDE_CASTLE == 0 && (k == king_home(side.idx()) + 1 || k
            == king_home(side.idx()) + 2) ==> holds(empty, k),
{
    assert({
        &&& ((!empty) & 0xff) & 0xe == 0 && (k == 1 || k == 2 || k == 3) ==> empty & (1u64 << k) != 0
        &&& ((!empty) & 0xff) & 0x60 == 0 && (k == 5 || k == 6) ==> empty & (1u64 << k) != 0
        &&& (((!empty) >> 56) & 0xff) & 0xe == 0 && (k == 57 || k == 58 || k == 59) ==> empty & (1u64
            << k) != 0
        &&& (((!empty) >> 56) & 0xff) & 0x60 == 0 && (k == 61 || k == 62) ==> empty & (1u64 << k) != 0
    }) by (bit_vector)
        requires
            k < 64,
    ;
}

/// Every castling move is one that the position offers.
proof fn lemma_castling_moves(pos: Position)
    ensures
        !pos.in_check_spec(pos.side) ==> all_of(
            castling_moves_spec(
                pos,
                pos.pieces[5] & pos.colors[pos.side.idx()],
                !(pos.colors[0] | pos.colors[1]),
            ),
            |m: Move| offers(pos, m, true),
        ),
{
    let s = pos.side.idx();
    let us = pos.colors[s];
    let occupied = pos.colors[0] | pos.colors[1];
    let empty = !occupied;
    let king = pos.pieces[5] & us;
    let home = king_home(s);
    let p = |m: Move| offers(pos, m, true);
    let list = castling_moves_spec(pos, king, empty);
    if !pos.in_check_spec(pos.side) {
        assert forall|i: int| 0 <= i < list.len() implies p(#[trigger] list[i]) by {
            let m = list[i];
            lemma_back_rank(empty, pos.side, (home - 1) as u8);
            lemma_back_rank(empty, pos.side, (home - 2) as u8);
            lemma_back_rank(empty, pos.side, (home - 3) as u8);
            lemma_back_rank(empty, pos.side, (home + 1) as u8);
            lemma_back_rank(empty, pos.side, (home + 2) as u8);
            lemma_holds_ops(occupied, occupied, (home - 1) as u8);
            lemma_holds_ops(occupied, occupied, (home - 2) as u8);
            lemma_holds_ops(occupied, occupied, (home - 3) as u8);
            lemma_holds_ops(occupied, occupied, (home + 1) as u8);
            lemma_holds_ops(occupied, occupied, (home + 2) as u8);
            assert(offers_castling(pos, m, true));
        }
    }
}

/// Membership in the ranks that matter to pawns.
pub proof fn lemma_pawn_ranks(k: u8)
    requires
        k < 64,
    ensures
        holds(crate::bitboard::RANK_2, k) == (8 <= k < 16),
        holds(crate::bitboard::RANK_7, k) == (48 <= k < 56),
        holds(crate::bitboard::RANK_4, k) == (24 <= k < 32),
        holds(crate::bitboard::RANK_5, k) == (32 <= k < 40),
        holds(crate::bitboard::FILE_A, k) == (k % 8 == 0),
        holds(crate::bitboard::FILE_H, k) == (k % 8 == 7),
{
    assert({
        &&& (0x000000000000ff00u64 & (1u64 << k) != 0) == (8 <= k < 16)
        &&& (0x00ff000000000000u64 & (1u64 << k) != 0) == (48 <= k < 56)
        &&& (0x00000000ff000000u64 & (1u64 << k) != 0) == (24 <= k < 32)
        &&& (0x000000ff00000000u64 & (1u64 << k) != 0) == (32 <= k < 40)
        &&& (0x0101010101010101u64 & (1u64 << k) != 0) == (k % 8 == 0)
        &&& (0x8080808080808080u64 & (1u64 << k) != 0) == (k % 8 == 7)
    }) by (bit_vector)
        requires
            k < 64,
    ;
}

/// Every move of `steps` satisfies `p` if the move, or the four promotions,
/// from each square of the board do.
proof fn lemma_steps(froms: u64, delta: int, flags: u8, p: spec_fn(Move) -> bool)
    requires
        forall|from: u8| from < 64 && holds(froms, from) ==> all_of(
            #[trigger] step_moves(from, (from + delta) as u8, flags),
            p,
        ),
    ensures
        all_of(steps(froms, delta, flags), p),
{
    let f = step_from(delta, flags);
    assert forall|sq: u8| sq < 64 && holds(froms, sq) implies all_of(#[trigger] f(sq), p) by {
        assert(all_of(step_moves(sq, (sq + delta) as u8, flags), p));
    }
    lemma_each_square(froms, f, p);
}

/// Every move of `plain_steps` satisfies `p` if the move from each square of the board does.
proof fn lemma_plain_steps(froms: u64, delta: int, to: u8, flags: u8, p: spec_fn(Move) -> bool)
    requires
        forall|from: u8|
            from < 64 && holds(froms, from) ==> p(
                Move {
                    from,
                    to: if to == NO_SQUARE {
                        (from + delta) as u8
                    } else {
                        to
                    },
                    flags,
                    piece: PieceType::Pawn,
                },
            ),
    ensures
        all_of(plain_steps(froms, delta, to, flags), p),
{
    let f = plain_from(delta, to, flags);
    assert forall|sq: u8| sq < 64 && holds(froms, sq) implies all_of(#[trigger] f(sq), p) by {
        assert(f(sq)[0] == Move {
            from: sq,
            to: if to == NO_SQUARE {
                (sq + delta) as u8
            } else {
                to
            },
            flags,
            piece: PieceType::Pawn,
        });
    }
    lemma_each_square(froms, f, p);
}

/// Every move of the pawns is one that the position offers.
proof fn lemma_pawn_moves(pos: Position, quiets: bool)
    ensures
        all_of(
            pawn_moves_spec(
                pos.pieces[0] & pos.colors[pos.side.idx()],
                !(pos.colors[0] | pos.colors[1]),
                pos.colors[pos.side.other().idx()],
                pos.en_passant,
                pos.side,
                quiets,
            ),
            |m: Move| offers(pos, m, quiets),
        ),
{
    let side = pos.side;
    let us = pos.colors[side.idx()];
    let them = pos.colors[side.other().idx()];
    let occupied = pos.colors[0] | pos.colors[1];
    let empty = !occupied;
    let pawns = pos.pieces[0] & us;
    let ep = pos.en_passant;
    let p = |m: Move| offers(pos, m, quiets);
    let ahead = advance(side);
    let single = steps(pushable(pawns, side, empty), ahead, 0);
    let double = plain_steps(double_pushable(pawns, side, empty), 2 * ahead, NO_SQUARE, 1);
    let left = steps(left_attackers(pawns, side, them), capture_step(side, 7), 4);
    let right = steps(right_attackers(pawns, side, them), capture_step(side, 9), 4);
    let passing = en_passant_spec(pawns, side, ep);
    let behind = crate::movegen::pawn::backward(side, empty);
    let behind2 = crate::movegen::pawn::backward(side, behind);
    if quiets {
        assert forall|from: u8| from < 64 && holds(pushable(pawns, side, empty), from) implies all_of(
            #[trigger] step_moves(from, (from + ahead) as u8, 0),
            p,
        ) by {
            lemma_holds_ops(pawns, behind, from);
            lemma_holds_ops(pos.pieces[0], us, from);
            lemma_holds_shift(empty, from);
            let to = (from + ahead) as u8;
            lemma_holds_ops(occupied, occupied, to);
            let list = step_moves(from, to, 0);
            assert forall|i: int| 0 <= i < list.len() implies p(#[trigger] list[i]) by {
                assert(offers_pawn_move(pos, list[i], quiets));
            }
        }
        lemma_steps(pushable(pawns, side, empty), ahead, 0, p);
        assert forall|from: u8| from < 64 && holds(double_pushable(pawns, side, empty), from) implies p(
            Move { from, to: (from + 2 * ahead) as u8, flags: 1, piece: PieceType::Pawn },
        ) by {
            lemma_holds_ops(pawns & behind & start_rank(side), behind2, from);
            lemma_holds_ops(pawns & behind, start_rank(side), from);
            lemma_holds_ops(pawns, behind, from);
            lemma_holds_ops(pos.pieces[0], us, from);
            lemma_holds_shift(empty, from);
            lemma_holds_shift(behind, from);
            lemma_pawn_ranks(from);
            let mid = (from + ahead) as u8;
            let to = (from + 2 * ahead) as u8;
            lemma_holds_shift(empty, mid);
            lemma_holds_ops(occupied, occupied, to);
            lemma_holds_ops(occupied, occupied, mid);
            assert(offers_pawn_move(
                pos,
                Move { from, to, flags: 1, piece: PieceType::Pawn },
                quiets,
            ));
        }
        lemma_plain_steps(double_pushable(pawns, side, empty), 2 * ahead, NO_SQUARE, 1, p);
        lemma_all_concat(single, double, p);
    }
    assert forall|from: u8| from < 64 && holds(left_attackers(pawns, side, them), from) implies all_of(
        #[trigger] step_moves(from, (from + capture_step(side, 7)) as u8, 4),
        p,
    ) by {
        lemma_pawn_ranks(from);
        lemma_holds_plain_shift(them, 7, from);
        lemma_holds_ops(pos.pieces[0], us, from);
        match side {
            PieceColor::White => {
                lemma_holds_ops(pawns & !crate::bitboard::FILE_A, them >> 7, from);
                lemma_holds_ops(pawns, !crate::bitboard::FILE_A, from);
                lemma_holds_ops(crate::bitboard::FILE_A, 0, from);
            },
            PieceColor::Black => {
                lemma_holds_ops(pawns & !crate::bitboard::FILE_H, them << 7, from);
                lemma_holds_ops(pawns, !crate::bitboard::FILE_H, from);
                lemma_holds_ops(crate::bitboard::FILE_H, 0, from);
            },
        }
        let to = (from + capture_step(side, 7)) as u8;
        let list = step_moves(from, to, 4);
        assert forall|i: int| 0 <= i < list.len() implies p(#[trigger] list[i]) by {
            assert(offers_pawn_move(pos, list[i], quiets));
        }
    }
    lemma_steps(left_attackers(pawns, side, them), capture_step(side, 7), 4, p);
    assert forall|from: u8| from < 64 && holds(right_attackers(pawns, side, them), from) implies all_of(
        #[trigger] step_moves(from, (from + capture_step(side, 9)) as u8, 4),
        p,
    ) by {
        lemma_pawn_ranks(from);
        lemma_holds_plain_shift(them, 9, from);
        lemma_holds_ops(pos.pieces[0], us, from);
        match side {
            PieceColor::White => {
                lemma_holds_ops(pawns & !crate::bitboard::FILE_H, them >> 9, from);
                lemma_holds_ops(pawns, !crate::bitboard::FILE_H, from);
                lemma_holds_ops(crate::bitboard::FILE_H, 0, from);
            },
            PieceColor::Black => {
                lemma_holds_ops(pawns & !crate::bitboard::FILE_A, them << 9, from);
                lemma_holds_ops(pawns, !crate::bitboard::FILE_A, from);
                lemma_holds_ops(crate::bitboard::FILE_A, 0, from);
            },
        }
        let to = (from + capture_step(side, 9)) as u8;
        let list = step_moves(from, to, 4);
        assert forall|i: int| 0 <= i < list.len() implies p(#[trigger] list[i]) by {
            assert(offers_pawn_move(pos, list[i], quiets));
        }
    }
    lemma_steps(right_attackers(pawns, side, them), capture_step(side, 9), 4, p);
    lemma_all_concat(left, right, p);
    if ep < 64 {
        let capturers = ep_capturers(pawns, side, ep);
        assert forall|from: u8| from < 64 && holds(capturers, from) implies p(
            Move { from, to: ep, flags: 5, piece: PieceType::Pawn },
        ) by {
            let ep_bit = bit(ep);
            let seven = crate::movegen::pawn::shift_spec(side.other(), ep_bit, 7);
            let nine = crate::movegen::pawn::shift_spec(side.other(), ep_bit, 9);
            lemma_holds_ops(pawns & (seven | nine), ep_rank(side), from);
            lemma_holds_ops(pawns, seven | nine, from);
            lemma_holds_ops(seven, nine, from);
            lemma_holds_ops(pos.pieces[0], us, from);
            lemma_holds_plain_shift(ep_bit, 7, from);
            lemma_holds_plain_shift(ep_bit, 9, from);
            lemma_pawn_ranks(from);
            if from + 7 < 64 {
                lemma_holds_bit(ep, (from + 7) as u8);
            }
            if from + 9 < 64 {
                lemma_holds_bit(ep, (from + 9) as u8);
            }
            if from >= 7 {
                lemma_holds_bit(ep, (from - 7) as u8);
            }
            if from >= 9 {
                lemma_holds_bit(ep, (from - 9) as u8);
            }
            assert(offers_pawn_move(
                pos,
                Move { from, to: ep, flags: 5, piece: PieceType::Pawn },
                quiets,
            ));
        }
        lemma_plain_steps(capturers, 0, ep, 5, p);
    }
    if quiets {
        lemma_all_concat(single + double, left + right, p);
        lemma_all_concat(single + double + (left + right), passing, p);
    } else {
        assert(Seq::<Move>::empty() + (left + right) =~= left + right);
        lemma_all_concat(left + right, passing, p);
    }
}

/// Every move that the generator lists is one that the position offers.
pub proof fn lemma_movegen_offers(pos: Position, quiets: bool)
    ensures
        all_of(movegen_spec(pos, quiets), |m: Move| offers(pos, m, quiets)),
{
    let p = |m: Move| offers(pos, m, quiets);
    let us = pos.colors[pos.side.idx()];
    let them = pos.colors[pos.side.other().idx()];
    let empty = !(pos.colors[0] | pos.colors[1]);
    lemma_kind_moves(pos, PieceType::Queen, quiets);
    lemma_kind_moves(pos, PieceType::Rook, quiets);
    lemma_kind_moves(pos, PieceType::Bishop, quiets);
    lemma_kind_moves(pos, PieceType::Knight, quiets);
    lemma_king_moves(pos, quiets);
    lemma_castling_moves(pos);
    lemma_pawn_moves(pos, quiets);
    let q = kind_moves(PieceType::Queen, pos.pieces[4] & us, us | them, !us, them, quiets);
    let r = kind_moves(PieceType::Rook, pos.pieces[3] & us, us | them, !us, them, quiets);
    let b = kind_moves(PieceType::Bishop, pos.pieces[2] & us, us | them, !us, them, quiets);
    let n = kind_moves(PieceType::Knight, pos.pieces[1] & us, 0, !us, them, quiets);
    let c = if quiets && !pos.in_check_spec(pos.side) {
        castling_moves_spec(pos, pos.pieces[5] & us, empty)
    } else {
        Seq::empty()
    };
    let pw = pawn_moves_spec(pos.pieces[0] & us, empty, them, pos.en_passant, pos.side, quiets);
    let k = king_moves_spec(pos.pieces[5] & us, empty, them, quiets);
    lemma_all_concat(q, r, p);
    lemma_all_concat(q + r, b, p);
    lemma_all_concat(q + r + b, n, p);
    lemma_all_concat(q + r + b + n, c, p);
    lemma_all_concat(q + r + b + n + c, pw, p);
    lemma_all_concat(q + r + b + n + c + pw, k, p);
}

/// The machine can play every move that the position offers, as long as the
/// clock can still count.
pub proof fn lemma_offers_admits(pos: Position, m: Move, quiets: bool)
    requires
        offers(pos, m, quiets),
        pos.halfmove < 255,
    ensures
        pos.admits(m),
        !quiets ==> m.is_capture(),
        m != Move::null(),
{
    crate::position::lemma_flag_bits(if m.flags < 16 { m.flags } else { 0 });
    if offers_pawn_move(pos, m, quiets) {
        lemma_pawn_ranks(m.from);
    }
    if offers_king_move(pos, m, quiets) {
        let king = pos.pieces[5] & pos.colors[pos.side.idx()];
        lemma_lowest(king);
        crate::bitboard::lemma_board_below(|k: u8| crate::movegen::king::king_step(m.from, k), 64, m.to);
    }
    if offers_piece_move(pos, m, quiets) {
    }
}

/// The machine can play every move that the generator lists, as long as the
/// clock can still count; none of them is the null move; and without quiet
/// moves every one of them is a capture.
pub proof fn lemma_movegen_admitted(pos: Position, quiets: bool)
    requires
        pos.halfmove < 255,
    ensures
        forall|i: int|
            0 <= i < movegen_spec(pos, quiets).len() ==> {
                let m = #[trigger] movegen_spec(pos, quiets)[i];
                pos.admits(m) && m != Move::null() && (!quiets ==> m.is_capture())
            },
{
    lemma_movegen_offers(pos, quiets);
    let list = movegen_spec(pos, quiets);
    assert forall|i: int| 0 <= i < list.len() implies {
        let m = #[trigger] list[i];
        pos.admits(m) && m != Move::null() && (!quiets ==> m.is_capture())
    } by {
        assert(offers(pos, list[i], quiets));
        lemma_offers_admits(pos, list[i], quiets);
    }
}

/// A capture whose target holds a king. No position of a game offers one:
/// the side that has moved is never left in check.
pub open spec fn takes_king(pos: Position, m: Move) -> bool {
    m.is_capture() && m.flags != 5 && holds(pos.pieces[5], m.to)
}

/// Every move that a consistent position offers fits it, unless it takes a king.
pub proof fn lemma_offers_fits(pos: Position, m: Move, quiets: bool)
    requires
        pos.wf(),
        pos.halfmove < 255,
        offers(pos, m, quiets),
        !takes_king(pos, m),
    ensures
        pos.fits(m),
{
    let s = pos.side.idx();
    let t = pos.side.other().idx();
    let us = pos.colors[s];
    let them = pos.colors[t];
    let occupied = pos.colors[0] | pos.colors[1];
    lemma_offers_admits(pos, m, quiets);
    crate::position::lemma_flag_bits(if m.flags < 16 { m.flags } else { 0 });
    assert(pos.square_ok(m.from));
    assert(pos.square_ok(m.to));
    lemma_holds_ops(pos.colors[0], pos.colors[1], m.to);
    lemma_holds_ops(us, them, m.to);
    if offers_king_move(pos, m, quiets) {
        let king = pos.pieces[5] & us;
        lemma_lowest(king);
        lemma_holds_ops(pos.pieces[5], us, m.from);
        assert(pos.fits(m));
    } else if offers_castling(pos, m, quiets) {
        let king = pos.pieces[5] & us;
        let home = king_home(s);
        lemma_lowest(king);
        lemma_holds_ops(pos.pieces[5], us, m.from);
        lemma_holds_ops(pos.colors[0], pos.colors[1], (home - 1) as u8);
        lemma_holds_ops(pos.colors[0], pos.colors[1], (home - 2) as u8);
        lemma_holds_ops(pos.colors[0], pos.colors[1], (home + 1) as u8);
        lemma_holds_ops(pos.colors[0], pos.colors[1], (home + 2) as u8);
        assert(pos.right_ok(s, 0));
        assert(pos.right_ok(s, 1));
        assert(pos.fits(m));
    } else if offers_pawn_move(pos, m, quiets) {
        lemma_pawn_ranks(m.from);
        let mid = (m.from + advance(pos.side)) as u8;
        if m.flags == 1 {
            lemma_holds_ops(pos.colors[0], pos.colors[1], mid);
        }
        assert(pos.ep_ok());
        assert(pos.fits(m));
    } else {
        assert(pos.fits(m));
    }
}

/// Playing a move that the generator lists keeps a consistent position
/// consistent, unless the move takes a king: the boards of the six kinds
/// still partition the occupied squares, which are the old ones with the
/// squares of the move flipped.
pub proof fn lemma_generated_move_keeps_wf(pos: Position, quiets: bool, i: int)
    requires
        pos.wf(),
        pos.halfmove < 255,
        0 <= i < movegen_spec(pos, quiets).len(),
        !takes_king(pos, movegen_spec(pos, quiets)[i]),
    ensures
        pos.fits(movegen_spec(pos, quiets)[i]),
        pos.make_move_spec(movegen_spec(pos, quiets)[i]).wf(),
        pos.make_move_spec(movegen_spec(pos, quiets)[i]).occupied() == pos.occupied()
            ^ pos.occupancy_change(movegen_spec(pos, quiets)[i]),
{
    let m = movegen_spec(pos, quiets)[i];
    lemma_movegen_offers(pos, quiets);
    assert(offers(pos, m, quiets));
    lemma_offers_fits(pos, m, quiets);
    crate::position::lemma_make_move_wf(pos, m);
}

/// A slider that sees a square along a ray is seen from that square along
/// the opposite ray.
pub proof fn lemma_ray_symmetric(a: u8, k: u8, df: int, dr: int, blockers: u64)
    requires
        a < 64,
        k < 64,
        -1 <= df <= 1,
        -1 <= dr <= 1,
        df != 0 || dr != 0,
        ray_sees(a, k, df, dr, blockers),
    ensures
        ray_sees(k, a, -df, -dr, blockers),
{
    assert(on_ray(k, a, -df, -dr));
    assert forall|j: u8| j < 64 && on_ray(k, j, -df, -dr) && dist(k, j) < dist(k, a) implies !holds(
        blockers,
        j,
    ) by {
        assert(on_ray(a, j, df, dr) && dist(a, j) < dist(a, k));
    }
}

/// What a rook sees, it is seen from; and so for a bishop.
pub proof fn lemma_sliders_symmetric(a: u8, k: u8, blockers: u64)
    requires
        a < 64,
        k < 64,
    ensures
        rook_sees(a, k, blockers) ==> rook_sees(k, a, blockers),
        bishop_sees(a, k, blockers) ==> bishop_sees(k, a, blockers),
{
    if ray_sees(a, k, 0, 1, blockers) {
        lemma_ray_symmetric(a, k, 0, 1, blockers);
    }
    if ray_sees(a, k, 0, -1, blockers) {
        lemma_ray_symmetric(a, k, 0, -1, blockers);
    }
    if ray_sees(a, k, 1, 0, blockers) {
        lemma_ray_symmetric(a, k, 1, 0, blockers);
    }
    if ray_sees(a, k, -1, 0, blockers) {
        lemma_ray_symmetric(a, k, -1, 0, blockers);
    }
    if ray_sees(a, k, 1, 1, blockers) {
        lemma_ray_symmetric(a, k, 1, 1, blockers);
    }
    if ray_sees(a, k, -1, 1, blockers) {
        lemma_ray_symmetric(a, k, -1, 1, blockers);
    }
    if ray_sees(a, k, 1, -1, blockers) {
        lemma_ray_symmetric(a, k, 1, -1, blockers);
    }
    if ray_sees(a, k, -1, -1, blockers) {
        lemma_ray_symmetric(a, k, -1, -1, blockers);
    }
}

/// The piece that a capture is made with attacks the square it captures on.
pub proof fn lemma_capture_attacks(pos: Position, m: Move, quiets: bool)
    requires
        offers(pos, m, quiets),
        m.is_capture(),
        m.flags != 5,
        pos.halfmove < 255,
    ensures
        m.from < 64,
        m.to < 64,
        holds(attackers(pos, m.to, pos.side), m.from),
{
    let side = pos.side;
    let us = pos.colors[side.idx()];
    let them = pos.colors[side.other().idx()];
    let occ = pos.colors[0] | pos.colors[1];
    crate::bitboard::lemma_or_commutes(pos.colors[0], pos.colors[1]);
    assert(occ == us | them);
    lemma_offers_admits(pos, m, quiets);
    crate::position::lemma_flag_bits(if m.flags < 16 { m.flags } else { 0 });
    let from = m.from;
    let to = m.to;
    let rooks = (pos.pieces[3] | pos.pieces[4]) & us & rook_attack_spec(to, occ);
    let bishops = (pos.pieces[2] | pos.pieces[4]) & us & bishop_attack_spec(to, occ);
    let knights = pos.pieces[1] & us & knight_attack_spec(to);
    let pawns = pos.pieces[0] & us & pawn_attack_spec(side.other(), to);
    let kings = pos.pieces[5] & us & king_attack_spec(to);
    lemma_holds_ops(rooks, bishops, from);
    lemma_holds_ops(rooks | bishops, knights, from);
    lemma_holds_ops(rooks | bishops | knights, pawns, from);
    lemma_holds_ops(rooks | bishops | knights | pawns, kings, from);
    lemma_holds_ops((pos.pieces[3] | pos.pieces[4]) & us, rook_attack_spec(to, occ), from);
    lemma_holds_ops(pos.pieces[3] | pos.pieces[4], us, from);
    lemma_holds_ops(pos.pieces[3], pos.pieces[4], from);
    lemma_holds_ops((pos.pieces[2] | pos.pieces[4]) & us, bishop_attack_spec(to, occ), from);
    lemma_holds_ops(pos.pieces[2] | pos.pieces[4], us, from);
    lemma_holds_ops(pos.pieces[2], pos.pieces[4], from);
    lemma_holds_ops(pos.pieces[1] & us, knight_attack_spec(to), from);
    lemma_holds_ops(pos.pieces[1], us, from);
    lemma_holds_ops(pos.pieces[0] & us, pawn_attack_spec(side.other(), to), from);
    lemma_holds_ops(pos.pieces[0], us, from);
    lemma_holds_ops(pos.pieces[5] & us, king_attack_spec(to), from);
    lemma_holds_ops(pos.pieces[5], us, from);
    crate::bitboard::lemma_board_below(|k: u8| rook_sees(to, k, occ), 64, from);
    crate::bitboard::lemma_board_below(|k: u8| bishop_sees(to, k, occ), 64, from);
    crate::bitboard::lemma_board_below(|k: u8| knight_step(to, k), 64, from);
    crate::bitboard::lemma_board_below(|k: u8| pawn_hits(side.other(), to, k), 64, from);
    crate::bitboard::lemma_board_below(|k: u8| crate::movegen::king::king_step(to, k), 64, from);
    crate::bitboard::lemma_board_below(|k: u8| rook_sees(from, k, occ), 64, to);
    crate::bitboard::lemma_board_below(|k: u8| bishop_sees(from, k, occ), 64, to);
    crate::bitboard::lemma_board_below(|k: u8| knight_step(from, k), 64, to);
    crate::bitboard::lemma_board_below(|k: u8| crate::movegen::king::king_step(from, k), 64, to);
    lemma_sliders_symmetric(from, to, occ);
    if offers_piece_move(pos, m, quiets) {
        lemma_holds_ops(rook_attack_spec(from, occ), bishop_attack_spec(from, occ), to);
    } else if offers_king_move(pos, m, quiets) {
        let king = pos.pieces[5] & us;
        lemma_lowest(king);
        lemma_holds_ops(pos.pieces[5], us, from);
    } else if offers_pawn_move(pos, m, quiets) {
    }
}

impl Position {
    /// Each side has one king.
    pub open spec fn has_kings(self) -> bool {
        &&& exists|k: u8| k < 64 && self.king_on(PieceColor::White, k)
        &&& exists|k: u8| k < 64 && self.king_on(PieceColor::Black, k)
    }

    /// The one king of `color` stands on `k`.
    pub open spec fn king_on(self, color: PieceColor, k: u8) -> bool {
        forall|j: u8| j < 64 ==> (holds(self.pieces[5] & self.colors[color.idx()], j) <==> j == k)
    }

    /// The position is one of a game: it is consistent, each side has one
    /// king, and the side that has moved is not in check.
    pub open spec fn valid(self) -> bool {
        &&& self.wf()
        &&& self.has_kings()
        &&& !self.in_check_spec(self.side.other())
        &&& self.halfmove < 255
    }
}

/// Where the one king of a side stands is the lowest square of its board.
pub proof fn lemma_king_is_lowest(pos: Position, color: PieceColor, k: u8)
    requires
        k < 64,
        pos.king_on(color, k),
    ensures
        pos.pieces[5] & pos.colors[color.idx()] != 0,
        lowest(pos.pieces[5] & pos.colors[color.idx()]) == k,
{
    let king = pos.pieces[5] & pos.colors[color.idx()];
    assert(holds(king, k));
    if king == 0 {
        lemma_holds_ops(0, 0, k);
    }
    lemma_lowest(king);
}

/// In a position of a game no move that is offered takes a king.
pub proof fn lemma_no_king_is_taken(pos: Position, m: Move, quiets: bool)
    requires
        pos.valid(),
        offers(pos, m, quiets),
    ensures
        !takes_king(pos, m),
{
    if takes_king(pos, m) {
        let side = pos.side;
        let them = pos.colors[side.other().idx()];
        lemma_capture_attacks(pos, m, quiets);
        lemma_offers_admits(pos, m, quiets);
        crate::position::lemma_flag_bits(if m.flags < 16 { m.flags } else { 0 });
        assert(holds(them, m.to)) by {
            lemma_holds_ops(pos.colors[0], pos.colors[1], m.to);
            if offers_king_move(pos, m, quiets) {
            }
        }
        lemma_holds_ops(pos.pieces[5], them, m.to);
        let k = choose|k: u8| k < 64 && pos.king_on(side.other(), k);
        assert(k == m.to);
        lemma_king_is_lowest(pos, side.other(), k);
        let at = attackers(pos, m.to, side);
        if at == 0 {
            lemma_holds_ops(0, 0, m.from);
        }
        assert(pos.in_check_spec(side.other()));
    }
}

/// Playing a legal move in a position of a game gives a position of a game,
/// as long as the clock can still count: the boards stay consistent, each
/// side keeps its one king, and the side that has moved is not in check.
pub proof fn lemma_legal_move_keeps_valid(pos: Position, m: Move)
    requires
        pos.valid(),
        movegen_spec(pos, true).contains(m),
        !pos.make_move_spec(m).in_check_spec(pos.side),
        pos.make_move_spec(m).halfmove < 255,
    ensures
        pos.fits(m),
        pos.make_move_spec(m).valid(),
{
    let next = pos.make_move_spec(m);
    lemma_movegen_offers(pos, true);
    assert(offers(pos, m, true));
    lemma_no_king_is_taken(pos, m, true);
    lemma_offers_fits(pos, m, true);
    crate::position::lemma_make_move_wf(pos, m);
    crate::position::lemma_flag_bits(m.flags);
    let w = choose|k: u8| k < 64 && pos.king_on(PieceColor::White, k);
    let b = choose|k: u8| k < 64 && pos.king_on(PieceColor::Black, k);
    lemma_kings_after(pos, m, PieceColor::White, w);
    lemma_kings_after(pos, m, PieceColor::Black, b);
}

/// After a move that fits, the king of `color` stands where the move has put
/// it: on the target if it is the king that moved, else where it stood.
pub proof fn lemma_kings_after(pos: Position, m: Move, color: PieceColor, k: u8)
    requires
        pos.wf(),
        pos.fits(m),
        k < 64,
        pos.king_on(color, k),
    ensures
        pos.make_move_spec(m).king_on(
            color,
            if color == pos.side && m.piece == PieceType::King {
                m.to
            } else {
                k
            },
        ),
{
    let next = pos.make_move_spec(m);
    let target = if color == pos.side && m.piece == PieceType::King {
        m.to
    } else {
        k
    };
    crate::position::lemma_make_move_wf(pos, m);
    crate::position::lemma_flag_bits(m.flags);
    assert forall|j: u8| j < 64 implies (holds(next.pieces[5] & next.colors[color.idx()], j) <==> j
        == target) by {
        lemma_holds_ops(next.pieces[5], next.colors[color.idx()], j);
        lemma_holds_ops(pos.pieces[5], pos.colors[color.idx()], j);
        lemma_holds_ops(pos.pieces[5], pos.colors[color.idx()], m.from);
        lemma_holds_ops(pos.pieces[5], pos.colors[color.idx()], m.to);
        assert(next.piece_on(j) == pos.piece_after(m, j));
        assert(next.square_ok(j));
        assert(pos.square_ok(j));
        assert(pos.square_ok(m.from));
        assert(pos.square_ok(m.to));
        if m.flags == 5 {
            assert(pos.square_ok(crate::position::ep_victim(pos.en_passant, pos.side)));
        }
        if m.flags == 2 || m.flags == 3 {
            assert(pos.square_ok(Position::rook_from(m)));
            assert(pos.square_ok(Position::rook_to(m)));
        }
    }
}

/// Every move that the generator lists for a position of a game fits it,
/// and playing it leaves the boards in order: the boards of the six kinds
/// partition the occupied squares, which are the old ones with the squares of
/// the move flipped.
pub proof fn lemma_generated_move_fits(pos: Position, quiets: bool, i: int)
    requires
        pos.valid(),
        0 <= i < movegen_spec(pos, quiets).len(),
    ensures
        pos.fits(movegen_spec(pos, quiets)[i]),
        pos.make_move_spec(movegen_spec(pos, quiets)[i]).wf(),
        pos.make_move_spec(movegen_spec(pos, quiets)[i]).occupied() == pos.occupied()
            ^ pos.occupancy_change(movegen_spec(pos, quiets)[i]),
{
    let m = movegen_spec(pos, quiets)[i];
    lemma_movegen_offers(pos, quiets);
    assert(offers(pos, m, quiets));
    lemma_no_king_is_taken(pos, m, quiets);
    lemma_generated_move_keeps_wf(pos, quiets, i);
}

/// The position from which a game begins is a position of a game.
pub proof fn lemma_startpos_valid()
    ensures
        Position::startpos_spec().valid(),
{
    let pos = Position::startpos_spec();
    crate::position::lemma_startpos_wf();
    assert forall|j: u8| j < 64 implies (holds(pos.pieces[5] & pos.colors[0], j) <==> j == 4) by {
        crate::position::lemma_startpos_boards(j);
        lemma_holds_ops(pos.pieces[5], pos.colors[0], j);
    }
    assert(pos.king_on(PieceColor::White, 4));
    assert forall|j: u8| j < 64 implies (holds(pos.pieces[5] & pos.colors[1], j) <==> j == 60) by {
        crate::position::lemma_startpos_boards(j);
        lemma_holds_ops(pos.pieces[5], pos.colors[1], j);
    }
    assert(pos.king_on(PieceColor::Black, 60));
    lemma_king_is_lowest(pos, PieceColor::Black, 60);
    let occ = pos.colors[0] | pos.colors[1];
    let us = pos.colors[0];
    let at = attackers(pos, 60, PieceColor::White);
    assert forall|k: u8| k < 64 implies !holds(at, k) by {
        crate::position::lemma_startpos_boards(k);
        crate::position::lemma_startpos_boards(52);
        crate::position::lemma_startpos_boards(51);
        crate::position::lemma_startpos_boards(53);
        lemma_holds_ops(pos.colors[0], pos.colors[1], 52);
        lemma_holds_ops(pos.colors[0], pos.colors[1], 51);
        lemma_holds_ops(pos.colors[0], pos.colors[1], 53);
        let rooks = (pos.pieces[3] | pos.pieces[4]) & us & rook_attack_spec(60, occ);
        let bishops = (pos.pieces[2] | pos.pieces[4]) & us & bishop_attack_spec(60, occ);
        let knights = pos.pieces[1] & us & knight_attack_spec(60);
        let pawns = pos.pieces[0] & us & pawn_attack_spec(PieceColor::Black, 60);
        let kings = pos.pieces[5] & us & king_attack_spec(60);
        lemma_holds_ops(rooks, bishops, k);
        lemma_holds_ops(rooks | bishops, knights, k);
        lemma_holds_ops(rooks | bishops | knights, pawns, k);
        lemma_holds_ops(rooks | bishops | knights | pawns, kings, k);
        lemma_holds_ops((pos.pieces[3] | pos.pieces[4]) & us, rook_attack_spec(60, occ), k);
        lemma_holds_ops(pos.pieces[3] | pos.pieces[4], us, k);
        lemma_holds_ops((pos.pieces[2] | pos.pieces[4]) & us, bishop_attack_spec(60, occ), k);
        lemma_holds_ops(pos.pieces[2] | pos.pieces[4], us, k);
        lemma_holds_ops(pos.pieces[1] & us, knight_attack_spec(60), k);
        lemma_holds_ops(pos.pieces[1], us, k);
        lemma_holds_ops(pos.pieces[0] & us, pawn_attack_spec(PieceColor::Black, 60), k);
        lemma_holds_ops(pos.pieces[0], us, k);
        lemma_holds_ops(pos.pieces[5] & us, king_attack_spec(60), k);
        lemma_holds_ops(pos.pieces[5], us, k);
        crate::bitboard::lemma_board_below(|j: u8| rook_sees(60, j, occ), 64, k);
        crate::bitboard::lemma_board_below(|j: u8| bishop_sees(60, j, occ), 64, k);
        crate::bitboard::lemma_board_below(|j: u8| knight_step(60, j), 64, k);
        crate::bitboard::lemma_board_below(|j: u8| pawn_hits(PieceColor::Black, 60, j), 64, k);
        crate::bitboard::lemma_board_below(|j: u8| crate::movegen::king::king_step(60, j), 64, k);
        if k < 16 {
            assert(on_ray(60, 52, 0, -1) && dist(60, 52) == 1);
            assert(on_ray(60, 51, -1, -1) && dist(60, 51) == 1);
            assert(on_ray(60, 53, 1, -1) && dist(60, 53) == 1);
            assert(holds(occ, 52) && holds(occ, 51) && holds(occ, 53));
            assert(dist(60, k) >= 6);
        }
    }
    assert forall|k: u8| k < 64 implies holds(at, k) == holds(0, k) by {
        lemma_holds_ops(0, 0, k);
    }
    crate::bitboard::lemma_board_ext(at, 0);
}

/// A move of either of two lists is a move of both together.
pub proof fn lemma_concat_has(a: Seq<Move>, b: Seq<Move>, x: Move)
    requires
        a.contains(x) || b.contains(x),
    ensures
        (a + b).contains(x),
{
    if a.contains(x) {
        let i = choose|i: int| 0 <= i < a.len() && a[i] == x;
        assert((a + b)[i] == x);
    } else {
        let i = choose|i: int| 0 <= i < b.len() && b[i] == x;
        assert((a + b)[a.len() + i] == x);
    }
}

/// A move of the list of one of the squares is a move of all the lists together.
pub proof fn lemma_for_each_has(s: Seq<u8>, f: spec_fn(u8) -> Seq<Move>, k: int, x: Move)
    requires
        0 <= k < s.len(),
        f(s[k]).contains(x),
    ensures
        for_each_square(s, f).contains(x),
    decreases s.len(),
{
    if k == 0 {
        lemma_concat_has(f(s[0]), for_each_square(s.drop_first(), f), x);
    } else {
        assert(s.drop_first()[k - 1] == s[k]);
        lemma_for_each_has(s.drop_first(), f, k - 1, x);
        lemma_concat_has(f(s[0]), for_each_square(s.drop_first(), f), x);
    }
}

/// A move of the list of a square of a board is a move of the lists of all
/// its squares together.
pub proof fn lemma_each_square_has(b: u64, f: spec_fn(u8) -> Seq<Move>, sq: u8, x: Move)
    requires
        sq < 64,
        holds(b, sq),
        f(sq).contains(x),
    ensures
        for_each_square(squares(b), f).contains(x),
{
    lemma_squares_below_members(b, 64);
    let s = squares(b);
    assert(s.contains(sq));
    let k = choose|k: int| 0 <= k < s.len() && s[k] == sq;
    lemma_for_each_has(s, f, k, x);
}

/// The move to a square of the targets is one of the moves to the targets.
pub proof fn lemma_moves_to_has(from: u8, targets: u64, flags: u8, piece: PieceType, to: u8)
    requires
        to < 64,
        holds(targets, to),
    ensures
        moves_to(from, targets, flags, piece).contains(Move { from, to, flags, piece }),
{
    let f = one_move(from, flags, piece);
    let m = Move { from, to, flags, piece };
    assert(f(to)[0] == m);
    lemma_each_square_has(targets, f, to, m);
}

/// A move of a queen, rook, bishop or knight that the position offers is
/// among those that are generated for its kind.
proof fn lemma_piece_move_generated(pos: Position, m: Move, quiets: bool)
    requires
        offers_piece_move(pos, m, quiets),
    ensures
        kind_moves(
            m.piece,
            pos.pieces[m.piece.idx()] & pos.colors[pos.side.idx()],
            if m.piece == PieceType::Knight {
                0
            } else {
                pos.colors[pos.side.idx()] | pos.colors[pos.side.other().idx()]
            },
            !pos.colors[pos.side.idx()],
            pos.colors[pos.side.other().idx()],
            quiets,
        ).contains(m),
{
    let kind = m.piece;
    let us = pos.colors[pos.side.idx()];
    let them = pos.colors[pos.side.other().idx()];
    let occ = if kind == PieceType::Knight {
        0
    } else {
        us | them
    };
    let pieces = pos.pieces[kind.idx()] & us;
    let f = kind_from(kind, occ, !us, them, quiets);
    let from = m.from;
    let to = m.to;
    lemma_holds_ops(pos.pieces[kind.idx()], us, from);
    let reach = attack_of(kind, from, occ) & !us;
    assert(attack_of(kind, from, occ) == attack_of(kind, from, us | them));
    lemma_holds_ops(attack_of(kind, from, occ), !us, to);
    lemma_holds_ops(us, us, to);
    lemma_holds_ops(reach, !them, to);
    lemma_holds_ops(reach, them, to);
    lemma_holds_ops(them, them, to);
    let quiet = if quiets {
        moves_to(from, reach & !them, 0, kind)
    } else {
        Seq::empty()
    };
    let captures = moves_to(from, reach & them, 4, kind);
    if m.flags == 0 {
        lemma_moves_to_has(from, reach & !them, 0, kind, to);
    } else {
        lemma_moves_to_has(from, reach & them, 4, kind, to);
    }
    lemma_concat_has(quiet, captures, m);
    assert(f(from) == piece_moves(from, reach, them, quiets, kind));
    lemma_each_square_has(pieces, f, from, m);
}

/// A move of the king that the position offers is among those that are generated.
proof fn lemma_king_move_generated(pos: Position, m: Move, quiets: bool)
    requires
        offers_king_move(pos, m, quiets),
    ensures
        king_moves_spec(
            pos.pieces[5] & pos.colors[pos.side.idx()],
            !(pos.colors[0] | pos.colors[1]),
            pos.colors[pos.side.other().idx()],
            quiets,
        ).contains(m),
{
    let us = pos.colors[pos.side.idx()];
    let them = pos.colors[pos.side.other().idx()];
    let occupied = pos.colors[0] | pos.colors[1];
    crate::bitboard::lemma_or_commutes(pos.colors[0], pos.colors[1]);
    assert(occupied == us | them);
    let empty = !occupied;
    let from = m.from;
    let to = m.to;
    let reach = king_attack_spec(from);
    lemma_holds_ops(reach, empty, to);
    lemma_holds_ops(reach, them, to);
    lemma_holds_ops(occupied, occupied, to);
    let quiet = if quiets {
        moves_to(from, reach & empty, 0, PieceType::King)
    } else {
        Seq::empty()
    };
    let captures = moves_to(from, reach & them, 4, PieceType::King);
    if m.flags == 0 {
        lemma_moves_to_has(from, reach & empty, 0, PieceType::King, to);
    } else {
        lemma_moves_to_has(from, reach & them, 4, PieceType::King, to);
    }
    lemma_concat_has(quiet, captures, m);
}

/// The squares beside a king on its home square that are vacant show as
/// such in the back rank.
proof fn lemma_back_rank_clear(empty: u64, side: PieceColor)
    ensures
        holds(empty, (king_home(side.idx()) - 1) as u8) && holds(
            empty,
            (king_home(side.idx()) - 2) as u8,
        ) && holds(empty, (king_home(side.idx()) - 3) as u8) ==> back_rank(empty, side)
            & QUEENSIDE_CASTLE == 0,
        holds(empty, (king_home(side.idx()) + 1) as u8) && holds(
            empty,
            (king_home(side.idx()) + 2) as u8,
        ) ==> back_rank(empty, side) & KINGSIDE_CASTLE == 0,
{
    assert({
        &&& empty & (1u64 << 1u8) != 0 && empty & (1u64 << 2u8) != 0 && empty & (1u64 << 3u8) != 0
            ==> ((!empty) & 0xff) & 0xe == 0
        &&& empty & (1u64 << 5u8) != 0 && empty & (1u64 << 6u8) != 0 ==> ((!empty) & 0xff) & 0x60 == 0
        &&& empty & (1u64 << 57u8) != 0 && empty & (1u64 << 58u8) != 0 && empty & (1u64 << 59u8) != 0
            ==> (((!empty) >> 56) & 0xff) & 0xe == 0
        &&& empty & (1u64 << 61u8) != 0 && empty & (1u64 << 62u8) != 0 ==> (((!empty) >> 56) & 0xff)
            & 0x60 == 0
    }) by (bit_vector);
}

/// A castling move that the position offers is among those that are generated.
proof fn lemma_castling_generated(pos: Position, m: Move, quiets: bool)
    requires
        offers_castling(pos, m, quiets),
    ensures
        castling_moves_spec(
            pos,
            pos.pieces[5] & pos.colors[pos.side.idx()],
            !(pos.colors[0] | pos.colors[1]),
        ).contains(m),
{
    let s = pos.side.idx();
    let occupied = pos.colors[0] | pos.colors[1];
    let empty = !occupied;
    let king = pos.pieces[5] & pos.colors[s];
    let home = king_home(s);
    lemma_back_rank_clear(empty, pos.side);
    lemma_holds_ops(occupied, occupied, (home - 1) as u8);
    lemma_holds_ops(occupied, occupied, (home - 2) as u8);
    lemma_holds_ops(occupied, occupied, (home - 3) as u8);
    lemma_holds_ops(occupied, occupied, (home + 1) as u8);
    lemma_holds_ops(occupied, occupied, (home + 2) as u8);
    let list = castling_moves_spec(pos, king, empty);
    if m.flags == 2 {
        assert(list[0] == m);
    } else {
        assert(list[list.len() - 1] == m);
    }
}

/// A move of a pawn that the position offers is among those that are generated.
proof fn lemma_pawn_move_generated(pos: Position, m: Move, quiets: bool)
    requires
        offers_pawn_move(pos, m, quiets),
    ensures
        pawn_moves_spec(
            pos.pieces[0] & pos.colors[pos.side.idx()],
            !(pos.colors[0] | pos.colors[1]),
            pos.colors[pos.side.other().idx()],
            pos.en_passant,
            pos.side,
            quiets,
        ).contains(m),
{
    let side = pos.side;
    let us = pos.colors[side.idx()];
    let them = pos.colors[side.other().idx()];
    let occupied = pos.colors[0] | pos.colors[1];
    let empty = !occupied;
    let pawns = pos.pieces[0] & us;
    let ep = pos.en_passant;
    let ahead = advance(side);
    let from = m.from;
    let to = m.to;
    let single = steps(pushable(pawns, side, empty), ahead, 0);
    let double = plain_steps(double_pushable(pawns, side, empty), 2 * ahead, NO_SQUARE, 1);
    let left = steps(left_attackers(pawns, side, them), capture_step(side, 7), 4);
    let right = steps(right_attackers(pawns, side, them), capture_step(side, 9), 4);
    let passing = en_passant_spec(pawns, side, ep);
    let behind = crate::movegen::pawn::backward(side, empty);
    let behind2 = crate::movegen::pawn::backward(side, behind);
    lemma_holds_ops(pos.pieces[0], us, from);
    lemma_holds_ops(occupied, occupied, to);
    lemma_holds_shift(empty, from);
    lemma_pawn_ranks(from);
    lemma_pawn_ranks(to);
    let quiet_part = if quiets {
        single + double
    } else {
        Seq::empty()
    };
    if quiets && m.to == m.from + ahead && !holds(occupied, m.to) && step_flags(m, 0) {
        lemma_holds_ops(pawns, behind, from);
        let list = step_moves(from, to, 0);
        assert(list.contains(m)) by {
            if to >= 56 || to <= 7 {
                assert(list[(m.flags - 8) as int] == m);
            } else {
                assert(list[0] == m);
            }
        }
        let f = step_from(ahead, 0);
        assert(f(from) == list);
        lemma_each_square_has(pushable(pawns, side, empty), f, from, m);
        lemma_concat_has(single, double, m);
        lemma_concat_has(quiet_part, left + right, m);
        lemma_concat_has(quiet_part + (left + right), passing, m);
    } else if quiets && m.flags == 1 && m.to == m.from + 2 * ahead && !holds(occupied, m.to) && !holds(
        occupied,
        (m.from + ahead) as u8,
    ) && holds(start_rank(side), m.from) {
        let mid = (from + ahead) as u8;
        lemma_holds_ops(occupied, occupied, mid);
        lemma_holds_shift(empty, mid);
        lemma_holds_shift(behind, from);
        lemma_holds_ops(pawns, behind, from);
        lemma_holds_ops(pawns & behind, start_rank(side), from);
        lemma_holds_ops(pawns & behind & start_rank(side), behind2, from);
        let f = plain_from(2 * ahead, NO_SQUARE, 1);
        assert(f(from)[0] == m);
        lemma_each_square_has(double_pushable(pawns, side, empty), f, from, m);
        lemma_concat_has(single, double, m);
        lemma_concat_has(quiet_part, left + right, m);
        lemma_concat_has(quiet_part + (left + right), passing, m);
    } else if m.flags == 5 && pos.en_passant < 64 && m.to == pos.en_passant && holds(
        ep_rank(side),
        m.from,
    ) && (m.to == m.from + capture_step(side, 7) || m.to == m.from + capture_step(side, 9)) {
        let ep_bit = bit(ep);
        let seven = crate::movegen::pawn::shift_spec(side.other(), ep_bit, 7);
        let nine = crate::movegen::pawn::shift_spec(side.other(), ep_bit, 9);
        lemma_holds_plain_shift(ep_bit, 7, from);
        lemma_holds_plain_shift(ep_bit, 9, from);
        lemma_holds_bit(ep, ep);
        lemma_holds_ops(seven, nine, from);
        lemma_holds_ops(pawns, seven | nine, from);
        lemma_holds_ops(pawns & (seven | nine), ep_rank(side), from);
        let capturers = ep_capturers(pawns, side, ep);
        let f = plain_from(0, ep, 5);
        assert(f(from)[0] == m);
        lemma_each_square_has(capturers, f, from, m);
        lemma_concat_has(quiet_part + (left + right), passing, m);
    } else {
        let by_seven = m.to == m.from + capture_step(side, 7);
        lemma_holds_plain_shift(them, 7, from);
        lemma_holds_plain_shift(them, 9, from);
        let list = step_moves(from, to, 4);
        assert(list.contains(m)) by {
            if to >= 56 || to <= 7 {
                assert(list[(m.flags - 12) as int] == m);
            } else {
                assert(list[0] == m);
            }
        }
        match side {
            PieceColor::White => {
                lemma_holds_ops(crate::bitboard::FILE_A, 0, from);
                lemma_holds_ops(crate::bitboard::FILE_H, 0, from);
                lemma_holds_ops(pawns, !crate::bitboard::FILE_A, from);
                lemma_holds_ops(pawns, !crate::bitboard::FILE_H, from);
                lemma_holds_ops(pawns & !crate::bitboard::FILE_A, them >> 7, from);
                lemma_holds_ops(pawns & !crate::bitboard::FILE_H, them >> 9, from);
            },
            PieceColor::Black => {
                lemma_holds_ops(crate::bitboard::FILE_A, 0, from);
                lemma_holds_ops(crate::bitboard::FILE_H, 0, from);
                lemma_holds_ops(pawns, !crate::bitboard::FILE_A, from);
                lemma_holds_ops(pawns, !crate::bitboard::FILE_H, from);
                lemma_holds_ops(pawns & !crate::bitboard::FILE_H, them << 7, from);
                lemma_holds_ops(pawns & !crate::bitboard::FILE_A, them << 9, from);
            },
        }
        if by_seven {
            let f = step_from(capture_step(side, 7), 4);
            assert(f(from) == list);
            lemma_each_square_has(left_attackers(pawns, side, them), f, from, m);
        } else {
            let f = step_from(capture_step(side, 9), 4);
            assert(f(from) == list);
            lemma_each_square_has(right_attackers(pawns, side, them), f, from, m);
        }
        lemma_concat_has(left, right, m);
        lemma_concat_has(quiet_part, left + right, m);
        lemma_concat_has(quiet_part + (left + right), passing, m);
    }
}

/// Every move that the position offers is generated: the generator lists
/// the moves that the position offers, and no others.
pub proof fn lemma_offered_is_generated(pos: Position, m: Move, quiets: bool)
    requires
        offers(pos, m, quiets),
    ensures
        movegen_spec(pos, quiets).contains(m),
{
    let us = pos.colors[pos.side.idx()];
    let them = pos.colors[pos.side.other().idx()];
    let empty = !(pos.colors[0] | pos.colors[1]);
    let q = kind_moves(PieceType::Queen, pos.pieces[4] & us, us | them, !us, them, quiets);
    let r = kind_moves(PieceType::Rook, pos.pieces[3] & us, us | them, !us, them, quiets);
    let b = kind_moves(PieceType::Bishop, pos.pieces[2] & us, us | them, !us, them, quiets);
    let n = kind_moves(PieceType::Knight, pos.pieces[1] & us, 0, !us, them, quiets);
    let c = if quiets && !pos.in_check_spec(pos.side) {
        castling_moves_spec(pos, pos.pieces[5] & us, empty)
    } else {
        Seq::empty()
    };
    let pw = pawn_moves_spec(pos.pieces[0] & us, empty, them, pos.en_passant, pos.side, quiets);
    let k = king_moves_spec(pos.pieces[5] & us, empty, them, quiets);
    if offers_piece_move(pos, m, quiets) {
        lemma_piece_move_generated(pos, m, quiets);
    } else if offers_king_move(pos, m, quiets) {
        lemma_king_move_generated(pos, m, quiets);
    } else if offers_castling(pos, m, quiets) {
        lemma_castling_generated(pos, m, quiets);
    } else {
        lemma_pawn_move_generated(pos, m, quiets);
    }
    if q.contains(m) || r.contains(m) {
        lemma_concat_has(q, r, m);
    }
    if (q + r).contains(m) || b.contains(m) {
        lemma_concat_has(q + r, b, m);
    }
    if (q + r + b).contains(m) || n.contains(m) {
        lemma_concat_has(q + r + b, n, m);
    }
    if (q + r + b + n).contains(m) || c.contains(m) {
        lemma_concat_has(q + r + b + n, c, m);
    }
    if (q + r + b + n + c).contains(m) || pw.contains(m) {
        lemma_concat_has(q + r + b + n + c, pw, m);
    }
    lemma_concat_has(q + r + b + n + c + pw, k, m);
}

/// The moves that the generator lists are the moves that the position offers.
pub proof fn lemma_movegen_is_offers(pos: Position, m: Move, quiets: bool)
    ensures
        movegen_spec(pos, quiets).contains(m) == offers(pos, m, quiets),
{
    if offers(pos, m, quiets) {
        lemma_offered_is_generated(pos, m, quiets);
    }
    if movegen_spec(pos, quiets).contains(m) {
        lemma_movegen_offers(pos, quiets);
        let i = choose|i: int| 0 <= i < movegen_spec(pos, quiets).len() && movegen_spec(pos, quiets)[i] == m;
        assert(offers(pos, movegen_spec(pos, quiets)[i], quiets));
    }
}

} // verus!
