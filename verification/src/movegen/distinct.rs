//! No move is generated twice, and a position and its mirror image have
//! equally many moves.
use vstd::prelude::*;
use crate::bitboard::{
    holds, lemma_holds_ops, lemma_holds_plain_shift, lemma_squares_ascend, lemma_squares_below_members,
    squares,
};
use crate::movegen::king::{castling_moves_spec, king_attack_spec, king_moves_spec};
use crate::movegen::mirror::{lemma_flip, lemma_movegen_mirrored, lone_kings, mirror, mirror_move, tidy};
use crate::movegen::pawn::{
    advance, capture_step, double_pushable, en_passant_spec, in_reach, left_attackers, pawn_moves_spec,
    plain_from, plain_steps, pushable, right_attackers, step_from, steps,
};
use crate::movegen::laws::{all_of, lemma_movegen_admitted};
use crate::movegen::{
    attack_of, for_each_square, kind_from, kind_moves, movegen_spec, moves_to, one_move, piece_moves,
};
use crate::position::{Move, PieceType, Position};

verus! {

/// The clock of a position does not matter to the generator.
pub proof fn lemma_clock_apart(pos: Position, quiets: bool)
    ensures
        movegen_spec(Position { halfmove: 0, ..pos }, quiets) == movegen_spec(pos, quiets),
{
}

/// Every generated move goes from a square of the board to a square of the
/// board.
pub proof fn lemma_on_board(pos: Position, quiets: bool)
    ensures
        forall|i: int|
            0 <= i < movegen_spec(pos, quiets).len() ==> (#[trigger] movegen_spec(pos, quiets)[i]).from < 64
                && movegen_spec(pos, quiets)[i].to < 64,
{
    let still = Position { halfmove: 0, ..pos };
    lemma_clock_apart(pos, quiets);
    lemma_movegen_admitted(still, quiets);
}

/// The squares of a board are listed once each.
pub proof fn lemma_squares_distinct(b: u64)
    ensures
        squares(b).no_duplicates(),
{
    lemma_squares_ascend(b, 64);
}

/// Two lists without a move twice, whose moves differ in kind, make a list
/// without a move twice.
pub proof fn lemma_join_distinct(a: Seq<Move>, b: Seq<Move>, p: spec_fn(Move) -> bool, q: spec_fn(Move) -> bool)
    requires
        a.no_duplicates(),
        b.no_duplicates(),
        all_of(a, p),
        all_of(b, q),
        forall|m: Move| !(#[trigger] p(m) && q(m)),
    ensures
        (a + b).no_duplicates(),
{
    assert forall|i: int, j: int| 0 <= i < a.len() && 0 <= j < b.len() implies a[i] != b[j] by {
        assert(p(a[i]));
        assert(q(b[j]));
    }
    vstd::seq_lib::lemma_no_dup_in_concat(a, b);
}

/// Where every square gives a list without a move twice, and every move
/// tells by `key` the square that gave it, distinct squares together give a
/// list without a move twice, and each of its moves is one that the square
/// of its key gave.
pub proof fn lemma_each_distinct(s: Seq<u8>, f: spec_fn(u8) -> Seq<Move>, key: spec_fn(Move) -> u8)
    requires
        s.no_duplicates(),
        forall|sq: u8| (#[trigger] f(sq)).no_duplicates(),
        forall|sq: u8, i: int| 0 <= i < f(sq).len() ==> key(#[trigger] f(sq)[i]) == sq,
    ensures
        for_each_square(s, f).no_duplicates(),
        forall|i: int|
            0 <= i < for_each_square(s, f).len() ==> s.contains(key(#[trigger] for_each_square(s, f)[i]))
                && f(key(for_each_square(s, f)[i])).contains(for_each_square(s, f)[i]),
    decreases s.len(),
{
    if s.len() > 0 {
        let head = s[0];
        let rest = s.drop_first();
        assert forall|i: int, j: int| 0 <= i < j < rest.len() implies rest[i] != rest[j] by {
            assert(rest[i] == s[i + 1] && rest[j] == s[j + 1]);
        }
        lemma_each_distinct(rest, f, key);
        let a = f(head);
        let b = for_each_square(rest, f);
        let all = for_each_square(s, f);
        assert(all == a + b);
        assert forall|i: int, j: int| 0 <= i < a.len() && 0 <= j < b.len() implies a[i] != b[j] by {
            assert(key(a[i]) == head);
            assert(rest.contains(key(b[j])));
            let k = choose|k: int| 0 <= k < rest.len() && rest[k] == key(b[j]);
            assert(s[k + 1] == rest[k]);
        }
        vstd::seq_lib::lemma_no_dup_in_concat(a, b);
        assert forall|i: int| 0 <= i < all.len() implies s.contains(key(#[trigger] all[i])) && f(
            key(all[i]),
        ).contains(all[i]) by {
            if i < a.len() {
                assert(all[i] == a[i]);
                assert(key(a[i]) == head);
                assert(s[0] == head);
                assert(a.contains(a[i]));
            } else {
                let j = i - a.len();
                assert(all[i] == b[j]);
                assert(rest.contains(key(b[j])));
                let k = choose|k: int| 0 <= k < rest.len() && rest[k] == key(b[j]);
                assert(s[k + 1] == rest[k]);
            }
        }
    }
}

/// A move of `piece` from `from` with the flags `flags`.
pub open spec fn made_by(from: u8, flags: u8, piece: PieceType) -> spec_fn(Move) -> bool {
    |m: Move| m.from == from && m.flags == flags && m.piece == piece && m.to < 64
}

/// The moves of one piece to the squares of a board are all different.
pub proof fn lemma_moves_to_distinct(from: u8, targets: u64, flags: u8, piece: PieceType)
    ensures
        moves_to(from, targets, flags, piece).no_duplicates(),
        all_of(moves_to(from, targets, flags, piece), made_by(from, flags, piece)),
{
    let f = one_move(from, flags, piece);
    let key = |m: Move| m.to;
    lemma_squares_distinct(targets);
    lemma_squares_ascend(targets, 64);
    assert forall|sq: u8| (#[trigger] f(sq)).no_duplicates() by {}
    lemma_each_distinct(squares(targets), f, key);
    let list = moves_to(from, targets, flags, piece);
    assert forall|i: int| 0 <= i < list.len() implies made_by(from, flags, piece)(#[trigger] list[i]) by {
        assert(squares(targets).contains(key(list[i])));
        assert(f(key(list[i])).contains(list[i]));
        let one = f(key(list[i]));
        let k = choose|k: int| 0 <= k < one.len() && one[k] == list[i];
        assert(k == 0);
    }
}

/// A move of `piece` from `from`, quiet or a capture.
pub open spec fn moved_by(from: u8, piece: PieceType) -> spec_fn(Move) -> bool {
    |m: Move| m.from == from && (m.flags == 0 || m.flags == 4) && m.piece == piece && m.to < 64
}

/// The moves of one piece are all different.
pub proof fn lemma_piece_moves_distinct(from: u8, reach: u64, them: u64, quiets: bool, piece: PieceType)
    ensures
        piece_moves(from, reach, them, quiets, piece).no_duplicates(),
        all_of(piece_moves(from, reach, them, quiets, piece), moved_by(from, piece)),
{
    let a = if quiets {
        moves_to(from, reach & !them, 0, piece)
    } else {
        Seq::empty()
    };
    let b = moves_to(from, reach & them, 4, piece);
    lemma_moves_to_distinct(from, reach & !them, 0, piece);
    lemma_moves_to_distinct(from, reach & them, 4, piece);
    assert(all_of(a, made_by(from, 0, piece)));
    lemma_join_distinct(a, b, made_by(from, 0, piece), made_by(from, 4, piece));
    let list = piece_moves(from, reach, them, quiets, piece);
    assert forall|i: int| 0 <= i < list.len() implies moved_by(from, piece)(#[trigger] list[i]) by {
        if i < a.len() {
            assert(made_by(from, 0, piece)(a[i]));
        } else {
            assert(made_by(from, 4, piece)(b[i - a.len()]));
        }
    }
}

/// A move of a piece of `kind` from a square of the board, quiet or a capture.
pub open spec fn of_kind(kind: PieceType) -> spec_fn(Move) -> bool {
    |m: Move| (m.flags == 0 || m.flags == 4) && m.piece == kind && m.from < 64 && m.to < 64
}

/// The moves of the pieces of one kind are all different.
pub proof fn lemma_kind_distinct(kind: PieceType, pieces: u64, occ: u64, free: u64, them: u64, quiets: bool)
    ensures
        kind_moves(kind, pieces, occ, free, them, quiets).no_duplicates(),
        all_of(kind_moves(kind, pieces, occ, free, them, quiets), of_kind(kind)),
{
    let f = kind_from(kind, occ, free, them, quiets);
    let key = |m: Move| m.from;
    lemma_squares_distinct(pieces);
    lemma_squares_ascend(pieces, 64);
    assert forall|sq: u8| (#[trigger] f(sq)).no_duplicates() by {
        lemma_piece_moves_distinct(sq, attack_of(kind, sq, occ) & free, them, quiets, kind);
    }
    assert forall|sq: u8, i: int| 0 <= i < f(sq).len() implies key(#[trigger] f(sq)[i]) == sq by {
        lemma_piece_moves_distinct(sq, attack_of(kind, sq, occ) & free, them, quiets, kind);
        assert(moved_by(sq, kind)(f(sq)[i]));
    }
    lemma_each_distinct(squares(pieces), f, key);
    let list = kind_moves(kind, pieces, occ, free, them, quiets);
    assert forall|i: int| 0 <= i < list.len() implies of_kind(kind)(#[trigger] list[i]) by {
        let sq = key(list[i]);
        assert(squares(pieces).contains(sq));
        assert(f(sq).contains(list[i]));
        lemma_piece_moves_distinct(sq, attack_of(kind, sq, occ) & free, them, quiets, kind);
        let one = f(sq);
        let k = choose|k: int| 0 <= k < one.len() && one[k] == list[i];
        assert(moved_by(sq, kind)(one[k]));
    }
}

/// A move of a pawn on `froms` that goes `delta` squares on, with the
/// flags `flags` or, with them, those of one of the four promotions.
pub open spec fn stepped(froms: u64, delta: int, flags: u8) -> spec_fn(Move) -> bool {
    |m: Move|
        m.piece == PieceType::Pawn && m.from < 64 && holds(froms, m.from) && m.to == (m.from + delta) as u8
            && (m.flags == flags || flags + 8 <= m.flags <= flags + 11)
}

/// The steps of the pawns of a board are all different.
pub proof fn lemma_steps_distinct(froms: u64, delta: int, flags: u8)
    requires
        flags <= 4,
    ensures
        steps(froms, delta, flags).no_duplicates(),
        all_of(steps(froms, delta, flags), stepped(froms, delta, flags)),
{
    let f = step_from(delta, flags);
    let key = |m: Move| m.from;
    lemma_squares_distinct(froms);
    lemma_squares_below_members(froms, 64);
    assert forall|sq: u8| (#[trigger] f(sq)).no_duplicates() by {}
    lemma_each_distinct(squares(froms), f, key);
    let list = steps(froms, delta, flags);
    assert forall|i: int| 0 <= i < list.len() implies stepped(froms, delta, flags)(#[trigger] list[i]) by {
        let sq = key(list[i]);
        assert(squares(froms).contains(sq));
        let one = f(sq);
        assert(one.contains(list[i]));
        let k = choose|k: int| 0 <= k < one.len() && one[k] == list[i];
        assert(one[k] == list[i]);
    }
}

/// A move of a pawn with the flags `flags`.
pub open spec fn flagged(flags: u8) -> spec_fn(Move) -> bool {
    |m: Move| m.piece == PieceType::Pawn && m.flags == flags
}

/// The moves of the pawns of a board, one for each, are all different.
pub proof fn lemma_plain_distinct(froms: u64, delta: int, to: u8, flags: u8)
    ensures
        plain_steps(froms, delta, to, flags).no_duplicates(),
        all_of(plain_steps(froms, delta, to, flags), flagged(flags)),
{
    let f = plain_from(delta, to, flags);
    let key = |m: Move| m.from;
    lemma_squares_distinct(froms);
    assert forall|sq: u8| (#[trigger] f(sq)).no_duplicates() by {}
    lemma_each_distinct(squares(froms), f, key);
    let list = plain_steps(froms, delta, to, flags);
    assert forall|i: int| 0 <= i < list.len() implies flagged(flags)(#[trigger] list[i]) by {
        let one = f(key(list[i]));
        assert(one.contains(list[i]));
        let k = choose|k: int| 0 <= k < one.len() && one[k] == list[i];
        assert(k == 0);
    }
}

/// A pawn that attacks by a step of seven or of nine squares stays on the
/// board when it takes that step.
pub proof fn lemma_attackers_reach(pawns: u64, color: crate::position::PieceColor, enemies: u64)
    ensures
        in_reach(left_attackers(pawns, color, enemies), capture_step(color, 7)),
        in_reach(right_attackers(pawns, color, enemies), capture_step(color, 9)),
{
    let left = left_attackers(pawns, color, enemies);
    let right = right_attackers(pawns, color, enemies);
    let d7 = capture_step(color, 7);
    let d9 = capture_step(color, 9);
    assert forall|k: u8| k < 64 && holds(left, k) implies 0 <= #[trigger] (k + d7) < 64 by {
        lemma_holds_plain_shift(enemies, 7, k);
        match color {
            crate::position::PieceColor::White => {
                lemma_holds_ops(pawns & !crate::bitboard::FILE_A, enemies >> 7, k);
            },
            crate::position::PieceColor::Black => {
                lemma_holds_ops(pawns & !crate::bitboard::FILE_H, enemies << 7, k);
            },
        }
    }
    assert forall|k: u8| k < 64 && holds(right, k) implies 0 <= #[trigger] (k + d9) < 64 by {
        lemma_holds_plain_shift(enemies, 9, k);
        match color {
            crate::position::PieceColor::White => {
                lemma_holds_ops(pawns & !crate::bitboard::FILE_H, enemies >> 9, k);
            },
            crate::position::PieceColor::Black => {
                lemma_holds_ops(pawns & !crate::bitboard::FILE_A, enemies << 9, k);
            },
        }
    }
}

/// The flags of a pawn move are of the group `group`: 0 for a step, 1 for
/// a double step, 2 for a capture, 3 for a capture en passant.
pub open spec fn pawn_group(group: int) -> spec_fn(Move) -> bool {
    |m: Move|
        m.piece == PieceType::Pawn && (if m.flags == 0 || 8 <= m.flags <= 11 {
            0int
        } else if m.flags == 1 {
            1int
        } else if m.flags == 4 || 12 <= m.flags <= 15 {
            2int
        } else if m.flags == 5 {
            3int
        } else {
            4int
        }) == group
}

/// The flags of a pawn move are of a group below `group`.
pub open spec fn pawn_below(group: int) -> spec_fn(Move) -> bool {
    |m: Move| exists|g: int| 0 <= g < group && #[trigger] pawn_group(g)(m)
}

/// What holds of every move of a list in one way holds of it in a weaker way.
pub proof fn lemma_all_weaker(s: Seq<Move>, p: spec_fn(Move) -> bool, q: spec_fn(Move) -> bool)
    requires
        all_of(s, p),
        forall|m: Move| #[trigger] p(m) ==> q(m),
    ensures
        all_of(s, q),
{
    assert forall|i: int| 0 <= i < s.len() implies q(#[trigger] s[i]) by {
        assert(p(s[i]));
    }
}

/// The moves of the pawns are all different.
pub proof fn lemma_pawns_distinct(
    pawns: u64,
    empty: u64,
    them: u64,
    en_passant: u8,
    side: crate::position::PieceColor,
    quiets: bool,
)
    ensures
        pawn_moves_spec(pawns, empty, them, en_passant, side, quiets).no_duplicates(),
        all_of(
            pawn_moves_spec(pawns, empty, them, en_passant, side, quiets),
            |m: Move| m.piece == PieceType::Pawn,
        ),
{
    let single = steps(pushable(pawns, side, empty), advance(side), 0);
    let double = plain_steps(double_pushable(pawns, side, empty), 2 * advance(side), crate::position::NO_SQUARE, 1);
    let left_board = left_attackers(pawns, side, them);
    let right_board = right_attackers(pawns, side, them);
    let d7 = capture_step(side, 7);
    let d9 = capture_step(side, 9);
    let left = steps(left_board, d7, 4);
    let right = steps(right_board, d9, 4);
    let passing = en_passant_spec(pawns, side, en_passant);
    lemma_steps_distinct(pushable(pawns, side, empty), advance(side), 0);
    lemma_plain_distinct(double_pushable(pawns, side, empty), 2 * advance(side), crate::position::NO_SQUARE, 1);
    lemma_steps_distinct(left_board, d7, 4);
    lemma_steps_distinct(right_board, d9, 4);
    lemma_attackers_reach(pawns, side, them);
    if en_passant < 64 {
        lemma_plain_distinct(crate::movegen::pawn::ep_capturers(pawns, side, en_passant), 0, en_passant, 5);
    }
    assert(all_of(passing, flagged(5)));
    assert(passing.no_duplicates());
    // the captures to the one side and to the other
    assert forall|m: Move| !(#[trigger] stepped(left_board, d7, 4)(m) && stepped(right_board, d9, 4)(m)) by {
        if stepped(left_board, d7, 4)(m) && stepped(right_board, d9, 4)(m) {
            let k = m.from;
            assert(0 <= (k + d7) < 64);
            assert(0 <= (k + d9) < 64);
        }
    }
    lemma_join_distinct(left, right, stepped(left_board, d7, 4), stepped(right_board, d9, 4));
    let captures = left + right;
    lemma_all_weaker(left, stepped(left_board, d7, 4), pawn_group(2));
    lemma_all_weaker(right, stepped(right_board, d9, 4), pawn_group(2));
    crate::movegen::laws::lemma_all_concat(left, right, pawn_group(2));
    // the steps and the double steps
    let quiet = if quiets {
        single + double
    } else {
        Seq::empty()
    };
    lemma_all_weaker(single, stepped(pushable(pawns, side, empty), advance(side), 0), pawn_group(0));
    lemma_all_weaker(double, flagged(1), pawn_group(1));
    lemma_join_distinct(single, double, pawn_group(0), pawn_group(1));
    assert(pawn_group(0)(Move { from: 0, to: 0, flags: 0, piece: PieceType::Pawn }));
    assert(pawn_group(1)(Move { from: 0, to: 0, flags: 1, piece: PieceType::Pawn }));
    lemma_all_weaker(single, pawn_group(0), pawn_below(2));
    lemma_all_weaker(double, pawn_group(1), pawn_below(2));
    crate::movegen::laws::lemma_all_concat(single, double, pawn_below(2));
    assert(all_of(quiet, pawn_below(2)));
    assert(quiet.no_duplicates());
    lemma_join_distinct(quiet, captures, pawn_below(2), pawn_group(2));
    lemma_all_weaker(quiet, pawn_below(2), pawn_below(3));
    lemma_all_weaker(captures, pawn_group(2), pawn_below(3));
    crate::movegen::laws::lemma_all_concat(quiet, captures, pawn_below(3));
    lemma_all_weaker(passing, flagged(5), pawn_group(3));
    lemma_join_distinct(quiet + captures, passing, pawn_below(3), pawn_group(3));
    let list = pawn_moves_spec(pawns, empty, them, en_passant, side, quiets);
    assert(list == quiet + captures + passing);
    let pawn = |m: Move| m.piece == PieceType::Pawn;
    lemma_all_weaker(quiet + captures, pawn_below(3), pawn);
    lemma_all_weaker(passing, pawn_group(3), pawn);
    crate::movegen::laws::lemma_all_concat(quiet + captures, passing, pawn);
}

/// The part of the list that a move belongs to: the moves of the queens,
/// of the rooks, of the bishops, of the knights, the castling moves, the
/// moves of the pawns, and the other moves of the king.
pub open spec fn part_of(m: Move) -> int {
    match m.piece {
        PieceType::Queen => 0,
        PieceType::Rook => 1,
        PieceType::Bishop => 2,
        PieceType::Knight => 3,
        PieceType::King => if m.flags == 2 || m.flags == 3 {
            4
        } else {
            6
        },
        PieceType::Pawn => 5,
        PieceType::Empty => 7,
    }
}

/// The move belongs to part `part`.
pub open spec fn in_part(part: int) -> spec_fn(Move) -> bool {
    |m: Move| part_of(m) == part
}

/// The move belongs to a part before `part`.
pub open spec fn before_part(part: int) -> spec_fn(Move) -> bool {
    |m: Move| part_of(m) < part
}

/// A list of the parts before `part` and the list of that part, each
/// without a move twice, make a list of the parts up to it without a move
/// twice.
pub proof fn lemma_add_part(so_far: Seq<Move>, next: Seq<Move>, part: int)
    requires
        so_far.no_duplicates(),
        next.no_duplicates(),
        all_of(so_far, before_part(part)),
        all_of(next, in_part(part)),
    ensures
        (so_far + next).no_duplicates(),
        all_of(so_far + next, before_part(part + 1)),
{
    lemma_join_distinct(so_far, next, before_part(part), in_part(part));
    lemma_all_weaker(so_far, before_part(part), before_part(part + 1));
    lemma_all_weaker(next, in_part(part), before_part(part + 1));
    crate::movegen::laws::lemma_all_concat(so_far, next, before_part(part + 1));
}

/// The moves of the king, castling apart, are all different.
pub proof fn lemma_king_distinct(king: u64, empty: u64, them: u64, quiets: bool)
    ensures
        king_moves_spec(king, empty, them, quiets).no_duplicates(),
        all_of(king_moves_spec(king, empty, them, quiets), in_part(6)),
{
    let list = king_moves_spec(king, empty, them, quiets);
    if king != 0 {
        let from = crate::bitboard::lowest(king);
        let a = if quiets {
            moves_to(from, king_attack_spec(from) & empty, 0, PieceType::King)
        } else {
            Seq::empty()
        };
        let b = moves_to(from, king_attack_spec(from) & them, 4, PieceType::King);
        lemma_moves_to_distinct(from, king_attack_spec(from) & empty, 0, PieceType::King);
        lemma_moves_to_distinct(from, king_attack_spec(from) & them, 4, PieceType::King);
        assert(all_of(a, made_by(from, 0, PieceType::King)));
        lemma_join_distinct(a, b, made_by(from, 0, PieceType::King), made_by(from, 4, PieceType::King));
        lemma_all_weaker(a, made_by(from, 0, PieceType::King), in_part(6));
        lemma_all_weaker(b, made_by(from, 4, PieceType::King), in_part(6));
        crate::movegen::laws::lemma_all_concat(a, b, in_part(6));
        assert(list == a + b);
    }
}

/// The castling moves are different.
pub proof fn lemma_castling_distinct(pos: Position, king: u64, empty: u64)
    ensures
        castling_moves_spec(pos, king, empty).no_duplicates(),
        all_of(castling_moves_spec(pos, king, empty), in_part(4)),
{
}

/// No move is generated twice.
pub proof fn lemma_movegen_distinct(pos: Position, quiets: bool)
    ensures
        movegen_spec(pos, quiets).no_duplicates(),
{
    let occupied = pos.colors[0] | pos.colors[1];
    let empty = !occupied;
    let us = pos.colors[pos.side.idx()];
    let them = pos.colors[pos.side.other().idx()];
    let queens = kind_moves(PieceType::Queen, pos.pieces[4] & us, us | them, !us, them, quiets);
    let rooks = kind_moves(PieceType::Rook, pos.pieces[3] & us, us | them, !us, them, quiets);
    let bishops = kind_moves(PieceType::Bishop, pos.pieces[2] & us, us | them, !us, them, quiets);
    let knights = kind_moves(PieceType::Knight, pos.pieces[1] & us, 0, !us, them, quiets);
    let castles = if quiets && !pos.in_check_spec(pos.side) {
        castling_moves_spec(pos, pos.pieces[5] & us, empty)
    } else {
        Seq::empty()
    };
    let pawns = pawn_moves_spec(pos.pieces[0] & us, empty, them, pos.en_passant, pos.side, quiets);
    let kings = king_moves_spec(pos.pieces[5] & us, empty, them, quiets);
    lemma_kind_distinct(PieceType::Queen, pos.pieces[4] & us, us | them, !us, them, quiets);
    lemma_kind_distinct(PieceType::Rook, pos.pieces[3] & us, us | them, !us, them, quiets);
    lemma_kind_distinct(PieceType::Bishop, pos.pieces[2] & us, us | them, !us, them, quiets);
    lemma_kind_distinct(PieceType::Knight, pos.pieces[1] & us, 0, !us, them, quiets);
    lemma_castling_distinct(pos, pos.pieces[5] & us, empty);
    lemma_pawns_distinct(pos.pieces[0] & us, empty, them, pos.en_passant, pos.side, quiets);
    lemma_king_distinct(pos.pieces[5] & us, empty, them, quiets);
    lemma_all_weaker(queens, of_kind(PieceType::Queen), before_part(1));
    lemma_all_weaker(rooks, of_kind(PieceType::Rook), in_part(1));
    lemma_all_weaker(bishops, of_kind(PieceType::Bishop), in_part(2));
    lemma_all_weaker(knights, of_kind(PieceType::Knight), in_part(3));
    lemma_all_weaker(pawns, |m: Move| m.piece == PieceType::Pawn, in_part(5));
    assert(all_of(castles, in_part(4)));
    assert(castles.no_duplicates());
    lemma_add_part(queens, rooks, 1);
    lemma_add_part(queens + rooks, bishops, 2);
    lemma_add_part(queens + rooks + bishops, knights, 3);
    lemma_add_part(queens + rooks + bishops + knights, castles, 4);
    lemma_add_part(queens + rooks + bishops + knights + castles, pawns, 5);
    lemma_add_part(queens + rooks + bishops + knights + castles + pawns, kings, 6);
    assert(movegen_spec(pos, quiets) == queens + rooks + bishops + knights + castles + pawns + kings);
}

/// A position and its mirror image have equally many moves: with the law
/// that the generator lists for the mirror image the mirrored moves and no
/// others, the two lists hold the same moves, mirrored, and are equally
/// long.
pub proof fn lemma_mirrored_count(pos: Position, quiets: bool)
    requires
        tidy(pos),
        lone_kings(pos),
    ensures
        movegen_spec(mirror(pos), quiets).len() == movegen_spec(pos, quiets).len(),
{
    let here = movegen_spec(pos, quiets);
    let there = movegen_spec(mirror(pos), quiets);
    lemma_movegen_distinct(pos, quiets);
    lemma_movegen_distinct(mirror(pos), quiets);
    lemma_on_board(pos, quiets);
    lemma_on_board(mirror(pos), quiets);
    here.unique_seq_to_set();
    there.unique_seq_to_set();
    let f = |m: Move| mirror_move(m);
    assert(here.to_set().map(f) =~= there.to_set()) by {
        assert forall|x: Move| here.to_set().map(f).contains(x) == there.to_set().contains(x) by {
            if here.to_set().map(f).contains(x) {
                let m = choose|m: Move| here.to_set().contains(m) && f(m) == x;
                let i = choose|i: int| 0 <= i < here.len() && here[i] == m;
                assert(here[i].from < 64 && here[i].to < 64);
                lemma_movegen_mirrored(pos, m, quiets);
            }
            if there.to_set().contains(x) {
                let i = choose|i: int| 0 <= i < there.len() && there[i] == x;
                assert(there[i].from < 64 && there[i].to < 64);
                let m = mirror_move(x);
                lemma_flip(x.from);
                lemma_flip(x.to);
                assert(mirror_move(m) == x);
                lemma_movegen_mirrored(pos, m, quiets);
                assert(here.to_set().contains(m));
                assert(f(m) == x);
            }
        }
    }
    vstd::set_lib::lemma_map_size_bound(here.to_set(), there.to_set(), f);
    let g = |m: Move| mirror_move(m);
    assert(there.to_set().map(g) =~= here.to_set()) by {
        assert forall|x: Move| there.to_set().map(g).contains(x) == here.to_set().contains(x) by {
            if there.to_set().map(g).contains(x) {
                let m = choose|m: Move| there.to_set().contains(m) && g(m) == x;
                let i = choose|i: int| 0 <= i < there.len() && there[i] == m;
                assert(there[i].from < 64 && there[i].to < 64);
                lemma_flip(m.from);
                lemma_flip(m.to);
                assert(mirror_move(x) == m);
                lemma_flip(x.from);
                lemma_flip(x.to);
                lemma_movegen_mirrored(pos, x, quiets);
            }
            if here.to_set().contains(x) {
                let i = choose|i: int| 0 <= i < here.len() && here[i] == x;
                assert(here[i].from < 64 && here[i].to < 64);
                lemma_movegen_mirrored(pos, x, quiets);
                let m = mirror_move(x);
                lemma_flip(x.from);
                lemma_flip(x.to);
                assert(there.to_set().contains(m));
                assert(g(m) == x);
            }
        }
    }
    vstd::set_lib::lemma_map_size_bound(there.to_set(), here.to_set(), g);
}

} // verus!
