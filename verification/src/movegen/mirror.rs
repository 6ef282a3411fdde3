//! The board seen from the other side: ranks mirrored, colors swapped.
use vstd::prelude::*;
use crate::bitboard::{
    board_of, holds, lemma_board_below, lemma_board_ext, lemma_holds_ops, lowest,
};
use crate::movegen::king::{king_attack_spec, king_step};
use crate::movegen::knight::{knight_attack_spec, knight_step};
use crate::movegen::laws::{
    lemma_lowest, lemma_movegen_is_offers, lemma_pawn_ranks, offers, offers_castling,
    offers_king_move, offers_pawn_move, offers_piece_move, step_flags,
};
use crate::movegen::pawn::{advance, capture_step, ep_rank, start_rank};
use crate::movegen::sliding::magic::{
    bishop_attack_spec, bishop_sees, dist, on_ray, ray_sees, rook_attack_spec, rook_sees,
};
use crate::movegen::{attackers, movegen_spec, pawn_attack_spec, pawn_hits};
use crate::position::{king_home, Move, PieceColor, Position};

verus! {

/// The square on the same file and the mirrored rank.
pub open spec fn flip_sq(k: u8) -> u8 {
    ((7 - k / 8) * 8 + k % 8) as u8
}

/// The board with its ranks mirrored.
pub open spec fn mirror_board(x: u64) -> u64 {
    board_of(|k: u8| holds(x, flip_sq(k)))
}

/// The square that a right names, mirrored; a lost right stays lost.
pub open spec fn mirror_right(sq: u8) -> u8 {
    if sq < 64 {
        flip_sq(sq)
    } else {
        sq
    }
}

/// The position seen from the other side: every board mirrored, the colors
/// swapped, and with them the rights, the en-passant target and the turn.
pub open spec fn mirror(pos: Position) -> Position {
    Position {
        pieces: [
            mirror_board(pos.pieces[0]),
            mirror_board(pos.pieces[1]),
            mirror_board(pos.pieces[2]),
            mirror_board(pos.pieces[3]),
            mirror_board(pos.pieces[4]),
            mirror_board(pos.pieces[5]),
        ],
        colors: [mirror_board(pos.colors[1]), mirror_board(pos.colors[0])],
        castling: [
            [mirror_right(pos.castling[1][0]), mirror_right(pos.castling[1][1])],
            [mirror_right(pos.castling[0][0]), mirror_right(pos.castling[0][1])],
        ],
        en_passant: mirror_right(pos.en_passant),
        halfmove: pos.halfmove,
        side: pos.side.other(),
    }
}

/// The move seen from the other side.
pub open spec fn mirror_move(m: Move) -> Move {
    Move { from: flip_sq(m.from), to: flip_sq(m.to), flags: m.flags, piece: m.piece }
}

/// At most one square.
pub open spec fn lone(b: u64) -> bool {
    forall|i: u8, j: u8| i < 64 && j < 64 && holds(b, i) && holds(b, j) ==> i == j
}

/// Neither side has more than one king.
pub open spec fn lone_kings(pos: Position) -> bool {
    lone(pos.pieces[5] & pos.colors[0]) && lone(pos.pieces[5] & pos.colors[1])
}

/// The file and the rank of a mirrored square.
pub proof fn lemma_flip(k: u8)
    requires
        k < 64,
    ensures
        flip_sq(k) < 64,
        flip_sq(k) % 8 == k % 8,
        flip_sq(k) / 8 == 7 - k / 8,
        flip_sq(flip_sq(k)) == k,
{
    let f = k % 8;
    let r = k / 8;
    assert(k == r * 8 + f);
    let m = (7 - r) * 8 + f;
    assert(m % 8 == f && m / 8 == 7 - r);
}

/// A mirrored board holds the mirrored squares.
pub proof fn lemma_mirror_holds(x: u64, k: u8)
    requires
        k < 64,
    ensures
        holds(mirror_board(x), k) == holds(x, flip_sq(k)),
        flip_sq(k) < 64,
        flip_sq(flip_sq(k)) == k,
{
    lemma_board_below(|j: u8| holds(x, flip_sq(j)), 64, k);
    lemma_flip(k);
}

/// Mirroring twice gives the board back.
pub proof fn lemma_mirror_twice(x: u64)
    ensures
        mirror_board(mirror_board(x)) == x,
{
    assert forall|k: u8| k < 64 implies holds(mirror_board(mirror_board(x)), k) == holds(x, k) by {
        lemma_mirror_holds(mirror_board(x), k);
        lemma_mirror_holds(x, flip_sq(k));
    }
    lemma_board_ext(mirror_board(mirror_board(x)), x);
}

/// Mirroring twice gives the position back, as long as the rights and the
/// target name squares of the board or nothing.
pub proof fn lemma_mirror_position_twice(pos: Position)
    requires
        pos.en_passant <= 64,
        pos.castling[0][0] <= 64,
        pos.castling[0][1] <= 64,
        pos.castling[1][0] <= 64,
        pos.castling[1][1] <= 64,
    ensures
        mirror(mirror(pos)) == pos,
{
    let back = mirror(mirror(pos));
    lemma_mirror_twice(pos.pieces[0]);
    lemma_mirror_twice(pos.pieces[1]);
    lemma_mirror_twice(pos.pieces[2]);
    lemma_mirror_twice(pos.pieces[3]);
    lemma_mirror_twice(pos.pieces[4]);
    lemma_mirror_twice(pos.pieces[5]);
    lemma_mirror_twice(pos.colors[0]);
    lemma_mirror_twice(pos.colors[1]);
    lemma_right_twice(pos.castling[0][0]);
    lemma_right_twice(pos.castling[0][1]);
    lemma_right_twice(pos.castling[1][0]);
    lemma_right_twice(pos.castling[1][1]);
    lemma_right_twice(pos.en_passant);
    assert(back.pieces =~= pos.pieces);
    assert(back.colors =~= pos.colors);
    assert(back.castling[0] =~= pos.castling[0]);
    assert(back.castling[1] =~= pos.castling[1]);
    assert(back.castling =~= pos.castling);
}

/// Mirroring a right twice gives the right back.
pub proof fn lemma_right_twice(sq: u8)
    requires
        sq <= 64,
    ensures
        mirror_right(mirror_right(sq)) == sq,
        mirror_right(sq) <= 64,
{
    if sq < 64 {
        lemma_flip(sq);
    }
}

/// A slider sees along a ray what its mirror image sees along the mirrored ray.
pub proof fn lemma_ray_mirrored(a: u8, k: u8, df: int, dr: int, occ: u64, occ2: u64)
    requires
        a < 64,
        k < 64,
        -1 <= df <= 1,
        -1 <= dr <= 1,
        forall|j: u8| j < 64 ==> holds(occ2, j) == holds(occ, flip_sq(j)),
        ray_sees(a, k, df, dr, occ),
    ensures
        ray_sees(flip_sq(a), flip_sq(k), df, -dr, occ2),
{
    let a2 = flip_sq(a);
    let k2 = flip_sq(k);
    lemma_flip(a);
    lemma_flip(k);
    assert(dist(a2, k2) == dist(a, k));
    assert(on_ray(a2, k2, df, -dr));
    assert forall|j: u8| j < 64 && on_ray(a2, j, df, -dr) && dist(a2, j) < dist(a2, k2) implies !holds(
        occ2,
        j,
    ) by {
        let j0 = flip_sq(j);
        lemma_flip(j);
        lemma_flip(j0);
        assert(dist(a, j0) == dist(a2, j));
        assert(on_ray(a, j0, df, dr));
    }
}

/// What a rook or a bishop sees, its mirror image sees mirrored.
pub proof fn lemma_sliders_mirrored(a: u8, k: u8, occ: u64, occ2: u64)
    requires
        a < 64,
        k < 64,
        forall|j: u8| j < 64 ==> holds(occ2, j) == holds(occ, flip_sq(j)),
    ensures
        rook_sees(a, k, occ) ==> rook_sees(flip_sq(a), flip_sq(k), occ2),
        bishop_sees(a, k, occ) ==> bishop_sees(flip_sq(a), flip_sq(k), occ2),
        holds(rook_attack_spec(a, occ), k) ==> holds(rook_attack_spec(flip_sq(a), occ2), flip_sq(k)),
        holds(bishop_attack_spec(a, occ), k) ==> holds(
            bishop_attack_spec(flip_sq(a), occ2),
            flip_sq(k),
        ),
{
    if ray_sees(a, k, 0, 1, occ) {
        lemma_ray_mirrored(a, k, 0, 1, occ, occ2);
    }
    if ray_sees(a, k, 0, -1, occ) {
        lemma_ray_mirrored(a, k, 0, -1, occ, occ2);
    }
    if ray_sees(a, k, 1, 0, occ) {
        lemma_ray_mirrored(a, k, 1, 0, occ, occ2);
    }
    if ray_sees(a, k, -1, 0, occ) {
        lemma_ray_mirrored(a, k, -1, 0, occ, occ2);
    }
    if ray_sees(a, k, 1, 1, occ) {
        lemma_ray_mirrored(a, k, 1, 1, occ, occ2);
    }
    if ray_sees(a, k, -1, 1, occ) {
        lemma_ray_mirrored(a, k, -1, 1, occ, occ2);
    }
    if ray_sees(a, k, 1, -1, occ) {
        lemma_ray_mirrored(a, k, 1, -1, occ, occ2);
    }
    if ray_sees(a, k, -1, -1, occ) {
        lemma_ray_mirrored(a, k, -1, -1, occ, occ2);
    }
    lemma_board_below(|j: u8| rook_sees(a, j, occ), 64, k);
    lemma_board_below(|j: u8| bishop_sees(a, j, occ), 64, k);
    lemma_board_below(|j: u8| rook_sees(flip_sq(a), j, occ2), 64, flip_sq(k));
    lemma_board_below(|j: u8| bishop_sees(flip_sq(a), j, occ2), 64, flip_sq(k));
}

/// The union of the mirrored colors holds the mirrored squares of the union.
pub proof fn lemma_mirror_union(a: u64, b: u64, j: u8)
    requires
        j < 64,
    ensures
        holds(mirror_board(a) | mirror_board(b), j) == holds(a | b, flip_sq(j)),
        holds(mirror_board(b) | mirror_board(a), j) == holds(a | b, flip_sq(j)),
{
    lemma_mirror_holds(a, j);
    lemma_mirror_holds(b, j);
    lemma_holds_ops(mirror_board(a), mirror_board(b), j);
    lemma_holds_ops(mirror_board(b), mirror_board(a), j);
    lemma_holds_ops(a, b, flip_sq(j));
}

/// A square of the pieces of some kinds, of a side, and of an attack set is,
/// mirrored, a square of the three mirrored.
proof fn lemma_term_mirrored(x: u64, us: u64, att: u64, x2: u64, us2: u64, att2: u64, k: u8, k2: u8)
    requires
        k < 64,
        k2 < 64,
        holds(x, k) ==> holds(x2, k2),
        holds(us, k) ==> holds(us2, k2),
        holds(att, k) ==> holds(att2, k2),
    ensures
        holds(x & us & att, k) ==> holds(x2 & us2 & att2, k2),
{
    lemma_holds_ops(x & us, att, k);
    lemma_holds_ops(x, us, k);
    lemma_holds_ops(x2 & us2, att2, k2);
    lemma_holds_ops(x2, us2, k2);
}

/// The steps of knight, king and pawn, mirrored.
proof fn lemma_steps_mirrored(sq: u8, k: u8, color: PieceColor)
    requires
        sq < 64,
        k < 64,
    ensures
        holds(knight_attack_spec(sq), k) ==> holds(knight_attack_spec(flip_sq(sq)), flip_sq(k)),
        holds(king_attack_spec(sq), k) ==> holds(king_attack_spec(flip_sq(sq)), flip_sq(k)),
        holds(pawn_attack_spec(color, sq), k) ==> holds(
            pawn_attack_spec(color.other(), flip_sq(sq)),
            flip_sq(k),
        ),
{
    let sq2 = flip_sq(sq);
    let k2 = flip_sq(k);
    lemma_flip(sq);
    lemma_flip(k);
    lemma_board_below(|j: u8| knight_step(sq, j), 64, k);
    lemma_board_below(|j: u8| knight_step(sq2, j), 64, k2);
    lemma_board_below(|j: u8| pawn_hits(color, sq, j), 64, k);
    lemma_board_below(|j: u8| pawn_hits(color.other(), sq2, j), 64, k2);
    lemma_board_below(|j: u8| king_step(sq, j), 64, k);
    lemma_board_below(|j: u8| king_step(sq2, j), 64, k2);
}

/// The pieces of a side that attack a square are, mirrored, the pieces of
/// the other side that attack the mirrored square in the mirrored position.
pub proof fn lemma_attackers_mirrored(pos: Position, sq: u8, by: PieceColor, k: u8)
    requires
        sq < 64,
        k < 64,
        holds(attackers(pos, sq, by), k),
    ensures
        holds(attackers(mirror(pos), flip_sq(sq), by.other()), flip_sq(k)),
{
    let m = mirror(pos);
    let us = pos.colors[by.idx()];
    let occ = pos.colors[0] | pos.colors[1];
    let us2 = m.colors[by.other().idx()];
    let occ2 = m.colors[0] | m.colors[1];
    let sq2 = flip_sq(sq);
    let k2 = flip_sq(k);
    lemma_flip(sq);
    lemma_flip(k);
    assert(us2 == mirror_board(us));
    assert forall|j: u8| j < 64 implies holds(occ2, j) == holds(occ, flip_sq(j)) by {
        lemma_mirror_union(pos.colors[0], pos.colors[1], j);
    }
    lemma_sliders_mirrored(sq, k, occ, occ2);
    lemma_steps_mirrored(sq, k, by.other());
    lemma_mirror_holds(us, k2);
    lemma_mirror_holds(pos.pieces[0], k2);
    lemma_mirror_holds(pos.pieces[1], k2);
    lemma_mirror_holds(pos.pieces[2], k2);
    lemma_mirror_holds(pos.pieces[3], k2);
    lemma_mirror_holds(pos.pieces[4], k2);
    lemma_mirror_holds(pos.pieces[5], k2);
    lemma_holds_ops(pos.pieces[3], pos.pieces[4], k);
    lemma_holds_ops(pos.pieces[2], pos.pieces[4], k);
    lemma_holds_ops(m.pieces[3], m.pieces[4], k2);
    lemma_holds_ops(m.pieces[2], m.pieces[4], k2);
    let rooks = (pos.pieces[3] | pos.pieces[4]) & us & rook_attack_spec(sq, occ);
    let bishops = (pos.pieces[2] | pos.pieces[4]) & us & bishop_attack_spec(sq, occ);
    let knights = pos.pieces[1] & us & knight_attack_spec(sq);
    let pawns = pos.pieces[0] & us & pawn_attack_spec(by.other(), sq);
    let kings = pos.pieces[5] & us & king_attack_spec(sq);
    let rooks2 = (m.pieces[3] | m.pieces[4]) & us2 & rook_attack_spec(sq2, occ2);
    let bishops2 = (m.pieces[2] | m.pieces[4]) & us2 & bishop_attack_spec(sq2, occ2);
    let knights2 = m.pieces[1] & us2 & knight_attack_spec(sq2);
    let pawns2 = m.pieces[0] & us2 & pawn_attack_spec(by, sq2);
    let kings2 = m.pieces[5] & us2 & king_attack_spec(sq2);
    lemma_term_mirrored(
        pos.pieces[3] | pos.pieces[4],
        us,
        rook_attack_spec(sq, occ),
        m.pieces[3] | m.pieces[4],
        us2,
        rook_attack_spec(sq2, occ2),
        k,
        k2,
    );
    lemma_term_mirrored(
        pos.pieces[2] | pos.pieces[4],
        us,
        bishop_attack_spec(sq, occ),
        m.pieces[2] | m.pieces[4],
        us2,
        bishop_attack_spec(sq2, occ2),
        k,
        k2,
    );
    lemma_term_mirrored(
        pos.pieces[1],
        us,
        knight_attack_spec(sq),
        m.pieces[1],
        us2,
        knight_attack_spec(sq2),
        k,
        k2,
    );
    lemma_term_mirrored(
        pos.pieces[0],
        us,
        pawn_attack_spec(by.other(), sq),
        m.pieces[0],
        us2,
        pawn_attack_spec(by, sq2),
        k,
        k2,
    );
    lemma_term_mirrored(
        pos.pieces[5],
        us,
        king_attack_spec(sq),
        m.pieces[5],
        us2,
        king_attack_spec(sq2),
        k,
        k2,
    );
    lemma_holds_ops(rooks, bishops, k);
    lemma_holds_ops(rooks | bishops, knights, k);
    lemma_holds_ops(rooks | bishops | knights, pawns, k);
    lemma_holds_ops(rooks | bishops | knights | pawns, kings, k);
    lemma_holds_ops(rooks2, bishops2, k2);
    lemma_holds_ops(rooks2 | bishops2, knights2, k2);
    lemma_holds_ops(rooks2 | bishops2 | knights2, pawns2, k2);
    lemma_holds_ops(rooks2 | bishops2 | knights2 | pawns2, kings2, k2);
}

/// A square that no piece of a side attacks is, mirrored, a square that no
/// piece of the other side attacks in the mirrored position.
pub proof fn lemma_unattacked_mirrored(pos: Position, sq: u8, by: PieceColor)
    requires
        sq < 64,
        pos.en_passant <= 64,
        pos.castling[0][0] <= 64,
        pos.castling[0][1] <= 64,
        pos.castling[1][0] <= 64,
        pos.castling[1][1] <= 64,
    ensures
        (attackers(pos, sq, by) == 0) == (attackers(mirror(pos), flip_sq(sq), by.other()) == 0),
{
    let a = attackers(pos, sq, by);
    let b = attackers(mirror(pos), flip_sq(sq), by.other());
    if a != 0 {
        lemma_lowest(a);
        lemma_attackers_mirrored(pos, sq, by, lowest(a));
        lemma_holds_ops(0, 0, flip_sq(lowest(a)));
    }
    lemma_flip(sq);
    if b != 0 {
        lemma_lowest(b);
        lemma_mirror_position_twice(pos);
        lemma_attackers_mirrored(mirror(pos), flip_sq(sq), by.other(), lowest(b));
        lemma_holds_ops(0, 0, flip_sq(lowest(b)));
    }
}

/// The rights of the position name squares of the board or nothing, and
/// its en-passant target, if it has one, lies on the sixth rank of the side
/// to move.
pub open spec fn tidy(pos: Position) -> bool {
    &&& pos.en_passant == 64 || match pos.side {
        PieceColor::White => 40 <= pos.en_passant < 48,
        PieceColor::Black => 16 <= pos.en_passant < 24,
    }
    &&& pos.castling[0][0] <= 64
    &&& pos.castling[0][1] <= 64
    &&& pos.castling[1][0] <= 64
    &&& pos.castling[1][1] <= 64
}

/// The lowest square of a mirrored board of at most one square is the
/// mirrored square.
proof fn lemma_lone_mirrored(b: u64, b2: u64)
    requires
        lone(b),
        forall|j: u8| j < 64 ==> holds(b2, j) == holds(b, flip_sq(j)),
    ensures
        (b2 == 0) == (b == 0),
        b != 0 ==> lowest(b2) == flip_sq(lowest(b)) && lowest(b) < 64,
        lone(b2),
{
    if b != 0 {
        lemma_lowest(b);
        let l = lowest(b);
        lemma_flip(l);
        assert(holds(b2, flip_sq(l)));
        if b2 == 0 {
            lemma_holds_ops(0, 0, flip_sq(l));
        }
        lemma_lowest(b2);
        let l2 = lowest(b2);
        lemma_flip(l2);
        assert(holds(b, flip_sq(l2)));
    }
    if b2 != 0 {
        lemma_lowest(b2);
        let l2 = lowest(b2);
        lemma_flip(l2);
        assert(holds(b, flip_sq(l2)));
        if b == 0 {
            lemma_holds_ops(0, 0, flip_sq(l2));
        }
    }
    assert forall|i: u8, j: u8| i < 64 && j < 64 && holds(b2, i) && holds(b2, j) implies i == j by {
        lemma_flip(i);
        lemma_flip(j);
    }
}

/// The king of a side in the mirrored position.
proof fn lemma_king_mirrored(pos: Position, side: PieceColor)
    requires
        lone_kings(pos),
    ensures
        forall|j: u8|
            j < 64 ==> holds(
                mirror(pos).pieces[5] & mirror(pos).colors[side.other().idx()],
                j,
            ) == holds(pos.pieces[5] & pos.colors[side.idx()], flip_sq(j)),
        (mirror(pos).pieces[5] & mirror(pos).colors[side.other().idx()] == 0) == (pos.pieces[5]
            & pos.colors[side.idx()] == 0),
        pos.pieces[5] & pos.colors[side.idx()] != 0 ==> lowest(
            mirror(pos).pieces[5] & mirror(pos).colors[side.other().idx()],
        ) == flip_sq(lowest(pos.pieces[5] & pos.colors[side.idx()])) && lowest(
            pos.pieces[5] & pos.colors[side.idx()],
        ) < 64,
        lone(mirror(pos).pieces[5] & mirror(pos).colors[side.other().idx()]),
{
    let king = pos.pieces[5] & pos.colors[side.idx()];
    let king2 = mirror(pos).pieces[5] & mirror(pos).colors[side.other().idx()];
    assert forall|j: u8| j < 64 implies holds(king2, j) == holds(king, flip_sq(j)) by {
        lemma_mirror_holds(pos.pieces[5], j);
        lemma_mirror_holds(pos.colors[side.idx()], j);
        lemma_holds_ops(mirror(pos).pieces[5], mirror(pos).colors[side.other().idx()], j);
        lemma_holds_ops(pos.pieces[5], pos.colors[side.idx()], flip_sq(j));
    }
    lemma_lone_mirrored(king, king2);
}

/// A side is in check in the mirrored position exactly if the other side
/// is in the position.
pub proof fn lemma_check_mirrored(pos: Position, side: PieceColor)
    requires
        tidy(pos),
        lone_kings(pos),
    ensures
        mirror(pos).in_check_spec(side.other()) == pos.in_check_spec(side),
{
    let king = pos.pieces[5] & pos.colors[side.idx()];
    lemma_king_mirrored(pos, side);
    if king != 0 {
        lemma_unattacked_mirrored(pos, lowest(king), side.other());
    }
}

/// Which squares hold which boards in the mirrored position.
proof fn lemma_mirror_square(pos: Position, k: u8)
    requires
        k < 64,
    ensures
        flip_sq(k) < 64,
        forall|t: int| 0 <= t < 6 ==> holds(#[trigger] mirror(pos).pieces[t], flip_sq(k)) == holds(
            pos.pieces[t],
            k,
        ),
        holds(mirror(pos).colors[pos.side.other().idx()], flip_sq(k)) == holds(
            pos.colors[pos.side.idx()],
            k,
        ),
        holds(mirror(pos).colors[pos.side.idx()], flip_sq(k)) == holds(
            pos.colors[pos.side.other().idx()],
            k,
        ),
        holds(mirror(pos).colors[0] | mirror(pos).colors[1], flip_sq(k)) == holds(
            pos.colors[0] | pos.colors[1],
            k,
        ),
        holds(
            mirror(pos).colors[pos.side.other().idx()] | mirror(pos).colors[pos.side.idx()],
            flip_sq(k),
        ) == holds(pos.colors[pos.side.idx()] | pos.colors[pos.side.other().idx()], k),
{
    let k2 = flip_sq(k);
    lemma_flip(k);
    lemma_mirror_holds(pos.pieces[0], k2);
    lemma_mirror_holds(pos.pieces[1], k2);
    lemma_mirror_holds(pos.pieces[2], k2);
    lemma_mirror_holds(pos.pieces[3], k2);
    lemma_mirror_holds(pos.pieces[4], k2);
    lemma_mirror_holds(pos.pieces[5], k2);
    lemma_mirror_holds(pos.colors[0], k2);
    lemma_mirror_holds(pos.colors[1], k2);
    lemma_holds_ops(mirror(pos).colors[0], mirror(pos).colors[1], k2);
    lemma_holds_ops(mirror(pos).colors[1], mirror(pos).colors[0], k2);
    lemma_holds_ops(pos.colors[0], pos.colors[1], k);
    lemma_holds_ops(pos.colors[1], pos.colors[0], k);
}

/// A move of a queen, rook, bishop or knight that the position offers is,
/// mirrored, one that the mirrored position offers.
proof fn lemma_piece_move_mirrored(pos: Position, m: Move, quiets: bool)
    requires
        offers_piece_move(pos, m, quiets),
    ensures
        offers_piece_move(mirror(pos), mirror_move(m), quiets),
{
    let us = pos.colors[pos.side.idx()];
    let them = pos.colors[pos.side.other().idx()];
    let mp = mirror(pos);
    let us2 = mp.colors[mp.side.idx()];
    let them2 = mp.colors[mp.side.other().idx()];
    let occ = us | them;
    let occ2 = us2 | them2;
    lemma_mirror_square(pos, m.from);
    lemma_mirror_square(pos, m.to);
    assert forall|j: u8| j < 64 implies holds(occ2, j) == holds(occ, flip_sq(j)) by {
        lemma_flip(j);
        lemma_mirror_square(pos, flip_sq(j));
    }
    lemma_sliders_mirrored(m.from, m.to, occ, occ2);
    lemma_steps_mirrored(m.from, m.to, pos.side);
    lemma_holds_ops(rook_attack_spec(m.from, occ), bishop_attack_spec(m.from, occ), m.to);
    lemma_holds_ops(
        rook_attack_spec(flip_sq(m.from), occ2),
        bishop_attack_spec(flip_sq(m.from), occ2),
        flip_sq(m.to),
    );
}

/// A move of the king that the position offers is, mirrored, one that the
/// mirrored position offers.
proof fn lemma_king_move_mirrored(pos: Position, m: Move, quiets: bool)
    requires
        lone_kings(pos),
        offers_king_move(pos, m, quiets),
    ensures
        offers_king_move(mirror(pos), mirror_move(m), quiets),
{
    lemma_king_mirrored(pos, pos.side);
    lemma_mirror_square(pos, m.to);
    lemma_steps_mirrored(m.from, m.to, pos.side);
}

/// A castling move that the position offers is, mirrored, one that the
/// mirrored position offers.
proof fn lemma_castling_mirrored(pos: Position, m: Move, quiets: bool)
    requires
        tidy(pos),
        lone_kings(pos),
        offers_castling(pos, m, quiets),
    ensures
        offers_castling(mirror(pos), mirror_move(m), quiets),
{
    let s = pos.side.idx();
    let home = king_home(s);
    lemma_king_mirrored(pos, pos.side);
    lemma_check_mirrored(pos, pos.side);
    lemma_flip(home);
    lemma_flip((home - 1) as u8);
    lemma_flip((home - 2) as u8);
    lemma_flip((home - 3) as u8);
    lemma_flip((home + 1) as u8);
    lemma_flip((home + 2) as u8);
    lemma_mirror_square(pos, (home - 1) as u8);
    lemma_mirror_square(pos, (home - 2) as u8);
    lemma_mirror_square(pos, (home - 3) as u8);
    lemma_mirror_square(pos, (home + 1) as u8);
    lemma_mirror_square(pos, (home + 2) as u8);
    lemma_unattacked_mirrored(pos, (home - 1) as u8, pos.side.other());
    lemma_unattacked_mirrored(pos, (home + 1) as u8, pos.side.other());
    lemma_right_twice(pos.castling[s][0]);
    lemma_right_twice(pos.castling[s][1]);
}

/// What mirroring does to the squares and the step of a pawn's move.
proof fn lemma_pawn_squares_mirrored(pos: Position, m: Move, quiets: bool)
    requires
        offers_pawn_move(pos, m, quiets),
    ensures
        flip_sq(m.from) < 64,
        flip_sq(m.to) < 64,
        holds(mirror(pos).pieces[0], flip_sq(m.from)),
        holds(mirror(pos).colors[pos.side.other().idx()], flip_sq(m.from)),
        flip_sq(m.to) - flip_sq(m.from) == (m.to / 8 - m.from / 8) * -8 + (m.to % 8 - m.from % 8),
        step_flags(mirror_move(m), 0) == step_flags(m, 0),
        step_flags(mirror_move(m), 4) == step_flags(m, 4),
        holds(start_rank(pos.side.other()), flip_sq(m.from)) == holds(start_rank(pos.side), m.from),
        holds(ep_rank(pos.side.other()), flip_sq(m.from)) == holds(ep_rank(pos.side), m.from),
        flip_sq(m.to) % 8 == m.to % 8,
        flip_sq(m.from) % 8 == m.from % 8,
{
    lemma_mirror_square(pos, m.from);
    lemma_flip(m.from);
    lemma_flip(m.to);
    lemma_pawn_ranks(m.from);
    lemma_pawn_ranks(flip_sq(m.from));
}

/// A single or double step that the position offers is, mirrored, one that
/// the mirrored position offers.
proof fn lemma_push_mirrored(pos: Position, m: Move, quiets: bool)
    requires
        offers_pawn_move(pos, m, quiets),
        quiets,
        m.to == m.from + advance(pos.side) || (m.flags == 1 && m.to == m.from + 2 * advance(pos.side)),
        !holds(pos.colors[0] | pos.colors[1], m.to),
        m.to == m.from + advance(pos.side) ==> step_flags(m, 0),
        m.flags == 1 && m.to == m.from + 2 * advance(pos.side) ==> !holds(
            pos.colors[0] | pos.colors[1],
            (m.from + advance(pos.side)) as u8,
        ) && holds(start_rank(pos.side), m.from),
    ensures
        offers_pawn_move(mirror(pos), mirror_move(m), quiets),
{
    let ahead = advance(pos.side);
    let mp = mirror(pos);
    let mm = mirror_move(m);
    lemma_pawn_squares_mirrored(pos, m, quiets);
    lemma_mirror_square(pos, m.to);
    lemma_pawn_ranks(m.from);
    if m.to == m.from + ahead {
        assert(mm.to == mm.from + advance(mp.side));
        assert(!holds(mp.colors[0] | mp.colors[1], mm.to));
        assert(step_flags(mm, 0));
    } else {
        let mid = (m.from + ahead) as u8;
        lemma_flip(mid);
        lemma_mirror_square(pos, mid);
        assert(mm.to == mm.from + 2 * advance(mp.side));
        assert(flip_sq(mid) == mm.from + advance(mp.side));
        assert(!holds(mp.colors[0] | mp.colors[1], (mm.from + advance(mp.side)) as u8));
        assert(holds(start_rank(mp.side), mm.from));
    }
}

/// A capture by a pawn that the position offers is, mirrored, one that the
/// mirrored position offers.
proof fn lemma_pawn_capture_mirrored(pos: Position, m: Move, quiets: bool)
    requires
        tidy(pos),
        offers_pawn_move(pos, m, quiets),
        m.to == m.from + capture_step(pos.side, 7) || m.to == m.from + capture_step(pos.side, 9),
        (holds(pos.colors[pos.side.other().idx()], m.to) && step_flags(m, 4) && (m.to % 8 - m.from % 8
            == 1 || m.from % 8 - m.to % 8 == 1)) || (m.flags == 5 && pos.en_passant < 64 && m.to
            == pos.en_passant && holds(ep_rank(pos.side), m.from)),
    ensures
        offers_pawn_move(mirror(pos), mirror_move(m), quiets),
{
    let mp = mirror(pos);
    let mm = mirror_move(m);
    lemma_pawn_squares_mirrored(pos, m, quiets);
    lemma_mirror_square(pos, m.to);
    lemma_pawn_ranks(m.from);
    assert(m.to % 8 - m.from % 8 == 1 || m.from % 8 - m.to % 8 == 1);
    assert(mm.to == mm.from + capture_step(mp.side, 7) || mm.to == mm.from + capture_step(mp.side, 9));
    if holds(pos.colors[pos.side.other().idx()], m.to) && step_flags(m, 4) && (m.to % 8 - m.from % 8
        == 1 || m.from % 8 - m.to % 8 == 1) {
        assert(holds(mp.colors[mp.side.other().idx()], mm.to));
        assert(step_flags(mm, 4));
    } else {
        lemma_flip(pos.en_passant);
        assert(mm.flags == 5 && mp.en_passant < 64 && mm.to == mp.en_passant);
        assert(holds(ep_rank(mp.side), mm.from));
    }
}

/// A move of a pawn that the position offers is, mirrored, one that the
/// mirrored position offers.
proof fn lemma_pawn_move_mirrored(pos: Position, m: Move, quiets: bool)
    requires
        tidy(pos),
        offers_pawn_move(pos, m, quiets),
    ensures
        offers_pawn_move(mirror(pos), mirror_move(m), quiets),
{
    let ahead = advance(pos.side);
    let occupied = pos.colors[0] | pos.colors[1];
    if quiets && m.to == m.from + ahead && !holds(occupied, m.to) && step_flags(m, 0) {
        lemma_push_mirrored(pos, m, quiets);
    } else if quiets && m.flags == 1 && m.to == m.from + 2 * ahead && !holds(occupied, m.to) && !holds(
        occupied,
        (m.from + ahead) as u8,
    ) && holds(start_rank(pos.side), m.from) {
        lemma_push_mirrored(pos, m, quiets);
    } else {
        lemma_pawn_capture_mirrored(pos, m, quiets);
    }
}

/// Every move that a position offers is, mirrored, one that the mirrored
/// position offers.
pub proof fn lemma_offers_mirrored(pos: Position, m: Move, quiets: bool)
    requires
        tidy(pos),
        lone_kings(pos),
        offers(pos, m, quiets),
    ensures
        offers(mirror(pos), mirror_move(m), quiets),
{
    if offers_piece_move(pos, m, quiets) {
        lemma_piece_move_mirrored(pos, m, quiets);
    } else if offers_king_move(pos, m, quiets) {
        lemma_king_move_mirrored(pos, m, quiets);
    } else if offers_castling(pos, m, quiets) {
        lemma_castling_mirrored(pos, m, quiets);
    } else {
        lemma_pawn_move_mirrored(pos, m, quiets);
    }
}

/// The mirrored position is as tidy as the position, and has no more kings.
pub proof fn lemma_mirror_tidy(pos: Position)
    requires
        tidy(pos),
        lone_kings(pos),
    ensures
        tidy(mirror(pos)),
        lone_kings(mirror(pos)),
        mirror(mirror(pos)) == pos,
{
    lemma_king_mirrored(pos, PieceColor::White);
    lemma_king_mirrored(pos, PieceColor::Black);
    lemma_right_twice(pos.castling[0][0]);
    lemma_right_twice(pos.castling[0][1]);
    lemma_right_twice(pos.castling[1][0]);
    lemma_right_twice(pos.castling[1][1]);
    lemma_right_twice(pos.en_passant);
    if pos.en_passant < 64 {
        lemma_flip(pos.en_passant);
    }
    lemma_mirror_position_twice(pos);
}

/// The generator is the same for both sides: the moves that it lists for
/// the mirrored position are the mirrored moves that it lists for the
/// position, where neither side has more than one king and the en-passant
/// target, if there is one, lies on the sixth rank of the side to move.
pub proof fn lemma_movegen_mirrored(pos: Position, m: Move, quiets: bool)
    requires
        tidy(pos),
        lone_kings(pos),
        m.from < 64,
        m.to < 64,
    ensures
        movegen_spec(mirror(pos), quiets).contains(mirror_move(m)) == movegen_spec(pos, quiets).contains(m),
{
    lemma_movegen_is_offers(pos, m, quiets);
    lemma_movegen_is_offers(mirror(pos), mirror_move(m), quiets);
    if offers(pos, m, quiets) {
        lemma_offers_mirrored(pos, m, quiets);
    }
    if offers(mirror(pos), mirror_move(m), quiets) {
        lemma_mirror_tidy(pos);
        lemma_offers_mirrored(mirror(pos), mirror_move(m), quiets);
        lemma_flip(m.from);
        lemma_flip(m.to);
        assert(mirror_move(mirror_move(m)) == m);
    }
}

} // verus!
