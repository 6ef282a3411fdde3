//! The scores and the hash that the search keeps up move by move are those
//! of the position from scratch.
use vstd::prelude::*;
use crate::position::{
    ep_victim, lemma_flag_bits, lemma_make_move_wf, victim, Move, Piece, PieceColor, PieceType,
    Position, };
use crate::search::eval::{
    eg_sum, eg_value, mg_sum, mg_value, phase_sum, phase_value, signed, tapered_spec, value_of,
};
use crate::search::{
    ep_keys, next_hash, next_phase, next_position, next_score, piece_keys, right_keys, SearchPosition,
};
use crate::zobrist::Keys;

verus! {

/// The values of `f` on the squares below `n`, added up.
pub open spec fn sum_to(f: spec_fn(u8) -> int, n: nat) -> int
    decreases n,
{
    if n == 0 {
        0
    } else {
        sum_to(f, (n - 1) as nat) + f((n - 1) as u8)
    }
}

/// The values of `f` on the squares below `n`, xored.
pub open spec fn xor_to(f: spec_fn(u8) -> u64, n: nat) -> u64
    decreases n,
{
    if n == 0 {
        0
    } else {
        xor_to(f, (n - 1) as nat) ^ f((n - 1) as u8)
    }
}

/// Two functions that agree on all squares but `k` have sums that differ
/// by what they differ on `k`.
pub proof fn lemma_sum_point(f: spec_fn(u8) -> int, g: spec_fn(u8) -> int, k: u8, n: nat)
    requires
        n <= 64,
        forall|j: u8| j < 64 && j != k ==> #[trigger] f(j) == g(j),
    ensures
        sum_to(g, n) == sum_to(f, n) + if k < n {
            g(k) - f(k)
        } else {
            0
        },
    decreases n,
{
    if n > 0 {
        lemma_sum_point(f, g, k, (n - 1) as nat);
    }
}

/// Two functions that agree on all squares have the same sum.
pub proof fn lemma_sum_same(f: spec_fn(u8) -> int, g: spec_fn(u8) -> int, n: nat)
    requires
        n <= 64,
        forall|j: u8| j < 64 ==> #[trigger] f(j) == g(j),
    ensures
        sum_to(g, n) == sum_to(f, n),
    decreases n,
{
    if n > 0 {
        lemma_sum_same(f, g, (n - 1) as nat);
    }
}

/// The sum of the negated values is the negated sum.
pub proof fn lemma_sum_neg(f: spec_fn(u8) -> int, g: spec_fn(u8) -> int, n: nat)
    requires
        n <= 64,
        forall|j: u8| j < 64 ==> #[trigger] g(j) == -f(j),
    ensures
        sum_to(g, n) == -sum_to(f, n),
    decreases n,
{
    if n > 0 {
        lemma_sum_neg(f, g, (n - 1) as nat);
    }
}

/// The laws of xor that the proofs below need.
pub proof fn lemma_xor(a: u64, b: u64, c: u64, d: u64)
    ensures
        a ^ 0 == a,
        a ^ a == 0,
        ((a ^ b) ^ b) ^ c == a ^ c,
        ((a ^ b) ^ c) ^ d == ((a ^ d) ^ b) ^ c,
        (a ^ b) ^ c == a ^ (b ^ c),
        a ^ b == b ^ a,
{
    assert({
        &&& a ^ 0 == a
        &&& a ^ a == 0
        &&& ((a ^ b) ^ b) ^ c == a ^ c
        &&& ((a ^ b) ^ c) ^ d == ((a ^ d) ^ b) ^ c
        &&& (a ^ b) ^ c == a ^ (b ^ c)
        &&& a ^ b == b ^ a
    }) by (bit_vector);
}

/// Two functions that agree on all squares but `k` have xors that differ
/// by what they have on `k`.
pub proof fn lemma_xor_point(f: spec_fn(u8) -> u64, g: spec_fn(u8) -> u64, k: u8, n: nat)
    requires
        n <= 64,
        forall|j: u8| j < 64 && j != k ==> #[trigger] f(j) == g(j),
    ensures
        xor_to(g, n) == if k < n {
            (xor_to(f, n) ^ f(k)) ^ g(k)
        } else {
            xor_to(f, n)
        },
    decreases n,
{
    if n > 0 {
        lemma_xor_point(f, g, k, (n - 1) as nat);
        let last = (n - 1) as u8;
        let below = xor_to(f, (n - 1) as nat);
        if k == last {
            lemma_xor(below, f(k), g(k), 0);
        } else if k < last {
            lemma_xor(below, f(k), g(k), f(last));
        }
    }
}

/// Two functions that agree on all squares have the same xor.
pub proof fn lemma_xor_same(f: spec_fn(u8) -> u64, g: spec_fn(u8) -> u64, n: nat)
    requires
        n <= 64,
        forall|j: u8| j < 64 ==> #[trigger] f(j) == g(j),
    ensures
        xor_to(g, n) == xor_to(f, n),
    decreases n,
{
    if n > 0 {
        lemma_xor_same(f, g, (n - 1) as nat);
    }
}

/// `f` on all squares but `k`, where it is `v`.
pub open spec fn patched<T>(f: spec_fn(u8) -> T, k: u8, v: T) -> spec_fn(u8) -> T {
    |sq: u8|
        if sq == k {
            v
        } else {
            f(sq)
        }
}

/// What the piece on `sq` counts for `side` by the midgame table, or with
/// `endgame` by the endgame table.
pub open spec fn square_value(endgame: bool, pos: Position, side: PieceColor) -> spec_fn(u8) -> int {
    |sq: u8|
        signed(
            value_of(endgame, pos.piece_on(sq).ty, pos.piece_on(sq).color, sq),
            pos.piece_on(sq).color,
            side,
        )
}

/// The midgame and endgame scores from scratch are sums over the squares.
pub proof fn lemma_scores_as_sums(pos: Position, side: PieceColor, n: nat)
    requires
        n <= 64,
    ensures
        mg_sum(pos, side, n) == sum_to(square_value(false, pos, side), n),
        eg_sum(pos, side, n) == sum_to(square_value(true, pos, side), n),
        phase_sum(pos, n) == sum_to(|sq: u8| phase_value(pos.piece_on(sq).ty), n),
    decreases n,
{
    if n > 0 {
        lemma_scores_as_sums(pos, side, (n - 1) as nat);
    }
}

/// The score that is kept up through a move that fits is the score of the
/// new position from scratch, by either table.
pub proof fn lemma_score_kept(endgame: bool, pos: Position, m: Move)
    requires
        pos.wf(),
        pos.fits(m),
    ensures
        next_score(endgame, pos, sum_to(square_value(endgame, pos, pos.side), 64), m) == sum_to(
            square_value(endgame, pos.make_move_spec(m), pos.side.other()),
            64,
        ),
{
    let next = pos.make_move_spec(m);
    let side = pos.side;
    let them = pos.side.other();
    lemma_make_move_wf(pos, m);
    lemma_flag_bits(m.flags);
    let f = square_value(endgame, pos, side);
    let g = square_value(endgame, next, side);
    let gneg = square_value(endgame, next, them);
    lemma_sum_neg(g, gneg, 64);
    assert(pos.square_ok(m.from));
    assert(pos.square_ok(m.to));
    assert(next.piece_on(m.from) == pos.piece_after(m, m.from));
    assert(next.piece_on(m.to) == pos.piece_after(m, m.to));
    assert(pos.piece_on(m.from) == (Piece { color: side, ty: m.piece }));
    let h1 = patched(f, m.from, g(m.from));
    lemma_sum_point(f, h1, m.from, 64);
    let h2 = patched(h1, m.to, g(m.to));
    lemma_sum_point(h1, h2, m.to, 64);
    if m.flags == 2 || m.flags == 3 {
        let a = Position::rook_from(m);
        let b = Position::rook_to(m);
        assert(pos.square_ok(a));
        assert(pos.square_ok(b));
        assert(next.piece_on(a) == pos.piece_after(m, a));
        assert(next.piece_on(b) == pos.piece_after(m, b));
        let h3 = patched(h2, a, g(a));
        lemma_sum_point(h2, h3, a, 64);
        let h4 = patched(h3, b, g(b));
        lemma_sum_point(h3, h4, b, 64);
        assert forall|j: u8| j < 64 implies #[trigger] h4(j) == g(j) by {
            assert(next.piece_on(j) == pos.piece_after(m, j));
        }
        lemma_sum_same(h4, g, 64);
    } else if m.flags == 5 {
        let v = ep_victim(pos.en_passant, side);
        assert(pos.square_ok(v));
        assert(next.piece_on(v) == pos.piece_after(m, v));
        let h3 = patched(h2, v, g(v));
        lemma_sum_point(h2, h3, v, 64);
        assert forall|j: u8| j < 64 implies #[trigger] h3(j) == g(j) by {
            assert(next.piece_on(j) == pos.piece_after(m, j));
        }
        lemma_sum_same(h3, g, 64);
    } else {
        assert forall|j: u8| j < 64 implies #[trigger] h2(j) == g(j) by {
            assert(next.piece_on(j) == pos.piece_after(m, j));
        }
        lemma_sum_same(h2, g, 64);
        if m.is_capture() {
            assert(pos.piece_on(m.to) == (Piece { color: them, ty: victim(pos.pieces, m.to) }));
        }
    }
}

/// The game phase that is kept up through a move that fits is the phase of
/// the new position from scratch.
pub proof fn lemma_phase_kept(pos: Position, m: Move)
    requires
        pos.wf(),
        pos.fits(m),
    ensures
        next_phase(pos, phase_sum(pos, 64), m) == phase_sum(pos.make_move_spec(m), 64),
{
    let next = pos.make_move_spec(m);
    let side = pos.side;
    let them = pos.side.other();
    lemma_make_move_wf(pos, m);
    lemma_flag_bits(m.flags);
    lemma_scores_as_sums(pos, side, 64);
    lemma_scores_as_sums(next, side, 64);
    let f = |sq: u8| phase_value(pos.piece_on(sq).ty);
    let g = |sq: u8| phase_value(next.piece_on(sq).ty);
    assert(pos.square_ok(m.from));
    assert(pos.square_ok(m.to));
    assert(next.piece_on(m.from) == pos.piece_after(m, m.from));
    assert(next.piece_on(m.to) == pos.piece_after(m, m.to));
    assert(pos.piece_on(m.from) == (Piece { color: side, ty: m.piece }));
    let h1 = patched(f, m.from, g(m.from));
    lemma_sum_point(f, h1, m.from, 64);
    let h2 = patched(h1, m.to, g(m.to));
    lemma_sum_point(h1, h2, m.to, 64);
    if m.flags == 2 || m.flags == 3 {
        let a = Position::rook_from(m);
        let b = Position::rook_to(m);
        assert(pos.square_ok(a));
        assert(pos.square_ok(b));
        assert(next.piece_on(a) == pos.piece_after(m, a));
        assert(next.piece_on(b) == pos.piece_after(m, b));
        let h3 = patched(h2, a, g(a));
        lemma_sum_point(h2, h3, a, 64);
        let h4 = patched(h3, b, g(b));
        lemma_sum_point(h3, h4, b, 64);
        assert forall|j: u8| j < 64 implies #[trigger] h4(j) == g(j) by {
            assert(next.piece_on(j) == pos.piece_after(m, j));
        }
        lemma_sum_same(h4, g, 64);
    } else if m.flags == 5 {
        let v = ep_victim(pos.en_passant, side);
        assert(pos.square_ok(v));
        assert(next.piece_on(v) == pos.piece_after(m, v));
        let h3 = patched(h2, v, g(v));
        lemma_sum_point(h2, h3, v, 64);
        assert forall|j: u8| j < 64 implies #[trigger] h3(j) == g(j) by {
            assert(next.piece_on(j) == pos.piece_after(m, j));
        }
        lemma_sum_same(h3, g, 64);
    } else {
        assert forall|j: u8| j < 64 implies #[trigger] h2(j) == g(j) by {
            assert(next.piece_on(j) == pos.piece_after(m, j));
        }
        lemma_sum_same(h2, g, 64);
        if m.is_capture() {
            assert(pos.piece_on(m.to) == (Piece { color: them, ty: victim(pos.pieces, m.to) }));
        }
    }
}

/// The evaluation that the search keeps up through a move that fits is the
/// evaluation of the new position from scratch: where the midgame score,
/// the endgame score, the game phase and the tapered score of a position
/// are exact, so are those of the position after the move.
pub proof fn lemma_eval_kept(sp: SearchPosition, m: Move)
    requires
        sp.pos.wf(),
        sp.pos.fits(m),
        sp.exact(),
        m != Move::null(),
    ensures
        next_position(sp, m).exact(),
        next_position(sp, m).pos == sp.pos.make_move_spec(m),
{
    let pos = sp.pos;
    let next = pos.make_move_spec(m);
    lemma_scores_as_sums(pos, pos.side, 64);
    lemma_scores_as_sums(next, next.side, 64);
    lemma_score_kept(false, pos, m);
    lemma_score_kept(true, pos, m);
    lemma_phase_kept(pos, m);
    lemma_sums_bounded(next, 64);
    lemma_tapered_between(
        mg_sum(next, next.side, 64),
        eg_sum(next, next.side, 64),
        phase_sum(next, 64),
    );
}

/// The tapered score lies between the midgame and the endgame score.
pub proof fn lemma_tapered_between(mg: int, eg: int, phase: int)
    ensures
        mg <= eg ==> mg <= tapered_spec(mg, eg, phase) <= eg,
        eg <= mg ==> eg <= tapered_spec(mg, eg, phase) <= mg,
{
    let p = if phase < 0 {
        0
    } else if phase > 24 {
        24
    } else {
        phase
    };
    let x = mg * p + eg * (24 - p);
    assert(mg <= eg ==> 24 * mg <= x <= 24 * eg) by (nonlinear_arith)
        requires
            x == mg * p + eg * (24 - p),
            0 <= p <= 24,
    ;
    assert(eg <= mg ==> 24 * eg <= x <= 24 * mg) by (nonlinear_arith)
        requires
            x == mg * p + eg * (24 - p),
            0 <= p <= 24,
    ;
}

/// The scores and the phase from scratch are small.
pub proof fn lemma_sums_bounded(pos: Position, n: nat)
    requires
        n <= 64,
    ensures
        -984 * n <= mg_sum(pos, pos.side, n) <= 984 * n,
        -984 * n <= eg_sum(pos, pos.side, n) <= 984 * n,
        0 <= phase_sum(pos, n) <= 4 * n,
    decreases n,
{
    if n > 0 {
        lemma_sums_bounded(pos, (n - 1) as nat);
        let sq = (n - 1) as u8;
        let p = pos.piece_on(sq);
        lemma_value_bounded(p.ty, p.color, sq);
    }
}

/// No entry of a table is beyond 984, and none adds more than 4 to the phase.
pub proof fn lemma_value_bounded(kind: PieceType, color: PieceColor, sq: u8)
    requires
        sq < 64,
    ensures
        -984 <= mg_value(kind, color, sq) <= 984,
        -984 <= eg_value(kind, color, sq) <= 984,
        0 <= phase_value(kind) <= 4,
{
    let i = crate::search::eval::flip_spec(sq, color) as int;
    assert(0 <= i < 64);
}

/// The key of the piece on `sq`.
pub open spec fn square_key(keys: Keys, pos: Position) -> spec_fn(u8) -> u64 {
    |sq: u8| keys.piece_key(sq, pos.piece_on(sq))
}

/// The hash of the pieces is an xor over the squares.
pub proof fn lemma_pieces_as_xor(keys: Keys, pos: Position, n: nat)
    requires
        n <= 64,
    ensures
        keys.pieces_hash(pos, n) == xor_to(square_key(keys, pos), n),
    decreases n,
{
    if n > 0 {
        lemma_pieces_as_xor(keys, pos, (n - 1) as nat);
    }
}

/// The keys of the pieces after a move that fits are those before it with
/// the keys of what the move changes xored in.
pub proof fn lemma_piece_keys_kept(keys: Keys, pos: Position, m: Move)
    requires
        pos.wf(),
        pos.fits(m),
    ensures
        keys.pieces_hash(pos.make_move_spec(m), 64) == keys.pieces_hash(pos, 64) ^ piece_keys(
            keys,
            pos,
            m,
        ),
{
    let next = pos.make_move_spec(m);
    let side = pos.side;
    let them = pos.side.other();
    lemma_make_move_wf(pos, m);
    lemma_flag_bits(m.flags);
    lemma_pieces_as_xor(keys, pos, 64);
    lemma_pieces_as_xor(keys, next, 64);
    let f = square_key(keys, pos);
    let g = square_key(keys, next);
    let pa = xor_to(f, 64);
    let pb = xor_to(g, 64);
    assert(pos.square_ok(m.from));
    assert(pos.square_ok(m.to));
    assert(next.piece_on(m.from) == pos.piece_after(m, m.from));
    assert(next.piece_on(m.to) == pos.piece_after(m, m.to));
    assert(pos.piece_on(m.from) == (Piece { color: side, ty: m.piece }));
    let kf = keys.piece_key(m.from, Piece { color: side, ty: m.piece });
    let landed = if m.flags == 2 || m.flags == 3 || m.flags == 5 {
        m.piece
    } else {
        m.placed()
    };
    let kt = keys.piece_key(m.to, Piece { color: side, ty: landed });
    let h1 = patched(f, m.from, g(m.from));
    lemma_xor_point(f, h1, m.from, 64);
    let h2 = patched(h1, m.to, g(m.to));
    lemma_xor_point(h1, h2, m.to, 64);
    let x1 = xor_to(h1, 64);
    let x2 = xor_to(h2, 64);
    assert(f(m.from) == kf);
    assert(g(m.from) == 0);
    assert(g(m.to) == kt);
    let ft = f(m.to);
    assert(x1 == (pa ^ kf) ^ 0);
    assert(x2 == (x1 ^ ft) ^ kt);
    let pk = piece_keys(keys, pos, m);
    if m.flags == 2 || m.flags == 3 {
        let a = Position::rook_from(m);
        let b = Position::rook_to(m);
        assert(pos.square_ok(a));
        assert(pos.square_ok(b));
        assert(next.piece_on(a) == pos.piece_after(m, a));
        assert(next.piece_on(b) == pos.piece_after(m, b));
        let h3 = patched(h2, a, g(a));
        lemma_xor_point(h2, h3, a, 64);
        let h4 = patched(h3, b, g(b));
        lemma_xor_point(h3, h4, b, 64);
        assert forall|j: u8| j < 64 implies #[trigger] h4(j) == g(j) by {
            assert(next.piece_on(j) == pos.piece_after(m, j));
        }
        lemma_xor_same(h4, g, 64);
        let ra = keys.piece_key(a, Piece { color: side, ty: PieceType::Rook });
        let rb = keys.piece_key(b, Piece { color: side, ty: PieceType::Rook });
        let x3 = xor_to(h3, 64);
        assert(ft == 0);
        assert(x3 == (x2 ^ ra) ^ 0);
        assert(pb == (x3 ^ 0) ^ rb);
        assert(pk == kf ^ ra ^ rb ^ 0 ^ kt);
        assert(pb == pa ^ pk) by (bit_vector)
            requires
                x1 == (pa ^ kf) ^ 0,
                x2 == (x1 ^ ft) ^ kt,
                ft == 0,
                x3 == (x2 ^ ra) ^ 0,
                pb == (x3 ^ 0) ^ rb,
                pk == kf ^ ra ^ rb ^ 0 ^ kt,
        ;
    } else if m.flags == 5 {
        let v = ep_victim(pos.en_passant, side);
        assert(pos.square_ok(v));
        assert(next.piece_on(v) == pos.piece_after(m, v));
        let h3 = patched(h2, v, g(v));
        lemma_xor_point(h2, h3, v, 64);
        assert forall|j: u8| j < 64 implies #[trigger] h3(j) == g(j) by {
            assert(next.piece_on(j) == pos.piece_after(m, j));
        }
        lemma_xor_same(h3, g, 64);
        let gone = keys.piece_key(v, Piece { color: them, ty: PieceType::Pawn });
        assert(pos.piece_on(v) == (Piece { color: them, ty: PieceType::Pawn }));
        assert(ft == 0);
        assert(pb == (x2 ^ gone) ^ 0);
        assert(pk == kf ^ 0 ^ 0 ^ gone ^ kt);
        assert(pb == pa ^ pk) by (bit_vector)
            requires
                x1 == (pa ^ kf) ^ 0,
                x2 == (x1 ^ ft) ^ kt,
                ft == 0,
                pb == (x2 ^ gone) ^ 0,
                pk == kf ^ 0 ^ 0 ^ gone ^ kt,
        ;
    } else {
        assert forall|j: u8| j < 64 implies #[trigger] h2(j) == g(j) by {
            assert(next.piece_on(j) == pos.piece_after(m, j));
        }
        lemma_xor_same(h2, g, 64);
        let gone = if m.is_capture() {
            keys.piece_key(m.to, Piece { color: them, ty: victim(pos.pieces, m.to) })
        } else {
            0
        };
        if m.is_capture() {
            assert(pos.piece_on(m.to) == (Piece { color: them, ty: victim(pos.pieces, m.to) }));
        }
        assert(ft == gone);
        assert(pk == kf ^ 0 ^ 0 ^ gone ^ kt);
        assert(x2 == pa ^ pk) by (bit_vector)
            requires
                x1 == (pa ^ kf) ^ 0,
                x2 == (x1 ^ ft) ^ kt,
                ft == gone,
                pk == kf ^ 0 ^ 0 ^ gone ^ kt,
        ;
    }
}

/// The keys of the castling rights after a move that fits are those
/// before it with the keys of the rights that the move takes xored in.
pub proof fn lemma_right_keys_kept(keys: Keys, pos: Position, m: Move)
    requires
        pos.wf(),
        pos.fits(m),
    ensures
        keys.rights_hash(pos.make_move_spec(m)) == keys.rights_hash(pos) ^ right_keys(keys, pos, m),
{
    let next = pos.make_move_spec(m);
    let s = pos.side.idx();
    let t = pos.side.other().idx();
    lemma_flag_bits(m.flags);
    crate::bitboard::lemma_holds_bit(m.from, m.to);
    crate::position::lemma_xor_piece_all(pos.pieces, m.piece.idx(), crate::bitboard::bit(m.from), m.to);
    assert(victim(crate::position::xor_piece(pos.pieces, m.piece.idx(), crate::bitboard::bit(m.from)), m.to)
        == victim(pos.pieces, m.to));
    let a = keys.right_key(s, 0, pos.castling[s][0]);
    let b = keys.right_key(s, 1, pos.castling[s][1]);
    let c = keys.right_key(t, 0, pos.castling[t][0]);
    let d = keys.right_key(t, 1, pos.castling[t][1]);
    let a2 = keys.right_key(s, 0, next.castling[s][0]);
    let b2 = keys.right_key(s, 1, next.castling[s][1]);
    let c2 = keys.right_key(t, 0, next.castling[t][0]);
    let d2 = keys.right_key(t, 1, next.castling[t][1]);
    let king = m.piece == PieceType::King;
    let own0 = if king || m.from == pos.castling[s][0] {
        a
    } else {
        0
    };
    let own1 = if king || (m.from != pos.castling[s][0] && m.from == pos.castling[s][1]) {
        b
    } else {
        0
    };
    let plain_capture = m.flags != 2 && m.flags != 3 && m.flags != 5 && m.is_capture();
    let rook_taken = plain_capture && victim(pos.pieces, m.to) == PieceType::Rook;
    let th0 = if rook_taken && m.to == pos.castling[t][0] {
        c
    } else {
        0
    };
    let th1 = if rook_taken && m.to != pos.castling[t][0] && m.to == pos.castling[t][1] {
        d
    } else {
        0
    };
    let their = if rook_taken {
        if m.to == pos.castling[t][0] {
            c
        } else if m.to == pos.castling[t][1] {
            d
        } else {
            0
        }
    } else {
        0
    };
    lemma_xor(a, b, c, d);
    lemma_xor(b, a, c, d);
    lemma_xor(c, a, b, d);
    lemma_xor(d, a, b, c);
    lemma_xor(0, a, b, c);
    lemma_xor(0, d, c, b);
    lemma_xor(0, c, d, b);
    assert(a2 == a ^ own0);
    assert(b2 == b ^ own1);
    assert(c2 == c ^ th0);
    assert(d2 == d ^ th1);
    assert(their == th0 ^ th1);
    let rk = right_keys(keys, pos, m);
    assert(rk == own0 ^ own1 ^ their);
    let before = keys.rights_hash(pos);
    let after = keys.rights_hash(next);
    match pos.side {
        PieceColor::White => {
            assert(before == a ^ b ^ c ^ d);
            assert(after == a2 ^ b2 ^ c2 ^ d2);
            assert(after == before ^ rk) by (bit_vector)
                requires
                    before == a ^ b ^ c ^ d,
                    after == a2 ^ b2 ^ c2 ^ d2,
                    a2 == a ^ own0,
                    b2 == b ^ own1,
                    c2 == c ^ th0,
                    d2 == d ^ th1,
                    their == th0 ^ th1,
                    rk == own0 ^ own1 ^ their,
            ;
        },
        PieceColor::Black => {
            assert(before == c ^ d ^ a ^ b);
            assert(after == c2 ^ d2 ^ a2 ^ b2);
            assert(after == before ^ rk) by (bit_vector)
                requires
                    before == c ^ d ^ a ^ b,
                    after == c2 ^ d2 ^ a2 ^ b2,
                    a2 == a ^ own0,
                    b2 == b ^ own1,
                    c2 == c ^ th0,
                    d2 == d ^ th1,
                    their == th0 ^ th1,
                    rk == own0 ^ own1 ^ their,
            ;
        },
    }
}

/// The hash that the search keeps up through a move that fits is the hash
/// of the new position from scratch.
pub proof fn lemma_hash_kept(keys: Keys, pos: Position, m: Move)
    requires
        pos.wf(),
        pos.fits(m),
    ensures
        next_hash(keys, keys.zobrist(pos), pos, m) == keys.zobrist(pos.make_move_spec(m)),
{
    let next = pos.make_move_spec(m);
    lemma_piece_keys_kept(keys, pos, m);
    lemma_right_keys_kept(keys, pos, m);
    let s = keys.side_key(pos.side);
    let s2 = keys.side_key(next.side);
    let p = keys.pieces_hash(pos, 64);
    let pb = keys.pieces_hash(next, 64);
    let r = keys.rights_hash(pos);
    let r2 = keys.rights_hash(next);
    let e = keys.ep_key(pos.en_passant);
    let e2 = keys.ep_key(next.en_passant);
    let pk = piece_keys(keys, pos, m);
    let rk = right_keys(keys, pos, m);
    let ek = ep_keys(keys, pos, m);
    let black = keys.black;
    assert(e2 == if m.flags == 1 {
        keys.en_passant[m.to as int % 8]
    } else {
        0
    });
    assert(ek == e ^ e2);
    let old = keys.zobrist(pos);
    let new = keys.zobrist(next);
    let kept = next_hash(keys, old, pos, m);
    assert(kept == new) by (bit_vector)
        requires
            old == s ^ p ^ r ^ e,
            new == s2 ^ pb ^ r2 ^ e2,
            kept == old ^ pk ^ ek ^ rk ^ black,
            pb == p ^ pk,
            r2 == r ^ rk,
            ek == e ^ e2,
            (s == 0 && s2 == black) || (s == black && s2 == 0),
    ;
}

/// For every move that the generator lists for a position of a game, the
/// hash that is kept up through the move is the hash of the new position
/// from scratch.
pub proof fn lemma_generated_hash_kept(keys: Keys, pos: Position, quiets: bool, i: int)
    requires
        pos.valid(),
        0 <= i < crate::movegen::movegen_spec(pos, quiets).len(),
    ensures
        next_hash(keys, keys.zobrist(pos), pos, crate::movegen::movegen_spec(pos, quiets)[i])
            == keys.zobrist(pos.make_move_spec(crate::movegen::movegen_spec(pos, quiets)[i])),
{
    crate::movegen::laws::lemma_generated_move_fits(pos, quiets, i);
    lemma_hash_kept(keys, pos, crate::movegen::movegen_spec(pos, quiets)[i]);
}

/// For every move that the generator lists for a position of a game, the
/// evaluation that is kept up through the move is the evaluation of the new
/// position from scratch.
pub proof fn lemma_generated_eval_kept(sp: SearchPosition, quiets: bool, i: int)
    requires
        sp.pos.valid(),
        sp.exact(),
        0 <= i < crate::movegen::movegen_spec(sp.pos, quiets).len(),
    ensures
        next_position(sp, crate::movegen::movegen_spec(sp.pos, quiets)[i]).exact(),
        next_position(sp, crate::movegen::movegen_spec(sp.pos, quiets)[i]).pos == sp.pos.make_move_spec(
            crate::movegen::movegen_spec(sp.pos, quiets)[i],
        ),
{
    let m = crate::movegen::movegen_spec(sp.pos, quiets)[i];
    crate::movegen::laws::lemma_generated_move_fits(sp.pos, quiets, i);
    crate::movegen::laws::lemma_movegen_admitted(sp.pos, quiets);
    lemma_eval_kept(sp, m);
}

} // verus!
