//! Pseudo-legal move generation.
pub mod king;
pub mod knight;
pub mod distinct;
pub mod laws;
pub mod mirror;
pub mod pawn;
pub mod sliding;

use vstd::prelude::*;
use vstd::string::StringExecFns;
use crate::bitboard::{
    board_of, east, holds, lemma_board_of, lemma_holds_ops, lemma_pop, lemma_squares_empty, lsb,
    north, reset_lsb, south, square_bit, squares, west,
};
use crate::movegen::king::{generate_lookup, king_attack_spec};
use crate::movegen::king::{castling_moves, castling_moves_spec, king_moves, king_moves_spec};
use crate::movegen::knight::{generate_moves, knight_attack_spec, knight_moves};
use crate::movegen::pawn::{pawn_moves, pawn_moves_spec};
use crate::movegen::sliding::{bishop_moves, queen_moves, rook_moves};
use crate::movegen::sliding::magic::{bishop_attack_spec, rook_attack_spec, SlidingTable};
use crate::bitboard::lowest;
use crate::position::{Move, PieceColor, PieceType, Position};

verus! {

/// A pawn of `color` on `a` attacks `k`.
pub open spec fn pawn_hits(color: PieceColor, a: u8, k: u8) -> bool {
    let x = k % 8 - a % 8;
    let y = k / 8 - a / 8;
    &&& x == 1 || x == -1
    &&& match color {
        PieceColor::White => y == 1,
        PieceColor::Black => y == -1,
    }
}

/// The squares that a pawn of `color` on `a` attacks.
pub open spec fn pawn_attack_spec(color: PieceColor, a: u8) -> u64 {
    board_of(|k: u8| pawn_hits(color, a, k))
}

/// The squares that a pawn of `color` on `square` attacks.
pub fn pawn_attack(color: PieceColor, square: u8) -> (result: u64)
    requires
        square < 64,
    ensures
        result == pawn_attack_spec(color, square),
{
    let pawn: u64 = square_bit(square);
    let e: u64 = east(pawn);
    let w: u64 = west(pawn);
    let a: u64 = match color {
        PieceColor::White => north(e),
        PieceColor::Black => south(e),
    };
    let b: u64 = match color {
        PieceColor::White => north(w),
        PieceColor::Black => south(w),
    };
    let result: u64 = a | b;
    proof {
        assert forall|k: u8| k < 64 implies holds(result, k) == pawn_hits(color, square, k) by {
            lemma_holds_ops(a, b, k);
            if k >= 8 {
                let below = (k - 8) as u8;
                crate::bitboard::lemma_holds_bit(square, below);
                if below % 8 != 0 {
                    crate::bitboard::lemma_holds_bit(square, (below - 1) as u8);
                }
                if below % 8 != 7 {
                    crate::bitboard::lemma_holds_bit(square, (below + 1) as u8);
                }
            }
            if k < 56 {
                let above = (k + 8) as u8;
                crate::bitboard::lemma_holds_bit(square, above);
                if above % 8 != 0 {
                    crate::bitboard::lemma_holds_bit(square, (above - 1) as u8);
                }
                if above % 8 != 7 {
                    crate::bitboard::lemma_holds_bit(square, (above + 1) as u8);
                }
            }
        }
        lemma_board_of(result, |k: u8| pawn_hits(color, square, k));
    }
    result
}

/// The table of pawn attacks of one color, one board per square.
fn pawn_attacks_of(color: PieceColor) -> (attacks: [u64; 64])
    ensures
        forall|i: int| 0 <= i < 64 ==> #[trigger] attacks[i] == pawn_attack_spec(color, i as u8),
{
    let mut attacks: [u64; 64] = [0u64; 64];
    let mut i: usize = 0;
    while i < 64
        invariant
            i <= 64,
            forall|j: int| 0 <= j < i ==> #[trigger] attacks[j] == pawn_attack_spec(color, j as u8),
        decreases 64 - i,
    {
        attacks[i] = pawn_attack(color, i as u8);
        i = i + 1;
    }
    attacks
}

/// The table of pawn attacks: White's boards, then Black's.
pub fn generate_attacks_lookup() -> (attacks: [[u64; 64]; 2])
    ensures
        forall|i: int|
            0 <= i < 64 ==> #[trigger] attacks[0][i] == pawn_attack_spec(PieceColor::White, i as u8),
        forall|i: int|
            0 <= i < 64 ==> #[trigger] attacks[1][i] == pawn_attack_spec(PieceColor::Black, i as u8),
{
    [pawn_attacks_of(PieceColor::White), pawn_attacks_of(PieceColor::Black)]
}

/// The lookup tables of the move generator. They are built once and handed
/// to every function that generates moves or asks for an attack.
pub struct Tables {
    pub king: [u64; 64],
    pub knight: [u64; 64],
    pub pawn: [[u64; 64]; 2],
    pub rook: SlidingTable,
    pub bishop: SlidingTable,
}

impl Tables {
    /// Every table holds, for every square, the attacks that the rules give.
    pub open spec fn wf(self) -> bool {
        &&& self.rook.wf()
        &&& self.rook.rook
        &&& self.bishop.wf()
        &&& !self.bishop.rook
        &&& forall|i: int| 0 <= i < 64 ==> #[trigger] self.king[i] == king_attack_spec(i as u8)
        &&& forall|i: int| 0 <= i < 64 ==> #[trigger] self.knight[i] == knight_attack_spec(i as u8)
        &&& forall|i: int|
            0 <= i < 64 ==> #[trigger] self.pawn[0][i] == pawn_attack_spec(PieceColor::White, i as u8)
        &&& forall|i: int|
            0 <= i < 64 ==> #[trigger] self.pawn[1][i] == pawn_attack_spec(PieceColor::Black, i as u8)
    }

    /// Builds all tables.
    pub fn new() -> (tables: Tables)
        ensures
            tables.wf(),
    {
        Tables {
            king: generate_lookup(),
            knight: generate_moves(),
            pawn: generate_attacks_lookup(),
            rook: SlidingTable::new(true),
            bishop: SlidingTable::new(false),
        }
    }
}

/// The squares that a pawn of `color` on `pawn` attacks.
pub fn single_pawn_attacks(tables: &Tables, pawn: u8, color: PieceColor) -> (result: u64)
    requires
        tables.wf(),
        pawn < 64,
    ensures
        result == pawn_attack_spec(color, pawn),
{
    match color {
        PieceColor::White => tables.pawn[0][pawn as usize],
        PieceColor::Black => tables.pawn[1][pawn as usize],
    }
}

/// A list of moves, in the order in which they were generated.
pub struct MoveList {
    pub moves: Vec<Move>,
}

impl View for MoveList {
    type V = Seq<Move>;

    open spec fn view(&self) -> Seq<Move> {
        self.moves@
    }
}

impl MoveList {
    /// An empty list with room for 256 moves.
    pub fn new() -> (list: MoveList)
        ensures
            list@ == Seq::<Move>::empty(),
    {
        MoveList { moves: Vec::with_capacity(256) }
    }

    /// The number of moves.
    pub fn len(&self) -> (n: usize)
        ensures
            n == self@.len(),
    {
        self.moves.len()
    }

    /// The move at place `i`.
    pub fn get(&self, i: usize) -> (m: Move)
        requires
            i < self@.len(),
        ensures
            m == self@[i as int],
    {
        self.moves[i]
    }

    /// Appends a move.
    pub fn push(&mut self, m: Move)
        ensures
            final(self)@ == old(self)@.push(m),
    {
        self.moves.push(m);
    }
}

/// The lists that `f` gives for the squares of `s`, one after the other.
pub open spec fn for_each_square(s: Seq<u8>, f: spec_fn(u8) -> Seq<Move>) -> Seq<Move>
    decreases s.len(),
{
    if s.len() == 0 {
        Seq::empty()
    } else {
        f(s[0]) + for_each_square(s.drop_first(), f)
    }
}

/// The first square of a list contributes first.
pub proof fn lemma_for_each_cons(sq: u8, rest: Seq<u8>, f: spec_fn(u8) -> Seq<Move>)
    ensures
        for_each_square(seq![sq] + rest, f) == f(sq) + for_each_square(rest, f),
{
    let s = seq![sq] + rest;
    assert(s.drop_first() =~= rest);
}

/// The move of `piece` from `from` to a given square, as a list of one.
pub open spec fn one_move(from: u8, flags: u8, piece: PieceType) -> spec_fn(u8) -> Seq<Move> {
    |to: u8| seq![Move { from, to, flags, piece }]
}

/// The moves of `piece` from `from` to each square of `targets`, lowest
/// square first.
pub open spec fn moves_to(from: u8, targets: u64, flags: u8, piece: PieceType) -> Seq<Move> {
    for_each_square(squares(targets), one_move(from, flags, piece))
}

/// Appends the moves of `piece` from `from` to each square of `targets`.
pub fn push_moves(list: &mut MoveList, from: u8, targets: u64, flags: u8, piece: PieceType)
    ensures
        final(list)@ == old(list)@ + moves_to(from, targets, flags, piece),
{
    let mut rest: u64 = targets;
    let ghost f = one_move(from, flags, piece);
    assert(list@ + for_each_square(squares(rest), f) == old(list)@ + moves_to(from, targets, flags, piece));
    while rest != 0
        invariant
            f == one_move(from, flags, piece),
            list@ + for_each_square(squares(rest), f) == old(list)@ + moves_to(
                from,
                targets,
                flags,
                piece,
            ),
        decreases rest,
    {
        let to: u8 = lsb(rest);
        let next: u64 = reset_lsb(rest);
        let ghost before = list@;
        proof {
            lemma_pop(rest, to, next);
            lemma_for_each_cons(to, squares(next), f);
        }
        list.push(Move::new(from, to, flags, piece));
        assert(list@ + for_each_square(squares(next), f) =~= before + for_each_square(squares(rest), f));
        rest = next;
    }
    proof {
        lemma_squares_empty(64);
        assert(list@ + Seq::<Move>::empty() =~= list@);
    }
}

/// The squares that a piece of `kind` on `from` attacks when `occ` are the
/// occupied squares. Only knights, bishops, rooks and queens are asked for
/// here.
pub open spec fn attack_of(kind: PieceType, from: u8, occ: u64) -> u64 {
    match kind {
        PieceType::Knight => knight_attack_spec(from),
        PieceType::Bishop => bishop_attack_spec(from, occ),
        PieceType::Rook => rook_attack_spec(from, occ),
        PieceType::Queen => rook_attack_spec(from, occ) | bishop_attack_spec(from, occ),
        _ => 0,
    }
}

/// The moves of `piece` from `from` within `reach`: those to squares that
/// the enemy does not hold, as quiet moves and only if `quiets`; then those
/// to squares of the enemy, as captures.
pub open spec fn piece_moves(from: u8, reach: u64, them: u64, quiets: bool, piece: PieceType) -> Seq<
    Move,
> {
    (if quiets {
        moves_to(from, reach & !them, 0, piece)
    } else {
        Seq::empty()
    }) + moves_to(from, reach & them, 4, piece)
}

/// The moves of one piece of `kind`, as a function of its square.
pub open spec fn kind_from(kind: PieceType, occ: u64, free: u64, them: u64, quiets: bool) -> spec_fn(
    u8,
) -> Seq<Move> {
    |from: u8| piece_moves(from, attack_of(kind, from, occ) & free, them, quiets, kind)
}

/// The moves of the pieces of `kind` on `pieces`, lowest square first,
/// where they may go to the squares of `free` that they attack.
pub open spec fn kind_moves(
    kind: PieceType,
    pieces: u64,
    occ: u64,
    free: u64,
    them: u64,
    quiets: bool,
) -> Seq<Move> {
    for_each_square(squares(pieces), kind_from(kind, occ, free, them, quiets))
}

/// Appends the moves of `piece` from `from` within `reach`.
pub fn push_piece_moves(
    list: &mut MoveList,
    from: u8,
    reach: u64,
    them: u64,
    quiets: bool,
    piece: PieceType,
)
    ensures
        final(list)@ == old(list)@ + piece_moves(from, reach, them, quiets, piece),
{
    if quiets {
        push_moves(list, from, reach & !them, 0, piece);
    }
    let ghost mid = list@;
    push_moves(list, from, reach & them, 4, piece);
    assert(list@ =~= old(list)@ + piece_moves(from, reach, them, quiets, piece));
}

/// Appends the moves of the pieces of `kind` on `pieces`.
pub fn each_piece(
    tables: &Tables,
    kind: PieceType,
    pieces: u64,
    occ: u64,
    free: u64,
    them: u64,
    quiets: bool,
    list: &mut MoveList,
)
    requires
        tables.wf(),
        kind == PieceType::Knight || kind == PieceType::Bishop || kind == PieceType::Rook || kind
            == PieceType::Queen,
    ensures
        final(list)@ == old(list)@ + kind_moves(kind, pieces, occ, free, them, quiets),
{
    let mut rest: u64 = pieces;
    let ghost f = kind_from(kind, occ, free, them, quiets);
    assert(list@ + for_each_square(squares(rest), f) == old(list)@ + kind_moves(
        kind,
        pieces,
        occ,
        free,
        them,
        quiets,
    ));
    while rest != 0
        invariant
            tables.wf(),
            kind == PieceType::Knight || kind == PieceType::Bishop || kind == PieceType::Rook || kind
                == PieceType::Queen,
            f == kind_from(kind, occ, free, them, quiets),
            list@ + for_each_square(squares(rest), f) == old(list)@ + kind_moves(
                kind,
                pieces,
                occ,
                free,
                them,
                quiets,
            ),
        decreases rest,
    {
        let from: u8 = lsb(rest);
        let next: u64 = reset_lsb(rest);
        let ghost before = list@;
        proof {
            lemma_pop(rest, from, next);
            lemma_for_each_cons(from, squares(next), f);
        }
        let attack: u64 = match kind {
            PieceType::Knight => tables.knight[from as usize],
            PieceType::Bishop => tables.bishop.lookup(from, occ),
            PieceType::Rook => tables.rook.lookup(from, occ),
            _ => tables.rook.lookup(from, occ) | tables.bishop.lookup(from, occ),
        };
        push_piece_moves(list, from, attack & free, them, quiets, kind);
        assert(list@ + for_each_square(squares(next), f) =~= before + for_each_square(squares(rest), f));
        rest = next;
    }
    proof {
        lemma_squares_empty(64);
        assert(list@ + Seq::<Move>::empty() =~= list@);
    }
}

/// The pieces of `side` that attack `square`: its rooks and queens along
/// ranks and files, its bishops and queens along diagonals, its knights, its
/// pawns, and its king.
pub open spec fn attackers(pos: Position, square: u8, side: PieceColor) -> u64 {
    let us = pos.colors[side.idx()];
    let occ = pos.colors[0] | pos.colors[1];
    ((pos.pieces[3] | pos.pieces[4]) & us & rook_attack_spec(square, occ)) | ((pos.pieces[2]
        | pos.pieces[4]) & us & bishop_attack_spec(square, occ)) | (pos.pieces[1] & us
        & knight_attack_spec(square)) | (pos.pieces[0] & us & pawn_attack_spec(side.other(), square))
        | (pos.pieces[5] & us & king_attack_spec(square))
}

/// Whether a piece of `side` attacks `square`.
pub fn is_attacking(tables: &Tables, square: u8, pos: &Position, side: PieceColor) -> (result: bool)
    requires
        tables.wf(),
        square < 64,
    ensures
        result == (attackers(*pos, square, side) != 0),
{
    let us: u64 = pos.colors[side.index()];
    let occ: u64 = pos.colors[0] | pos.colors[1];
    let rooks: u64 = (pos.pieces[3] | pos.pieces[4]) & us & tables.rook.lookup(square, occ);
    let bishops: u64 = (pos.pieces[2] | pos.pieces[4]) & us & tables.bishop.lookup(square, occ);
    let knights: u64 = pos.pieces[1] & us & tables.knight[square as usize];
    let pawns: u64 = pos.pieces[0] & us & single_pawn_attacks(tables, square, side.flip());
    let kings: u64 = pos.pieces[5] & us & tables.king[square as usize];
    (rooks | bishops | knights | pawns | kings) != 0
}

impl Position {
    /// The king of `side` is attacked. A side without a king is not in check.
    pub open spec fn in_check_spec(self, side: PieceColor) -> bool {
        let king = self.pieces[5] & self.colors[side.idx()];
        king != 0 && attackers(self, lowest(king), side.other()) != 0
    }

    /// Whether the king of `side` is attacked.
    pub fn in_check(&self, tables: &Tables, side: PieceColor) -> (result: bool)
        requires
            tables.wf(),
        ensures
            result == self.in_check_spec(side),
    {
        let king: u64 = self.pieces[5] & self.colors[side.index()];
        if king == 0 {
            false
        } else {
            is_attacking(tables, lsb(king), self, side.flip())
        }
    }
}

/// The pseudo-legal moves of the side to move, in the order in which they
/// are generated: queens, rooks, bishops, knights; the castling moves, if
/// quiet moves are asked for and the side is not in check; pawns; the king.
/// Without `quiets` only captures are listed. A move may leave the own king
/// in check: the caller plays it and looks.
pub open spec fn movegen_spec(pos: Position, quiets: bool) -> Seq<Move> {
    let occupied = pos.colors[0] | pos.colors[1];
    let empty = !occupied;
    let us = pos.colors[pos.side.idx()];
    let them = pos.colors[pos.side.other().idx()];
    kind_moves(PieceType::Queen, pos.pieces[4] & us, us | them, !us, them, quiets) + kind_moves(
        PieceType::Rook,
        pos.pieces[3] & us,
        us | them,
        !us,
        them,
        quiets,
    ) + kind_moves(PieceType::Bishop, pos.pieces[2] & us, us | them, !us, them, quiets) + kind_moves(
        PieceType::Knight,
        pos.pieces[1] & us,
        0,
        !us,
        them,
        quiets,
    ) + (if quiets && !pos.in_check_spec(pos.side) {
        castling_moves_spec(pos, pos.pieces[5] & us, empty)
    } else {
        Seq::empty()
    }) + pawn_moves_spec(pos.pieces[0] & us, empty, them, pos.en_passant, pos.side, quiets)
        + king_moves_spec(pos.pieces[5] & us, empty, them, quiets)
}

/// Generates the pseudo-legal moves of the side to move; with `QUIETS`
/// false, its captures only. The list holds the moves that the position
/// offers, and no others.
pub fn movegen<const QUIETS: bool>(tables: &Tables, pos: &Position) -> (moves: MoveList)
    requires
        tables.wf(),
    ensures
        moves@ == movegen_spec(*pos, QUIETS),
        forall|m: Move| #[trigger] moves@.contains(m) == crate::movegen::laws::offers(*pos, m, QUIETS),
{
    proof {
        assert forall|m: Move|
            #[trigger] movegen_spec(*pos, QUIETS).contains(m) == crate::movegen::laws::offers(
                *pos,
                m,
                QUIETS,
            ) by {
            crate::movegen::laws::lemma_movegen_is_offers(*pos, m, QUIETS);
        }
    }
    let mut moves = MoveList::new();
    let occupied: u64 = pos.colors[0] | pos.colors[1];
    let empty: u64 = !occupied;
    let us: u64 = pos.colors[pos.side.index()];
    let them: u64 = pos.colors[pos.side.flip().index()];
    queen_moves::<QUIETS>(tables, pos.pieces[4] & us, us, them, &mut moves);
    rook_moves::<QUIETS>(tables, pos.pieces[3] & us, us, them, &mut moves);
    bishop_moves::<QUIETS>(tables, pos.pieces[2] & us, us, them, &mut moves);
    knight_moves::<QUIETS>(tables, pos.pieces[1] & us, !us, them, &mut moves);
    if QUIETS && !pos.in_check(tables, pos.side) {
        castling_moves(tables, pos.pieces[5] & us, empty, pos, &mut moves);
    }
    pawn_moves::<QUIETS>(pos.pieces[0] & us, empty, them, pos.en_passant, pos.side, &mut moves);
    king_moves::<QUIETS>(tables, pos.pieces[5] & us, empty, them, &mut moves);
    assert(moves@ =~= movegen_spec(*pos, QUIETS));
    moves
}

/// The first move of `moves` that the protocol writes as `text`.
pub open spec fn first_named(moves: Seq<Move>, text: Seq<char>) -> Option<Move>
    decreases moves.len(),
{
    if moves.len() == 0 {
        None
    } else if moves[0].uci_spec() == text {
        Some(moves[0])
    } else {
        first_named(moves.drop_first(), text)
    }
}

/// The generated move that the protocol writes as `s`, if there is one: of
/// several the first.
pub fn find_move(tables: &Tables, pos: &Position, s: &str) -> (r: Option<Move>)
    requires
        tables.wf(),
        pos.halfmove < 255,
    ensures
        r == first_named(movegen_spec(*pos, true), s@),
        r.is_some() ==> pos.admits(r.unwrap()),
{
    let moves = movegen::<true>(tables, pos);
    let wanted: String = String::from_str(s);
    proof {
        crate::movegen::laws::lemma_movegen_admitted(*pos, true);
        assert(moves@.skip(0) =~= moves@);
    }
    let mut i: usize = 0;
    while i < moves.len()
        invariant
            i <= moves@.len(),
            wanted@ == s@,
            moves@ == movegen_spec(*pos, true),
            forall|k: int| 0 <= k < moves@.len() ==> pos.admits(#[trigger] moves@[k]),
            first_named(moves@.skip(i as int), s@) == first_named(moves@, s@),
        decreases moves@.len() - i,
    {
        let m: Move = moves.get(i);
        proof {
            assert(moves@.skip(i as int)[0] == m);
            assert(moves@.skip(i as int).drop_first() =~= moves@.skip(i + 1));
        }
        let text: String = m.uci();
        if text == wanted {
            return Some(m);
        }
        i = i + 1;
    }
    proof {
        assert(moves@.skip(i as int).len() == 0);
    }
    None
}

impl Position {
    /// Plays the generated move that the protocol writes as `s`. A text that
    /// no generated move has changes nothing.
    pub fn make_move_uci(&mut self, tables: &Tables, s: &str)
        requires
            tables.wf(),
            old(self).halfmove < 255,
        ensures
            *final(self) == match first_named(movegen_spec(*old(self), true), s@) {
                Some(m) => old(self).make_move_spec(m),
                None => *old(self),
            },
    {
        match find_move(tables, self, s) {
            Some(m) => {
                let next: Position = self.make_move(m);
                *self = next;
            },
            None => {},
        }
    }
}

} // verus!
