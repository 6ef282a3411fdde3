//! Pieces, moves and the board state, with the rule that plays a move.
pub mod fen;

use vstd::prelude::*;
use vstd::string::StringExecFns;
use crate::bitboard::{
    bit, holds, is_set, lemma_board_ext, lemma_holds_bit, lemma_holds_ops, square_bit,
};

verus! {

/// The kinds of piece, in the order in which every table of the engine lists
/// them; `Empty` stands for no piece.
#[derive(Debug, Clone, Copy, PartialEq, Eq, Structural)]
pub enum PieceType {
    Pawn,
    Knight,
    Bishop,
    Rook,
    Queen,
    King,
    Empty,
}

/// The two sides.
#[derive(Debug, Clone, Copy, PartialEq, Eq, Structural)]
pub enum PieceColor {
    White,
    Black,
}

/// A piece: its color and its kind.
#[derive(Debug, Clone, Copy, PartialEq, Eq, Structural)]
pub struct Piece {
    pub color: PieceColor,
    pub ty: PieceType,
}

impl PieceType {
    /// The place of this kind in a table: 0 for a pawn up to 5 for a king, 6 for
    /// `Empty`.
    pub open spec fn idx(self) -> int {
        match self {
            PieceType::Pawn => 0,
            PieceType::Knight => 1,
            PieceType::Bishop => 2,
            PieceType::Rook => 3,
            PieceType::Queen => 4,
            PieceType::King => 5,
            PieceType::Empty => 6,
        }
    }

    /// The place of this value in a table.
    pub fn index(self) -> (r: usize)
        ensures
            r == self.idx(),
            r <= 6,
    {
        match self {
            PieceType::Pawn => 0,
            PieceType::Knight => 1,
            PieceType::Bishop => 2,
            PieceType::Rook => 3,
            PieceType::Queen => 4,
            PieceType::King => 5,
            PieceType::Empty => 6,
        }
    }
}

impl PieceColor {
    /// White is 0 and Black is 1.
    pub open spec fn idx(self) -> int {
        match self {
            PieceColor::White => 0,
            PieceColor::Black => 1,
        }
    }

    /// The other color.
    pub open spec fn other(self) -> PieceColor {
        match self {
            PieceColor::White => PieceColor::Black,
            PieceColor::Black => PieceColor::White,
        }
    }

    /// The place of this value in a table.
    pub fn index(self) -> (r: usize)
        ensures
            r == self.idx(),
            r < 2,
    {
        match self {
            PieceColor::White => 0,
            PieceColor::Black => 1,
        }
    }

    /// The other color.
    pub fn flip(self) -> (r: PieceColor)
        ensures
            r == self.other(),
            r != self,
    {
        match self {
            PieceColor::White => PieceColor::Black,
            PieceColor::Black => PieceColor::White,
        }
    }
}

/// The four flag bits of a move.
pub struct MoveFlag;

impl MoveFlag {
    /// A move that takes nothing and is none of the special moves.
    pub const QUIET: u8 = 0;

    /// The double step of a pawn.
    pub const DOUBLE_PAWN: u8 = 1;

    /// Castling to the queenside.
    pub const CASTLE_LEFT: u8 = 2;

    /// Castling to the kingside.
    pub const CASTLE_RIGHT: u8 = 3;

    /// A capture en passant: the capture bit and the lowest bit.
    pub const EP: u8 = 5;

    /// The bit that marks a capture.
    pub const CAP: u8 = 4;

    /// The bit that marks a promotion; the two bits below it name the new piece.
    pub const PROMO: u8 = 8;
}

/// The square that marks a castling right as lost, and the en-passant target
/// as absent.
pub const NO_SQUARE: u8 = 64;

/// A move: origin, target, flags and the kind of the piece that moves.
#[derive(Debug, Clone, Copy, PartialEq, Eq, Structural)]
pub struct Move {
    pub from: u8,
    pub to: u8,
    pub flags: u8,
    pub piece: PieceType,
}

impl Move {
    /// The null move: from a1 to a1, quiet, by a pawn.
    pub open spec fn null() -> Move {
        Move { from: 0, to: 0, flags: 0, piece: PieceType::Pawn }
    }

    /// The capture bit is set.
    pub open spec fn is_capture(self) -> bool {
        self.flags & 4 != 0
    }

    /// The promotion bit is set.
    pub open spec fn is_promotion(self) -> bool {
        self.flags & 8 != 0
    }

    /// The kind that a promoting pawn turns into, by the two low flag bits;
    /// `Empty` for a move that does not promote.
    pub open spec fn promoted(self) -> PieceType {
        if self.flags & 8 != 0 {
            if self.flags & 3 == 0 {
                PieceType::Knight
            } else if self.flags & 3 == 1 {
                PieceType::Bishop
            } else if self.flags & 3 == 2 {
                PieceType::Rook
            } else {
                PieceType::Queen
            }
        } else {
            PieceType::Empty
        }
    }

    /// The kind that stands on the target square once the move is played.
    pub open spec fn placed(self) -> PieceType {
        if self.is_promotion() {
            self.promoted()
        } else {
            self.piece
        }
    }

    /// The move as the protocol writes it: the names of its two squares and,
    /// for a promotion, the letter of the new piece.
    pub open spec fn uci_spec(self) -> Seq<char> {
        square_name(self.from) + square_name(self.to) + promotion_letter(self.promoted())
    }

    /// The move as the protocol writes it.
    pub fn uci(&self) -> (s: String)
        requires
            self.from < 64,
            self.to < 64,
        ensures
            s@ == self.uci_spec(),
    {
        let mut s = format_sq(self.from);
        let to = format_sq(self.to);
        s.append(to.as_str());
        s.append(promotion_name(self.promotion()));
        s
    }

    /// The null move.
    pub fn null_move() -> (m: Move)
        ensures
            m == Move::null(),
    {
        Move { from: 0, to: 0, flags: MoveFlag::QUIET, piece: PieceType::Pawn }
    }

    /// A move from its four parts.
    pub fn new(from: u8, to: u8, flags: u8, piece: PieceType) -> (m: Move)
        ensures
            m == (Move { from, to, flags, piece }),
    {
        Move { from, to, flags, piece }
    }

    /// The kind that stands on the target square once the move is played.
    pub fn landing(&self) -> (r: PieceType)
        ensures
            r == self.placed(),
    {
        if self.flags & MoveFlag::PROMO != 0 {
            self.promotion()
        } else {
            self.piece
        }
    }

    /// Whether the move is a capture.
    pub fn capture(&self) -> (r: bool)
        ensures
            r == self.is_capture(),
    {
        self.flags & MoveFlag::CAP != 0
    }

    /// The kind that a promoting pawn turns into; `Empty` for other moves.
    pub fn promotion(&self) -> (r: PieceType)
        ensures
            r == self.promoted(),
    {
        if self.flags & MoveFlag::PROMO != 0 {
            let low: u8 = self.flags & 3;
            if low == 0 {
                PieceType::Knight
            } else if low == 1 {
                PieceType::Bishop
            } else if low == 2 {
                PieceType::Rook
            } else {
                PieceType::Queen
            }
        } else {
            PieceType::Empty
        }
    }
}

/// The letter of a file, from `a` for 0 to `h` for 7.
pub open spec fn file_letter(file: int) -> char {
    if file == 0 {
        'a'
    } else if file == 1 {
        'b'
    } else if file == 2 {
        'c'
    } else if file == 3 {
        'd'
    } else if file == 4 {
        'e'
    } else if file == 5 {
        'f'
    } else if file == 6 {
        'g'
    } else {
        'h'
    }
}

/// The digit of a rank, from `1` for 0 to `8` for 7.
pub open spec fn rank_digit(rank: int) -> char {
    if rank == 0 {
        '1'
    } else if rank == 1 {
        '2'
    } else if rank == 2 {
        '3'
    } else if rank == 3 {
        '4'
    } else if rank == 4 {
        '5'
    } else if rank == 5 {
        '6'
    } else if rank == 6 {
        '7'
    } else {
        '8'
    }
}

/// The name of a square: the letter of its file and the digit of its rank.
pub open spec fn square_name(sq: u8) -> Seq<char> {
    seq![file_letter(sq as int % 8), rank_digit(sq as int / 8)]
}

/// The letter that a promoting move ends with; nothing for other moves.
pub open spec fn promotion_letter(kind: PieceType) -> Seq<char> {
    match kind {
        PieceType::Knight => seq!['n'],
        PieceType::Bishop => seq!['b'],
        PieceType::Rook => seq!['r'],
        PieceType::Queen => seq!['q'],
        _ => Seq::empty(),
    }
}

fn file_name(file: u8) -> (s: &'static str)
    requires
        file < 8,
    ensures
        s@ == seq![file_letter(file as int)],
{
    proof {
        reveal_strlit("a");
        reveal_strlit("b");
        reveal_strlit("c");
        reveal_strlit("d");
        reveal_strlit("e");
        reveal_strlit("f");
        reveal_strlit("g");
        reveal_strlit("h");
    }
    let s = if file == 0 {
        "a"
    } else if file == 1 {
        "b"
    } else if file == 2 {
        "c"
    } else if file == 3 {
        "d"
    } else if file == 4 {
        "e"
    } else if file == 5 {
        "f"
    } else if file == 6 {
        "g"
    } else {
        "h"
    };
    assert(s@ =~= seq![file_letter(file as int)]);
    s
}

fn rank_name(rank: u8) -> (s: &'static str)
    requires
        rank < 8,
    ensures
        s@ == seq![rank_digit(rank as int)],
{
    proof {
        reveal_strlit("1");
        reveal_strlit("2");
        reveal_strlit("3");
        reveal_strlit("4");
        reveal_strlit("5");
        reveal_strlit("6");
        reveal_strlit("7");
        reveal_strlit("8");
    }
    let s = if rank == 0 {
        "1"
    } else if rank == 1 {
        "2"
    } else if rank == 2 {
        "3"
    } else if rank == 3 {
        "4"
    } else if rank == 4 {
        "5"
    } else if rank == 5 {
        "6"
    } else if rank == 6 {
        "7"
    } else {
        "8"
    };
    assert(s@ =~= seq![rank_digit(rank as int)]);
    s
}

fn promotion_name(kind: PieceType) -> (s: &'static str)
    ensures
        s@ == promotion_letter(kind),
{
    proof {
        reveal_strlit("n");
        reveal_strlit("b");
        reveal_strlit("r");
        reveal_strlit("q");
        reveal_strlit("");
    }
    let s = match kind {
        PieceType::Knight => "n",
        PieceType::Bishop => "b",
        PieceType::Rook => "r",
        PieceType::Queen => "q",
        _ => "",
    };
    assert(s@ =~= promotion_letter(kind));
    s
}

/// The name of a square.
pub fn format_sq(sq: u8) -> (s: String)
    requires
        sq < 64,
    ensures
        s@ == square_name(sq),
{
    let mut s = String::from_str(file_name(sq % 8));
    s.append(rank_name(sq / 8));
    assert(s@ =~= square_name(sq));
    s
}

/// The board state: where the pieces stand, whose turn it is, which castling
/// rights are left, the en-passant target and the halfmove clock.
#[derive(Debug, Clone, Copy, PartialEq, Eq)]
pub struct Position {
    /// One board per kind of piece, both colors together.
    pub pieces: [u64; 6],
    /// One board per color.
    pub colors: [u64; 2],
    /// For each color the squares of the queenside and the kingside rook that
    /// may still castle; `NO_SQUARE` where the right is lost.
    pub castling: [[u8; 2]; 2],
    /// The square behind a pawn that has just made a double step, or
    /// `NO_SQUARE`.
    pub en_passant: u8,
    /// Plies since the last capture or pawn move.
    pub halfmove: u8,
    pub side: PieceColor,
}

/// The six boards with `mask` toggled in board `i`.
pub open spec fn xor_piece(a: [u64; 6], i: int, mask: u64) -> [u64; 6] {
    [
        if i == 0 { a[0] ^ mask } else { a[0] },
        if i == 1 { a[1] ^ mask } else { a[1] },
        if i == 2 { a[2] ^ mask } else { a[2] },
        if i == 3 { a[3] ^ mask } else { a[3] },
        if i == 4 { a[4] ^ mask } else { a[4] },
        if i == 5 { a[5] ^ mask } else { a[5] },
    ]
}

/// The rights of one color once a piece of it has left `from`: a king loses
/// both, a rook that leaves its own square loses that one.
pub open spec fn rights_after_leaving(own: [u8; 2], king: bool, from: u8) -> [u8; 2] {
    if king {
        [NO_SQUARE, NO_SQUARE]
    } else if from == own[0] {
        [NO_SQUARE, own[1]]
    } else if from == own[1] {
        [own[0], NO_SQUARE]
    } else {
        own
    }
}

/// The rights of one color once a rook of it has been taken on `to`.
pub open spec fn rights_after_loss(own: [u8; 2], to: u8) -> [u8; 2] {
    if to == own[0] {
        [NO_SQUARE, own[1]]
    } else if to == own[1] {
        [own[0], NO_SQUARE]
    } else {
        own
    }
}

/// The kind that a capture on `to` removes: the first of knight, bishop, rook
/// and queen whose board holds the square, else a pawn.
pub open spec fn victim(pieces: [u64; 6], to: u8) -> PieceType {
    if holds(pieces[1], to) {
        PieceType::Knight
    } else if holds(pieces[2], to) {
        PieceType::Bishop
    } else if holds(pieces[3], to) {
        PieceType::Rook
    } else if holds(pieces[4], to) {
        PieceType::Queen
    } else {
        PieceType::Pawn
    }
}

/// The square of the pawn that an en-passant capture removes: one rank
/// behind the target, seen from the side that captures.
pub open spec fn ep_victim(en_passant: u8, side: PieceColor) -> u8 {
    match side {
        PieceColor::White => (en_passant - 8) as u8,
        PieceColor::Black => (en_passant + 8) as u8,
    }
}

/// The kind whose board holds `sq`: the first of pawn, knight, bishop, rook,
/// queen and king that does, `Empty` where none does.
pub open spec fn kind_on(pieces: [u64; 6], sq: u8) -> PieceType {
    if holds(pieces[0], sq) {
        PieceType::Pawn
    } else if holds(pieces[1], sq) {
        PieceType::Knight
    } else if holds(pieces[2], sq) {
        PieceType::Bishop
    } else if holds(pieces[3], sq) {
        PieceType::Rook
    } else if holds(pieces[4], sq) {
        PieceType::Queen
    } else if holds(pieces[5], sq) {
        PieceType::King
    } else {
        PieceType::Empty
    }
}

/// How many of the six boards hold `sq`.
pub open spec fn kinds_at(pieces: [u64; 6], sq: u8) -> int {
    (if holds(pieces[0], sq) { 1int } else { 0 }) + (if holds(pieces[1], sq) { 1int } else { 0 })
        + (if holds(pieces[2], sq) { 1int } else { 0 }) + (if holds(pieces[3], sq) { 1int } else { 0 })
        + (if holds(pieces[4], sq) { 1int } else { 0 }) + (if holds(pieces[5], sq) { 1int } else { 0 })
}

/// The square on which a rook of `color` stands while it may still castle to
/// the queenside (`wing` 0) or the kingside (`wing` 1).
pub open spec fn rook_home(color: int, wing: int) -> u8 {
    (56 * color + 7 * wing) as u8
}

/// The square on which a king of `color` stands while it may still castle.
pub open spec fn king_home(color: int) -> u8 {
    (56 * color + 4) as u8
}

impl Position {
    /// The board of all pieces.
    pub open spec fn occupied(self) -> u64 {
        self.colors[0] | self.colors[1]
    }

    /// What a move must be for the machine to play it on this position: squares
    /// on the board, a real piece, a clock that can still count, for a double
    /// step or an en-passant capture a rank to step from, and for a castling
    /// move room for the rook on both sides of the king's target.
    pub open spec fn admits(self, m: Move) -> bool {
        &&& m.from < 64
        &&& m.to < 64
        &&& m.piece != PieceType::Empty
        &&& self.halfmove < 255
        &&& m.flags == 1 ==> match self.side {
            PieceColor::White => m.to >= 8,
            PieceColor::Black => m.to < 56,
        }
        &&& m.flags == 5 ==> match self.side {
            PieceColor::White => 8 <= self.en_passant < 64,
            PieceColor::Black => self.en_passant < 56,
        }
        &&& m.flags == 2 ==> 2 <= m.to < 63
        &&& m.flags == 3 ==> 1 <= m.to < 63
    }

    /// The position after the side to move has passed: the turn passes, the
    /// en-passant target is gone and the clock starts anew.
    pub open spec fn pass_spec(self) -> Position {
        Position { en_passant: NO_SQUARE, halfmove: 0, side: self.side.other(), ..self }
    }

    /// The position after `m`: the moving piece leaves its square, the clock and
    /// the en-passant target are set, rights are lost, the rook of a castling
    /// move or the victim of a capture is toggled, the piece (or what it is
    /// promoted to) lands, and the turn passes.
    pub open spec fn make_move_spec(self, m: Move) -> Position {
        let side = self.side.idx();
        let them = self.side.other().idx();
        let from_bit = bit(m.from);
        let to_bit = bit(m.to);
        let lifted = xor_piece(self.pieces, m.piece.idx(), from_bit);
        let halfmove = if m.is_capture() || m.piece == PieceType::Pawn {
            0u8
        } else {
            (self.halfmove + 1) as u8
        };
        let en_passant = if m.flags == 1 {
            match self.side {
                PieceColor::White => (m.to - 8) as u8,
                PieceColor::Black => (m.to + 8) as u8,
            }
        } else {
            NO_SQUARE
        };
        let own = rights_after_leaving(self.castling[side], m.piece == PieceType::King, m.from);
        let rook_left = (to_bit << 1) | (to_bit >> 2);
        let rook_right = (to_bit << 1) | (to_bit >> 1);
        let taken = victim(lifted, m.to);
        let plain_capture = m.flags != 2 && m.flags != 3 && m.flags != 5 && m.is_capture();
        let cleared = if m.flags == 2 {
            xor_piece(lifted, 3, rook_left)
        } else if m.flags == 3 {
            xor_piece(lifted, 3, rook_right)
        } else if m.flags == 5 {
            xor_piece(lifted, 0, bit(ep_victim(self.en_passant, self.side)))
        } else if m.is_capture() {
            xor_piece(lifted, taken.idx(), to_bit)
        } else {
            lifted
        };
        let own_color = if m.flags == 2 {
            self.colors[side] ^ rook_left
        } else if m.flags == 3 {
            self.colors[side] ^ rook_right
        } else {
            self.colors[side]
        };
        let their_color = if m.flags == 2 || m.flags == 3 {
            self.colors[them]
        } else if m.flags == 5 {
            self.colors[them] ^ bit(ep_victim(self.en_passant, self.side))
        } else if m.is_capture() {
            self.colors[them] ^ to_bit
        } else {
            self.colors[them]
        };
        let theirs = if plain_capture && taken == PieceType::Rook {
            rights_after_loss(self.castling[them], m.to)
        } else {
            self.castling[them]
        };
        let landed = if m.flags == 2 || m.flags == 3 || m.flags == 5 {
            m.piece
        } else {
            m.placed()
        };
        let own_final = own_color ^ (from_bit ^ to_bit);
        Position {
            pieces: xor_piece(cleared, landed.idx(), to_bit),
            colors: match self.side {
                PieceColor::White => [own_final, their_color],
                PieceColor::Black => [their_color, own_final],
            },
            castling: match self.side {
                PieceColor::White => [own, theirs],
                PieceColor::Black => [theirs, own],
            },
            en_passant,
            halfmove,
            side: self.side.other(),
        }
    }

    /// The piece on `sq`: a color whose board holds the square, White first,
    /// with the kind found there; no color, no piece.
    pub open spec fn piece_on(self, sq: u8) -> Piece {
        if holds(self.colors[0], sq) {
            Piece { color: PieceColor::White, ty: kind_on(self.pieces, sq) }
        } else if holds(self.colors[1], sq) {
            Piece { color: PieceColor::Black, ty: kind_on(self.pieces, sq) }
        } else {
            Piece { color: PieceColor::White, ty: PieceType::Empty }
        }
    }

    /// Square `sq` is in order: at most one kind and at most one color stand
    /// on it, and a kind stands there exactly if a color does.
    pub open spec fn square_ok(self, sq: u8) -> bool {
        &&& kinds_at(self.pieces, sq) <= 1
        &&& !(holds(self.colors[0], sq) && holds(self.colors[1], sq))
        &&& (kinds_at(self.pieces, sq) == 1) == (holds(self.colors[0], sq) || holds(self.colors[1], sq))
    }

    /// A right that is left names the rook's home square, with a rook of that
    /// color on it and the king of that color on its own home square.
    pub open spec fn right_ok(self, color: int, wing: int) -> bool {
        let sq = self.castling[color][wing];
        sq != NO_SQUARE ==> {
            &&& sq == rook_home(color, wing)
            &&& holds(self.pieces[3], sq)
            &&& holds(self.colors[color], sq)
            &&& holds(self.pieces[5], king_home(color))
            &&& holds(self.colors[color], king_home(color))
        }
    }

    /// An en-passant target lies on the sixth rank of the side to move, is
    /// vacant, and has a pawn of the other side on the square before it.
    pub open spec fn ep_ok(self) -> bool {
        self.en_passant != NO_SQUARE ==> {
            &&& match self.side {
                PieceColor::White => 40 <= self.en_passant < 48,
                PieceColor::Black => 16 <= self.en_passant < 24,
            }
            &&& self.vacant(self.en_passant)
            &&& holds(self.pieces[0], ep_victim(self.en_passant, self.side))
            &&& holds(self.colors[self.side.other().idx()], ep_victim(self.en_passant, self.side))
        }
    }

    /// The state is consistent: the six boards of kinds are pairwise disjoint,
    /// so are the two of colors, both cover the same squares, every castling
    /// right that is left has its king and rook at home, and an en-passant
    /// target has its pawn before it.
    pub open spec fn wf(self) -> bool {
        &&& forall|sq: u8| sq < 64 ==> #[trigger] self.square_ok(sq)
        &&& self.right_ok(0, 0)
        &&& self.right_ok(0, 1)
        &&& self.right_ok(1, 0)
        &&& self.right_ok(1, 1)
        &&& self.ep_ok()
    }

    /// No piece stands on `sq`.
    pub open spec fn vacant(self, sq: u8) -> bool {
        !holds(self.colors[0], sq) && !holds(self.colors[1], sq)
    }

    /// `m` is a move that the position offers, as far as the board can tell
    /// without asking whether a path is free or a king is left in check: the
    /// piece it names stands on its origin and belongs to the side to move; a
    /// capture lands on an enemy piece that is no king, an en-passant capture on
    /// the target with the enemy pawn behind it, every other move on a vacant
    /// square; a castling move is a king's, two files wide, with its rook in
    /// the corner and the rook's new square vacant; a double step is a pawn's,
    /// from its starting rank over a vacant square; only pawns promote.
    pub open spec fn fits(self, m: Move) -> bool {
        let side = self.side.idx();
        let them = self.side.other().idx();
        &&& self.admits(m)
        &&& m.from != m.to
        &&& holds(self.pieces[m.piece.idx()], m.from)
        &&& holds(self.colors[side], m.from)
        &&& m.flags < 16
        &&& m.flags != 6
        &&& m.flags != 7
        &&& m.is_promotion() ==> m.piece == PieceType::Pawn
        &&& if m.flags == 2 {
            &&& m.piece == PieceType::King
            &&& m.to % 8 == 2
            &&& m.from == m.to + 2
            &&& self.vacant(m.to)
            &&& self.vacant((m.to + 1) as u8)
            &&& holds(self.pieces[3], (m.to - 2) as u8)
            &&& holds(self.colors[side], (m.to - 2) as u8)
        } else if m.flags == 3 {
            &&& m.piece == PieceType::King
            &&& m.to % 8 == 6
            &&& m.from + 2 == m.to
            &&& self.vacant(m.to)
            &&& self.vacant((m.to - 1) as u8)
            &&& holds(self.pieces[3], (m.to + 1) as u8)
            &&& holds(self.colors[side], (m.to + 1) as u8)
        } else if m.flags == 5 {
            &&& m.piece == PieceType::Pawn
            &&& m.to == self.en_passant
            &&& self.vacant(m.to)
            &&& holds(self.pieces[0], ep_victim(self.en_passant, self.side))
            &&& holds(self.colors[them], ep_victim(self.en_passant, self.side))
        } else if m.is_capture() {
            &&& holds(self.colors[them], m.to)
            &&& !holds(self.pieces[5], m.to)
        } else if m.flags == 1 {
            &&& m.piece == PieceType::Pawn
            &&& self.vacant(m.to)
            &&& match self.side {
                PieceColor::White => 24 <= m.to < 32 && m.from == m.to - 16 && self.vacant(
                    (m.to - 8) as u8,
                ),
                PieceColor::Black => 32 <= m.to < 40 && m.from == m.to + 16 && self.vacant(
                    (m.to + 8) as u8,
                ),
            }
        } else {
            self.vacant(m.to)
        }
    }

    /// The squares that `m` changes besides its origin and target: the square
    /// that a castling rook leaves and the one it reaches, or the square of the
    /// pawn taken en passant; `NO_SQUARE` twice for every other move.
    pub open spec fn rook_from(m: Move) -> u8 {
        if m.flags == 2 {
            (m.to - 2) as u8
        } else if m.flags == 3 {
            (m.to + 1) as u8
        } else {
            NO_SQUARE
        }
    }

    /// The square that a castling rook reaches; `NO_SQUARE` for every other move.
    pub open spec fn rook_to(m: Move) -> u8 {
        if m.flags == 2 {
            (m.to + 1) as u8
        } else if m.flags == 3 {
            (m.to - 1) as u8
        } else {
            NO_SQUARE
        }
    }

    /// The squares whose occupancy `m` flips: its origin; its target unless a
    /// piece is taken there; the square of a pawn taken en passant; both
    /// squares of a castling rook.
    pub open spec fn occupancy_change(self, m: Move) -> u64 {
        let to_bit = bit(m.to);
        if m.flags == 2 {
            bit(m.from) ^ to_bit ^ ((to_bit << 1) | (to_bit >> 2))
        } else if m.flags == 3 {
            bit(m.from) ^ to_bit ^ ((to_bit << 1) | (to_bit >> 1))
        } else if m.flags == 5 {
            bit(m.from) ^ to_bit ^ bit(ep_victim(self.en_passant, self.side))
        } else if m.is_capture() {
            bit(m.from)
        } else {
            bit(m.from) ^ to_bit
        }
    }

    /// The piece on `sq` after a move that fits has been played.
    pub open spec fn piece_after(self, m: Move, sq: u8) -> Piece {
        let vacant = Piece { color: PieceColor::White, ty: PieceType::Empty };
        if sq == m.to {
            Piece { color: self.side, ty: m.placed() }
        } else if sq == m.from {
            vacant
        } else if sq == Self::rook_from(m) {
            vacant
        } else if sq == Self::rook_to(m) {
            Piece { color: self.side, ty: PieceType::Rook }
        } else if m.flags == 5 && sq == ep_victim(self.en_passant, self.side) {
            vacant
        } else {
            self.piece_on(sq)
        }
    }

    /// The position from which a game begins.
    pub fn startpos() -> (pos: Position)
        ensures
            pos == Position::startpos_spec(),
            pos.wf(),
    {
        proof {
            lemma_startpos_wf();
        }
        Position {
            pieces: [
                0x00ff00000000ff00,
                0x4200000000000042,
                0x2400000000000024,
                0x8100000000000081,
                0x0800000000000008,
                0x1000000000000010,
            ],
            colors: [0xffff, 0xffff000000000000],
            castling: [[0, 7], [56, 63]],
            en_passant: NO_SQUARE,
            halfmove: 0,
            side: PieceColor::White,
        }
    }

    /// The position from which a game begins.
    pub open spec fn startpos_spec() -> Position {
        Position {
            pieces: [
                0x00ff00000000ff00,
                0x4200000000000042,
                0x2400000000000024,
                0x8100000000000081,
                0x0800000000000008,
                0x1000000000000010,
            ],
            colors: [0xffff, 0xffff000000000000],
            castling: [[0u8, 7u8], [56u8, 63u8]],
            en_passant: NO_SQUARE,
            halfmove: 0,
            side: PieceColor::White,
        }
    }

    /// A board without pieces, White to move, no rights.
    pub fn empty() -> (pos: Position)
        ensures
            pos.pieces@ == seq![0u64, 0u64, 0u64, 0u64, 0u64, 0u64],
            pos.colors@ == seq![0u64, 0u64],
            pos.castling[0]@ == seq![NO_SQUARE, NO_SQUARE],
            pos.castling[1]@ == seq![NO_SQUARE, NO_SQUARE],
            pos.en_passant == NO_SQUARE,
            pos.halfmove == 0,
            pos.side == PieceColor::White,
    {
        let pos = Position {
            pieces: [0, 0, 0, 0, 0, 0],
            colors: [0, 0],
            castling: [[NO_SQUARE, NO_SQUARE], [NO_SQUARE, NO_SQUARE]],
            en_passant: NO_SQUARE,
            halfmove: 0,
            side: PieceColor::White,
        };
        assert(pos.pieces@ =~= seq![0u64, 0u64, 0u64, 0u64, 0u64, 0u64]);
        assert(pos.colors@ =~= seq![0u64, 0u64]);
        assert(pos.castling[0]@ =~= seq![NO_SQUARE, NO_SQUARE]);
        assert(pos.castling[1]@ =~= seq![NO_SQUARE, NO_SQUARE]);
        pos
    }

    /// The piece on `sq`.
    pub fn piece_at(&self, sq: u8) -> (piece: Piece)
        requires
            sq < 64,
        ensures
            piece == self.piece_on(sq),
    {
        if is_set(self.colors[0], sq) {
            Piece { color: PieceColor::White, ty: find_kind(&self.pieces, sq) }
        } else if is_set(self.colors[1], sq) {
            Piece { color: PieceColor::Black, ty: find_kind(&self.pieces, sq) }
        } else {
            Piece { color: PieceColor::White, ty: PieceType::Empty }
        }
    }

    /// Passes the turn.
    pub fn pass(&self) -> (pos: Position)
        ensures
            pos == self.pass_spec(),
    {
        Position {
            pieces: self.pieces,
            colors: self.colors,
            castling: self.castling,
            en_passant: NO_SQUARE,
            halfmove: 0,
            side: self.side.flip(),
        }
    }

    /// Whether the machine can play `m` on this position.
    pub fn playable(&self, m: Move) -> (r: bool)
        ensures
            r == self.admits(m),
    {
        m.from < 64 && m.to < 64 && m.piece != PieceType::Empty && self.halfmove < 255 && (m.flags != 1
            || match self.side {
            PieceColor::White => m.to >= 8,
            PieceColor::Black => m.to < 56,
        }) && (m.flags != 5 || match self.side {
            PieceColor::White => 8 <= self.en_passant && self.en_passant < 64,
            PieceColor::Black => self.en_passant < 56,
        }) && (m.flags != 2 || (2 <= m.to && m.to < 63)) && (m.flags != 3 || (1 <= m.to && m.to < 63))
    }

    /// Plays `m`.
    pub fn make_move(&self, m: Move) -> (pos: Position)
        requires
            self.admits(m),
        ensures
            pos == self.make_move_spec(m),
    {
        let side: usize = self.side.index();
        let them: usize = self.side.flip().index();
        let from_bit: u64 = square_bit(m.from);
        let to_bit: u64 = square_bit(m.to);
        let lifted: [u64; 6] = toggle_piece(self.pieces, m.piece.index(), from_bit);
        let halfmove: u8 = if m.capture() || m.piece == PieceType::Pawn {
            0
        } else {
            self.halfmove + 1
        };
        let en_passant: u8 = if m.flags == MoveFlag::DOUBLE_PAWN {
            match self.side {
                PieceColor::White => m.to - 8,
                PieceColor::Black => m.to + 8,
            }
        } else {
            NO_SQUARE
        };
        let own: [u8; 2] = leave_rights(self.castling[side], m.piece == PieceType::King, m.from);
        let mut cleared: [u64; 6] = lifted;
        let mut own_color: u64 = self.colors[side];
        let mut their_color: u64 = self.colors[them];
        let mut theirs: [u8; 2] = self.castling[them];
        let mut landed: PieceType = m.piece;
        if m.flags == MoveFlag::CASTLE_LEFT {
            let rook: u64 = (to_bit << 1) | (to_bit >> 2);
            cleared = toggle_piece(lifted, 3, rook);
            own_color = own_color ^ rook;
        } else if m.flags == MoveFlag::CASTLE_RIGHT {
            let rook: u64 = (to_bit << 1) | (to_bit >> 1);
            cleared = toggle_piece(lifted, 3, rook);
            own_color = own_color ^ rook;
        } else if m.flags == MoveFlag::EP {
            let sq: u8 = match self.side {
                PieceColor::White => self.en_passant - 8,
                PieceColor::Black => self.en_passant + 8,
            };
            let sq_bit: u64 = square_bit(sq);
            cleared = toggle_piece(lifted, 0, sq_bit);
            their_color = their_color ^ sq_bit;
        } else {
            if m.capture() {
                let target: PieceType = find_victim(&lifted, m.to);
                cleared = toggle_piece(lifted, target.index(), to_bit);
                their_color = their_color ^ to_bit;
                if target == PieceType::Rook {
                    theirs = lose_rights(theirs, m.to);
                }
            }
            landed = m.landing();
        }
        let own_final: u64 = own_color ^ (from_bit ^ to_bit);
        Position {
            pieces: toggle_piece(cleared, landed.index(), to_bit),
            colors: match self.side {
                PieceColor::White => [own_final, their_color],
                PieceColor::Black => [their_color, own_final],
            },
            castling: match self.side {
                PieceColor::White => [own, theirs],
                PieceColor::Black => [theirs, own],
            },
            en_passant,
            halfmove,
            side: self.side.flip(),
        }
    }
}

/// The six boards with `mask` toggled in board `i`.
pub fn toggle_piece(a: [u64; 6], i: usize, mask: u64) -> (r: [u64; 6])
    requires
        i < 6,
    ensures
        r == xor_piece(a, i as int, mask),
{
    let mut r: [u64; 6] = a;
    r[i] = r[i] ^ mask;
    assert(r =~= xor_piece(a, i as int, mask));
    r
}

fn leave_rights(own: [u8; 2], king: bool, from: u8) -> (r: [u8; 2])
    ensures
        r == rights_after_leaving(own, king, from),
{
    if king {
        [NO_SQUARE, NO_SQUARE]
    } else if from == own[0] {
        [NO_SQUARE, own[1]]
    } else if from == own[1] {
        [own[0], NO_SQUARE]
    } else {
        own
    }
}

fn lose_rights(own: [u8; 2], to: u8) -> (r: [u8; 2])
    ensures
        r == rights_after_loss(own, to),
{
    if to == own[0] {
        [NO_SQUARE, own[1]]
    } else if to == own[1] {
        [own[0], NO_SQUARE]
    } else {
        own
    }
}

/// The kind whose board holds `sq`.
pub fn find_kind(pieces: &[u64; 6], sq: u8) -> (r: PieceType)
    requires
        sq < 64,
    ensures
        r == kind_on(*pieces, sq),
{
    if is_set(pieces[0], sq) {
        PieceType::Pawn
    } else if is_set(pieces[1], sq) {
        PieceType::Knight
    } else if is_set(pieces[2], sq) {
        PieceType::Bishop
    } else if is_set(pieces[3], sq) {
        PieceType::Rook
    } else if is_set(pieces[4], sq) {
        PieceType::Queen
    } else if is_set(pieces[5], sq) {
        PieceType::King
    } else {
        PieceType::Empty
    }
}

/// The kind that a capture on `to` removes.
pub fn find_victim(pieces: &[u64; 6], to: u8) -> (r: PieceType)
    requires
        to < 64,
    ensures
        r == victim(*pieces, to),
        r != PieceType::Empty,
        r != PieceType::King,
{
    if is_set(pieces[1], to) {
        PieceType::Knight
    } else if is_set(pieces[2], to) {
        PieceType::Bishop
    } else if is_set(pieces[3], to) {
        PieceType::Rook
    } else if is_set(pieces[4], to) {
        PieceType::Queen
    } else {
        PieceType::Pawn
    }
}

/// Which squares the boards of the starting position hold.
pub proof fn lemma_startpos_boards(k: u8)
    requires
        k < 64,
    ensures
        holds(0x00ff00000000ff00u64, k) == (8 <= k < 16 || 48 <= k < 56),
        holds(0x4200000000000042u64, k) == (k == 1 || k == 6 || k == 57 || k == 62),
        holds(0x2400000000000024u64, k) == (k == 2 || k == 5 || k == 58 || k == 61),
        holds(0x8100000000000081u64, k) == (k == 0 || k == 7 || k == 56 || k == 63),
        holds(0x0800000000000008u64, k) == (k == 3 || k == 59),
        holds(0x1000000000000010u64, k) == (k == 4 || k == 60),
        holds(0xffffu64, k) == (k < 16),
        holds(0xffff000000000000u64, k) == (k >= 48),
{
    assert({
        &&& (0x00ff00000000ff00u64 & (1u64 << k) != 0) == (8 <= k < 16 || 48 <= k < 56)
        &&& (0x4200000000000042u64 & (1u64 << k) != 0) == (k == 1 || k == 6 || k == 57 || k == 62)
        &&& (0x2400000000000024u64 & (1u64 << k) != 0) == (k == 2 || k == 5 || k == 58 || k == 61)
        &&& (0x8100000000000081u64 & (1u64 << k) != 0) == (k == 0 || k == 7 || k == 56 || k == 63)
        &&& (0x0800000000000008u64 & (1u64 << k) != 0) == (k == 3 || k == 59)
        &&& (0x1000000000000010u64 & (1u64 << k) != 0) == (k == 4 || k == 60)
        &&& (0xffffu64 & (1u64 << k) != 0) == (k < 16)
        &&& (0xffff000000000000u64 & (1u64 << k) != 0) == (k >= 48)
    }) by (bit_vector)
        requires
            k < 64,
    ;
}

/// The position from which a game begins is consistent.
pub proof fn lemma_startpos_wf()
    ensures
        Position::startpos_spec().wf(),
{
    let pos = Position::startpos_spec();
    assert forall|k: u8| k < 64 implies #[trigger] pos.square_ok(k) by {
        lemma_startpos_boards(k);
    }
    lemma_startpos_boards(0);
    lemma_startpos_boards(7);
    lemma_startpos_boards(56);
    lemma_startpos_boards(63);
    lemma_startpos_boards(4);
    lemma_startpos_boards(60);
}

/// Membership in the two boards that a castling move toggles for its rook.
pub proof fn lemma_rook_masks(to: u8, k: u8)
    requires
        to < 64,
        k < 64,
    ensures
        to % 8 == 2 ==> holds((bit(to) << 1) | (bit(to) >> 2), k) == (k == to + 1 || k == to - 2),
        to % 8 == 6 ==> holds((bit(to) << 1) | (bit(to) >> 1), k) == (k == to + 1 || k == to - 1),
{
    assert({
        &&& to % 8 == 2 ==> (((((1u64 << to) << 1) | ((1u64 << to) >> 2)) & (1u64 << k)) != 0) == (k
            == to + 1 || k == to - 2)
        &&& to % 8 == 6 ==> (((((1u64 << to) << 1) | ((1u64 << to) >> 1)) & (1u64 << k)) != 0) == (k
            == to + 1 || k == to - 1)
    }) by (bit_vector)
        requires
            to < 64,
            k < 64,
    ;
}

/// A toggled square changes membership of that square alone.
pub proof fn lemma_toggle(x: u64, a: u8, k: u8)
    requires
        a < 64,
        k < 64,
    ensures
        holds(x ^ bit(a), k) == (holds(x, k) != (a == k)),
{
    lemma_holds_ops(x, bit(a), k);
    lemma_holds_bit(a, k);
}

/// How the capture and promotion bits of a flag relate to its value.
pub proof fn lemma_flag_bits(f: u8)
    requires
        f < 16,
    ensures
        (f & 4 != 0) == (f == 4 || f == 5 || f == 6 || f == 7 || f >= 12),
        (f & 8 != 0) == (f >= 8),
        f & 3 == f % 4,
{
    assert((f & 4 != 0) == (f == 4 || f == 5 || f == 6 || f == 7 || f >= 12) && (f & 8 != 0) == (f
        >= 8) && f & 3 == f % 4) by (bit_vector)
        requires
            f < 16,
    ;
}

/// Membership of `k` in board `j` once `mask` has been toggled in board `i`.
pub proof fn lemma_xor_piece(a: [u64; 6], i: int, mask: u64, j: int, k: u8)
    requires
        0 <= j < 6,
        k < 64,
    ensures
        holds(xor_piece(a, i, mask)[j], k) == (holds(a[j], k) != (i == j && holds(mask, k))),
{
    lemma_holds_ops(a[j], mask, k);
}

/// Membership of `k` in each of the six boards once `mask` has been toggled in board `i`.
pub proof fn lemma_xor_piece_all(a: [u64; 6], i: int, mask: u64, k: u8)
    requires
        k < 64,
    ensures
        forall|j: int|
            0 <= j < 6 ==> holds(#[trigger] xor_piece(a, i, mask)[j], k) == (holds(a[j], k) != (i == j
                && holds(mask, k))),
{
    assert forall|j: int| 0 <= j < 6 implies holds(#[trigger] xor_piece(a, i, mask)[j], k) == (holds(
        a[j],
        k,
    ) != (i == j && holds(mask, k))) by {
        lemma_xor_piece(a, i, mask, j, k);
    }
}

/// What a move that fits does to one square of a consistent position.
pub proof fn lemma_make_move_square(pos: Position, m: Move, k: u8)
    requires
        pos.wf(),
        pos.fits(m),
        k < 64,
    ensures
        pos.make_move_spec(m).square_ok(k),
        pos.make_move_spec(m).piece_on(k) == pos.piece_after(m, k),
{
    let next = pos.make_move_spec(m);
    let side = pos.side.idx();
    let them = pos.side.other().idx();
    let from_bit = bit(m.from);
    let to_bit = bit(m.to);
    assert(pos.square_ok(k));
    assert(pos.square_ok(m.from));
    assert(pos.square_ok(m.to));
    lemma_holds_bit(m.from, k);
    lemma_holds_bit(m.to, k);
    lemma_holds_bit(m.from, m.to);
    lemma_holds_ops(from_bit, to_bit, k);
    let lifted = xor_piece(pos.pieces, m.piece.idx(), from_bit);
    lemma_xor_piece_all(pos.pieces, m.piece.idx(), from_bit, m.to);
    lemma_xor_piece_all(pos.pieces, m.piece.idx(), from_bit, k);
    assert(victim(lifted, m.to) == victim(pos.pieces, m.to));
    let taken = victim(pos.pieces, m.to);
    let rook_left = (to_bit << 1) | (to_bit >> 2);
    let rook_right = (to_bit << 1) | (to_bit >> 1);
    lemma_rook_masks(m.to, k);
    let v = ep_victim(pos.en_passant, pos.side);
    if m.flags == 5 {
        assert(pos.square_ok(v));
        lemma_holds_bit(v, k);
    }
    if m.flags == 2 || m.flags == 3 {
        assert(pos.square_ok(Position::rook_from(m)));
        assert(pos.square_ok(Position::rook_to(m)));
    }
    let cleared = if m.flags == 2 {
        xor_piece(lifted, 3, rook_left)
    } else if m.flags == 3 {
        xor_piece(lifted, 3, rook_right)
    } else if m.flags == 5 {
        xor_piece(lifted, 0, bit(v))
    } else if m.is_capture() {
        xor_piece(lifted, taken.idx(), to_bit)
    } else {
        lifted
    };
    lemma_xor_piece_all(lifted, 3, rook_left, k);
    lemma_xor_piece_all(lifted, 3, rook_right, k);
    lemma_xor_piece_all(lifted, 0, bit(v), k);
    lemma_xor_piece_all(lifted, taken.idx(), to_bit, k);
    let landed = if m.flags == 2 || m.flags == 3 || m.flags == 5 {
        m.piece
    } else {
        m.placed()
    };
    lemma_xor_piece_all(cleared, landed.idx(), to_bit, k);
    assert(next.pieces == xor_piece(cleared, landed.idx(), to_bit));
    lemma_holds_ops(pos.colors[side], rook_left, k);
    lemma_holds_ops(pos.colors[side], rook_right, k);
    lemma_holds_ops(pos.colors[side], from_bit ^ to_bit, k);
    lemma_holds_ops(pos.colors[side] ^ rook_left, from_bit ^ to_bit, k);
    lemma_holds_ops(pos.colors[side] ^ rook_right, from_bit ^ to_bit, k);
    lemma_holds_ops(pos.colors[them], bit(v), k);
    lemma_holds_ops(pos.colors[them], to_bit, k);
    lemma_flag_bits(m.flags);
    if k == m.to {
        assert(next.square_ok(k));
        assert(next.piece_on(k) == pos.piece_after(m, k));
    } else if k == m.from {
        assert(next.square_ok(k));
        assert(next.piece_on(k) == pos.piece_after(m, k));
    } else {
        assert(next.square_ok(k));
        assert(next.piece_on(k) == pos.piece_after(m, k));
    }
}

/// Playing a move that fits keeps a consistent position consistent: the
/// boards of the six kinds still partition the occupied squares, which are
/// the old ones with the move's squares flipped, each square carries the piece
/// that the move puts there, and every right that is left still has its king
/// and rook at home.
pub proof fn lemma_make_move_wf(pos: Position, m: Move)
    requires
        pos.wf(),
        pos.fits(m),
    ensures
        pos.make_move_spec(m).wf(),
        forall|k: u8| k < 64 ==> #[trigger] pos.make_move_spec(m).piece_on(k) == pos.piece_after(m, k),
        pos.make_move_spec(m).occupied() == pos.occupied() ^ pos.occupancy_change(m),
{
    let next = pos.make_move_spec(m);
    assert forall|k: u8| k < 64 implies #[trigger] next.square_ok(k) by {
        lemma_make_move_square(pos, m, k);
    }
    assert forall|k: u8| k < 64 implies #[trigger] next.piece_on(k) == pos.piece_after(m, k) by {
        lemma_make_move_square(pos, m, k);
    }
    lemma_make_move_right(pos, m, 0, 0);
    lemma_make_move_right(pos, m, 0, 1);
    lemma_make_move_right(pos, m, 1, 0);
    lemma_make_move_right(pos, m, 1, 1);
    lemma_flag_bits(m.flags);
    if next.en_passant != NO_SQUARE {
        let v = ep_victim(next.en_passant, next.side);
        assert(v == m.to);
        lemma_make_move_square(pos, m, next.en_passant);
        lemma_make_move_square(pos, m, m.to);
        assert(pos.square_ok(next.en_passant));
        assert(next.square_ok(next.en_passant));
        assert(next.square_ok(m.to));
        assert(next.piece_on(next.en_passant).ty == PieceType::Empty);
        assert(next.piece_on(m.to) == (Piece { color: pos.side, ty: PieceType::Pawn }));
    }
    let change = pos.occupancy_change(m);
    assert forall|k: u8| k < 64 implies holds(next.occupied(), k) == holds(pos.occupied() ^ change, k) by {
        lemma_make_move_square(pos, m, k);
        assert(pos.square_ok(k));
        assert(pos.square_ok(m.to));
        assert(pos.square_ok(m.from));
        lemma_holds_ops(next.colors[0], next.colors[1], k);
        lemma_holds_ops(pos.colors[0], pos.colors[1], k);
        lemma_holds_ops(pos.occupied(), change, k);
        let to_bit = bit(m.to);
        lemma_holds_bit(m.from, k);
        lemma_holds_bit(m.to, k);
        lemma_holds_ops(bit(m.from), to_bit, k);
        lemma_rook_masks(m.to, k);
        lemma_holds_ops(bit(m.from) ^ to_bit, (to_bit << 1) | (to_bit >> 2), k);
        lemma_holds_ops(bit(m.from) ^ to_bit, (to_bit << 1) | (to_bit >> 1), k);
        let v = ep_victim(pos.en_passant, pos.side);
        if m.flags == 5 {
            lemma_holds_bit(v, k);
            assert(pos.square_ok(v));
        }
        lemma_holds_ops(bit(m.from) ^ to_bit, bit(v), k);
        if m.flags == 2 || m.flags == 3 {
            assert(pos.square_ok(Position::rook_from(m)));
            assert(pos.square_ok(Position::rook_to(m)));
        }
    }
    lemma_board_ext(next.occupied(), pos.occupied() ^ change);
}

/// A right that a move that fits leaves standing still has its king and rook at home.
pub proof fn lemma_make_move_right(pos: Position, m: Move, color: int, wing: int)
    requires
        pos.wf(),
        pos.fits(m),
        0 <= color < 2,
        0 <= wing < 2,
    ensures
        pos.make_move_spec(m).right_ok(color, wing),
{
    let next = pos.make_move_spec(m);
    let r = rook_home(color, wing);
    let h = king_home(color);
    lemma_flag_bits(m.flags);
    if next.castling[color][wing] != NO_SQUARE {
        assert(pos.castling[color][wing] == next.castling[color][wing]);
        assert(pos.right_ok(color, wing));
        lemma_make_move_square(pos, m, r);
        lemma_make_move_square(pos, m, h);
        assert(pos.square_ok(r));
        assert(pos.square_ok(h));
        assert(pos.square_ok(m.from));
        assert(pos.square_ok(m.to));
        if m.flags == 5 {
            assert(pos.square_ok(ep_victim(pos.en_passant, pos.side)));
        }
        assert(next.square_ok(r));
        assert(next.square_ok(h));
        assert(pos.piece_on(r).ty == PieceType::Rook);
        assert(pos.piece_on(h).ty == PieceType::King);
        lemma_holds_bit(m.from, m.to);
        lemma_xor_piece_all(pos.pieces, m.piece.idx(), bit(m.from), m.to);
        assert(victim(xor_piece(pos.pieces, m.piece.idx(), bit(m.from)), m.to) == victim(pos.pieces, m.to));
        assert(m.piece != PieceType::King || color != pos.side.idx());
        assert(pos.right_ok(color, 0));
        assert(pos.right_ok(color, 1));
        assert(m.to != r);
        assert(m.from != r);
        assert(Position::rook_from(m) != r);
        assert(Position::rook_to(m) != r);
        assert(next.piece_on(r) == pos.piece_on(r));
        assert(m.to != h);
        assert(m.from != h);
        assert(next.piece_on(h) == pos.piece_on(h));
    }
}

} // verus!
