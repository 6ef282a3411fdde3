//! Zobrist hashing: one key per piece on a square, per castling right, per
//! en-passant file, and one for the side to move.
pub mod rng;

use vstd::prelude::*;
use crate::position::{Piece, PieceColor, PieceType, Position, NO_SQUARE};
use crate::zobrist::rng::{nth_random, state_after, XorShiftState};

verus! {

/// The keys.
pub struct Keys {
    /// The key of each piece on each square, at `square * 12 + color * 6 + kind`.
    pub pieces: Vec<u64>,
    /// The key that is in the hash while Black is to move.
    pub black: u64,
    /// The key of each castling right, at `color * 2 + wing`.
    pub castling: [u64; 4],
    /// The key of each file on which an en-passant target may lie.
    pub en_passant: [u64; 8],
}

impl Keys {
    /// The keys are the first 781 numbers of the stream, in the order of the
    /// fields.
    pub open spec fn wf(self) -> bool {
        &&& self.pieces.len() == 768
        &&& forall|i: int| 0 <= i < 768 ==> #[trigger] self.pieces[i] == nth_random(i as nat)
        &&& self.black == nth_random(768)
        &&& forall|i: int| 0 <= i < 4 ==> #[trigger] self.castling[i] == nth_random((769 + i) as nat)
        &&& forall|i: int| 0 <= i < 8 ==> #[trigger] self.en_passant[i] == nth_random((773 + i) as nat)
    }

    /// The key of `piece` on `sq`; 0 for no piece.
    pub open spec fn piece_key(self, sq: u8, piece: Piece) -> u64 {
        if piece.ty == PieceType::Empty {
            0
        } else {
            self.pieces[sq * 12 + piece.color.idx() * 6 + piece.ty.idx()]
        }
    }

    /// The key of the right of `color` on `wing`, if `rook` says that it is left; else 0.
    pub open spec fn right_key(self, color: int, wing: int, rook: u8) -> u64 {
        if rook != NO_SQUARE {
            self.castling[color * 2 + wing]
        } else {
            0
        }
    }

    /// The key of the file of the en-passant target; 0 without a target.
    pub open spec fn ep_key(self, en_passant: u8) -> u64 {
        if en_passant != NO_SQUARE {
            self.en_passant[en_passant as int % 8]
        } else {
            0
        }
    }

    /// The key of the side to move: `black` for Black, 0 for White.
    pub open spec fn side_key(self, side: PieceColor) -> u64 {
        match side {
            PieceColor::White => 0,
            PieceColor::Black => self.black,
        }
    }

    /// The keys of the pieces on the squares below `n`, xored.
    pub open spec fn pieces_hash(self, pos: Position, n: nat) -> u64
        decreases n,
    {
        if n == 0 {
            0
        } else {
            self.pieces_hash(pos, (n - 1) as nat) ^ self.piece_key((n - 1) as u8, pos.piece_on((n - 1) as u8))
        }
    }

    /// The keys of the castling rights that are left, xored.
    pub open spec fn rights_hash(self, pos: Position) -> u64 {
        self.right_key(0, 0, pos.castling[0][0]) ^ self.right_key(0, 1, pos.castling[0][1])
            ^ self.right_key(1, 0, pos.castling[1][0]) ^ self.right_key(1, 1, pos.castling[1][1])
    }

    /// The hash of a position: the keys of the side to move, of every piece
    /// on its square, of every castling right that is left, and of the file of
    /// the en-passant target, xored.
    pub open spec fn zobrist(self, pos: Position) -> u64 {
        self.side_key(pos.side) ^ self.pieces_hash(pos, 64) ^ self.rights_hash(pos) ^ self.ep_key(
            pos.en_passant,
        )
    }

    /// Takes the keys from the stream.
    pub fn new() -> (keys: Keys)
        ensures
            keys.wf(),
    {
        gen_randoms()
    }

    /// The key of the piece of `color` and `kind` on `sq`.
    pub fn piece(&self, sq: u8, color: PieceColor, kind: PieceType) -> (key: u64)
        requires
            self.wf(),
            sq < 64,
        ensures
            key == self.piece_key(sq, Piece { color, ty: kind }),
    {
        if kind == PieceType::Empty {
            0
        } else {
            self.pieces[sq as usize * 12 + color.index() * 6 + kind.index()]
        }
    }

    /// The key of the right of `color` on `wing`, if `rook` says that it is left.
    pub fn right(&self, color: PieceColor, wing: usize, rook: u8) -> (key: u64)
        requires
            wing < 2,
        ensures
            key == self.right_key(color.idx(), wing as int, rook),
    {
        if rook != NO_SQUARE {
            self.castling[color.index() * 2 + wing]
        } else {
            0
        }
    }

    /// The key of the file of the en-passant target.
    pub fn file(&self, en_passant: u8) -> (key: u64)
        ensures
            key == self.ep_key(en_passant),
    {
        if en_passant != NO_SQUARE {
            self.en_passant[(en_passant % 8) as usize]
        } else {
            0
        }
    }
}

/// Takes the keys from the stream.
pub fn gen_randoms() -> (keys: Keys)
    ensures
        keys.wf(),
{
    let mut state = XorShiftState::new();
    let mut pieces: Vec<u64> = Vec::with_capacity(768);
    let mut i: usize = 0;
    while i < 768
        invariant
            i <= 768,
            pieces.len() == i,
            state.0 == state_after(i as nat),
            forall|j: int| 0 <= j < i ==> #[trigger] pieces[j] == nth_random(j as nat),
        decreases 768 - i,
    {
        let r: u64 = state.next();
        pieces.push(r);
        i = i + 1;
    }
    let black: u64 = state.next();
    let mut castling: [u64; 4] = [0u64; 4];
    let mut c: usize = 0;
    while c < 4
        invariant
            c <= 4,
            state.0 == state_after((769 + c) as nat),
            forall|j: int| 0 <= j < c ==> #[trigger] castling[j] == nth_random((769 + j) as nat),
        decreases 4 - c,
    {
        castling[c] = state.next();
        c = c + 1;
    }
    let mut en_passant: [u64; 8] = [0u64; 8];
    let mut x: usize = 0;
    while x < 8
        invariant
            x <= 8,
            state.0 == state_after((773 + x) as nat),
            forall|j: int| 0 <= j < x ==> #[trigger] en_passant[j] == nth_random((773 + j) as nat),
        decreases 8 - x,
    {
        en_passant[x] = state.next();
        x = x + 1;
    }
    Keys { pieces, black, castling, en_passant }
}

impl Position {
    /// The hash of the position, from scratch.
    pub fn hash(&self, keys: &Keys) -> (hash: u64)
        requires
            keys.wf(),
        ensures
            hash == keys.zobrist(*self),
    {
        let side: u64 = match self.side {
            PieceColor::White => 0,
            PieceColor::Black => keys.black,
        };
        let mut pieces: u64 = 0;
        let mut sq: u8 = 0;
        while sq < 64
            invariant
                sq <= 64,
                keys.wf(),
                pieces == keys.pieces_hash(*self, sq as nat),
            decreases 64 - sq,
        {
            let piece: Piece = self.piece_at(sq);
            pieces = pieces ^ keys.piece(sq, piece.color, piece.ty);
            sq = sq + 1;
        }
        let rights: u64 = keys.right(PieceColor::White, 0, self.castling[0][0]) ^ keys.right(
            PieceColor::White,
            1,
            self.castling[0][1],
        ) ^ keys.right(PieceColor::Black, 0, self.castling[1][0]) ^ keys.right(
            PieceColor::Black,
            1,
            self.castling[1][1],
        );
        side ^ pieces ^ rights ^ keys.file(self.en_passant)
    }
}

/// The hash of a position, from scratch.
pub fn hash(keys: &Keys, position: &Position) -> (hash: u64)
    requires
        keys.wf(),
    ensures
        hash == keys.zobrist(*position),
{
    position.hash(keys)
}

} // verus!
