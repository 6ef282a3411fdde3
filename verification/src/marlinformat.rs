//! The packed record of a position for training data: 32 bytes, little-endian.
use vstd::prelude::*;
use crate::bitboard::{
    bit, holds, lemma_board_ext, lemma_holds_ops, lemma_pop, lemma_squares_ascend,
    lemma_squares_below_members, lemma_squares_empty, lsb, reset_lsb, square_bit, squares,
};
use crate::position::{
    kind_on, lemma_toggle, lemma_xor_piece_all, toggle_piece, xor_piece, Piece, PieceColor, Position, NO_SQUARE,
};

verus! {

/// The kind that stands for a rook that may still castle.
pub const UNMOVED_ROOK: u8 = 6;

/// A packed record.
#[derive(Debug, Clone, Copy, PartialEq, Eq, Structural)]
pub struct PackedBoard {
    /// The board of all pieces.
    pub occupied: u64,
    /// One nibble per piece, in the order of the squares of `occupied` from
    /// the lowest: the color in bit 3, the kind in the bits below.
    pub pieces: u128,
    /// The side to move in bit 7 (set for Black), the en-passant target below.
    pub stm_ep: u8,
    pub halfmove: u8,
    pub fullmove: u16,
    pub eval: i16,
    /// The result of the game: 0 for a loss, 1 for a draw, 2 for a win.
    pub wdl: u8,
    pub extra: u8,
}

/// The nibble of the piece on `sq`: eight for Black, plus the kind, where a
/// rook on a square that a castling right names counts as an unmoved rook.
pub open spec fn nibble_of(pos: Position, sq: u8) -> u8 {
    let p = pos.piece_on(sq);
    let kind = if pos.castling[0][0] == sq || pos.castling[0][1] == sq || pos.castling[1][0] == sq
        || pos.castling[1][1] == sq {
        6
    } else {
        p.ty.idx()
    };
    (p.color.idx() * 8 + kind) as u8
}

/// The nibbles of the pieces on the squares `s`, the first of them at place
/// `i`, joined to `acc`. Only 32 nibbles fit.
pub open spec fn pack_from(pos: Position, s: Seq<u8>, i: int, acc: u128) -> u128
    decreases s.len(),
{
    if s.len() == 0 || i >= 32 {
        acc
    } else {
        pack_from(pos, s.drop_first(), i + 1, acc | ((nibble_of(pos, s[0]) as u128) << ((4 * i) as u128)))
    }
}

/// A score cut to the range of sixteen bits.
pub open spec fn clamp16(eval: i32) -> i16 {
    if eval < -32768 {
        -32768i16
    } else if eval > 32767 {
        32767i16
    } else {
        eval as i16
    }
}

/// The byte of the side to move and the en-passant target.
pub open spec fn stm_ep_of(side: PieceColor, en_passant: u8) -> u8 {
    (side.idx() * 128 + en_passant % 128) as u8
}

/// What is read from the nibbles so far.
pub struct Unpacked {
    pub pieces: [u64; 6],
    pub colors: [u64; 2],
    pub castling: [[u8; 2]; 2],
    pub seen_king: [bool; 2],
}

/// The state after the nibble `n` has been read for square `sq`; `None` for
/// a nibble that names no kind. An unmoved rook is a rook that gives its side
/// the queenside right if the king of its color was not yet seen, else the
/// kingside right.
pub open spec fn unpack_one(acc: Unpacked, n: u8, sq: u8) -> Option<Unpacked> {
    let kind = n % 8;
    let color: int = if n >= 8 { 1 } else { 0 };
    if kind == 7 {
        None
    } else {
        let seen = if kind == 5 {
            if color == 0 {
                [true, acc.seen_king[1]]
            } else {
                [acc.seen_king[0], true]
            }
        } else {
            acc.seen_king
        };
        let wing: int = if seen[color] { 1 } else { 0 };
        let castling = if kind == 6 {
            if color == 0 {
                if wing == 0 {
                    [[sq, acc.castling[0][1]], acc.castling[1]]
                } else {
                    [[acc.castling[0][0], sq], acc.castling[1]]
                }
            } else {
                if wing == 0 {
                    [acc.castling[0], [sq, acc.castling[1][1]]]
                } else {
                    [acc.castling[0], [acc.castling[1][0], sq]]
                }
            }
        } else {
            acc.castling
        };
        let ty: int = if kind == 6 { 3 } else { kind as int };
        Some(
            Unpacked {
                pieces: xor_piece(acc.pieces, ty, bit(sq)),
                colors: if color == 0 {
                    [acc.colors[0] ^ bit(sq), acc.colors[1]]
                } else {
                    [acc.colors[0], acc.colors[1] ^ bit(sq)]
                },
                castling,
                seen_king: seen,
            },
        )
    }
}

/// The nibble at place `i`.
pub open spec fn nibble_at(pieces: u128, i: int) -> u8 {
    ((pieces >> ((4 * i) as u128)) & 15) as u8
}

/// The state after the nibbles for the squares `s` have been read, the
/// first of them from place `i`; `None` where a nibble names no kind or there
/// are more than 32 squares.
pub open spec fn unpack_from(pieces: u128, s: Seq<u8>, i: int, acc: Unpacked) -> Option<Unpacked>
    decreases s.len(),
{
    if s.len() == 0 {
        Some(acc)
    } else if i >= 32 {
        None
    } else {
        match unpack_one(acc, nibble_at(pieces, i), s[0]) {
            None => None,
            Some(next) => unpack_from(pieces, s.drop_first(), i + 1, next),
        }
    }
}

/// Nothing read yet.
pub open spec fn nothing_unpacked() -> Unpacked {
    Unpacked {
        pieces: [0u64, 0u64, 0u64, 0u64, 0u64, 0u64],
        colors: [0u64, 0u64],
        castling: [[NO_SQUARE, NO_SQUARE], [NO_SQUARE, NO_SQUARE]],
        seen_king: [false, false],
    }
}

/// The record of `pos` with the given counters, score and result: the score
/// is cut to sixteen bits; of the pieces, the first 32 are recorded.
pub open spec fn packed(pos: Position, fullmove: u16, eval: i32, wdl: u8, extra: u8) -> PackedBoard {
    PackedBoard {
        occupied: pos.occupied(),
        pieces: pack_from(pos, squares(pos.occupied()), 0, 0),
        stm_ep: stm_ep_of(pos.side, pos.en_passant),
        halfmove: pos.halfmove,
        fullmove,
        eval: clamp16(eval),
        wdl,
        extra,
    }
}

/// The position and the counters, score and result of a record; `None`
/// where the record names a kind that does not exist or more pieces than it
/// has nibbles for.
pub open spec fn unpacked(p: PackedBoard) -> Option<(Position, u16, i16, u8, u8)> {
    match unpack_from(p.pieces, squares(p.occupied), 0, nothing_unpacked()) {
        None => None,
        Some(u) => Some(
            (
                Position {
                    pieces: u.pieces,
                    colors: u.colors,
                    castling: u.castling,
                    en_passant: (p.stm_ep & 0x7f) as u8,
                    halfmove: p.halfmove,
                    side: if p.stm_ep & 0x80 != 0 {
                        PieceColor::Black
                    } else {
                        PieceColor::White
                    },
                },
                p.fullmove,
                p.eval,
                p.wdl,
                p.extra,
            ),
        ),
    }
}

impl PackedBoard {
    /// The record of `pos` with the given counters, score and result. The
    /// score is cut to sixteen bits; of the pieces, the first 32 are recorded.
    pub fn pack(pos: &Position, fullmove: u16, eval: i32, wdl: u8, extra: u8) -> (packed: PackedBoard)
        ensures
            packed == self::packed(*pos, fullmove, eval, wdl, extra),
    {
        let occupied: u64 = pos.colors[0] | pos.colors[1];
        let mut pieces: u128 = 0;
        let mut i: u32 = 0;
        let mut rest: u64 = occupied;
        while rest != 0 && i < 32
            invariant
                i <= 32,
                pack_from(*pos, squares(rest), i as int, pieces) == pack_from(
                    *pos,
                    squares(occupied),
                    0,
                    0,
                ),
            decreases rest,
        {
            let sq: u8 = lsb(rest);
            let next: u64 = reset_lsb(rest);
            proof {
                lemma_pop(rest, sq, next);
                assert((seq![sq] + squares(next)).drop_first() =~= squares(next));
            }
            let p: Piece = pos.piece_at(sq);
            let kind: u8 = if pos.castling[0][0] == sq || pos.castling[0][1] == sq || pos.castling[1][0]
                == sq || pos.castling[1][1] == sq {
                UNMOVED_ROOK
            } else {
                p.ty.index() as u8
            };
            let nibble: u8 = (p.color.index() as u8) * 8 + kind;
            pieces = pieces | ((nibble as u128) << ((4 * i) as u128));
            i = i + 1;
            rest = next;
        }
        proof {
            if rest == 0 {
                lemma_squares_empty(64);
            }
        }
        let side: u8 = match pos.side {
            PieceColor::White => 0,
            PieceColor::Black => 128,
        };
        let low: u8 = pos.en_passant % 128;
        let clamped: i16 = if eval < -32768 {
            -32768
        } else if eval > 32767 {
            32767
        } else {
            eval as i16
        };
        PackedBoard {
            occupied,
            pieces,
            stm_ep: side + low,
            halfmove: pos.halfmove,
            fullmove,
            eval: clamped,
            wdl,
            extra,
        }
    }

    /// The position and the counters, score and result of a record; `None`
    /// where the record names a kind that does not exist or more pieces than it
    /// has nibbles for.
    pub fn unpack(packed: PackedBoard) -> (r: Option<(Position, u16, i16, u8, u8)>)
        ensures
            r == unpacked(packed),
    {
        let mut acc = Unpacked {
            pieces: [0, 0, 0, 0, 0, 0],
            colors: [0, 0],
            castling: [[NO_SQUARE, NO_SQUARE], [NO_SQUARE, NO_SQUARE]],
            seen_king: [false, false],
        };
        assert(acc.pieces =~= nothing_unpacked().pieces && acc.colors =~= nothing_unpacked().colors
            && acc.seen_king =~= nothing_unpacked().seen_king);
        let mut rest: u64 = packed.occupied;
        let mut i: u32 = 0;
        while rest != 0
            invariant
                i <= 32,
                unpack_from(packed.pieces, squares(rest), i as int, acc) == unpack_from(
                    packed.pieces,
                    squares(packed.occupied),
                    0,
                    nothing_unpacked(),
                ),
            decreases rest,
        {
            let sq: u8 = lsb(rest);
            let next: u64 = reset_lsb(rest);
            proof {
                lemma_pop(rest, sq, next);
                assert((seq![sq] + squares(next)).drop_first() =~= squares(next));
            }
            if i >= 32 {
                return None;
            }
            let n: u8 = ((packed.pieces >> ((4 * i) as u128)) & 15) as u8;
            match read_nibble(acc, n, sq) {
                None => {
                    return None;
                },
                Some(u) => {
                    acc = u;
                },
            }
            i = i + 1;
            rest = next;
        }
        proof {
            lemma_squares_empty(64);
        }
        let side = if packed.stm() {
            PieceColor::Black
        } else {
            PieceColor::White
        };
        Some(
            (
                Position {
                    pieces: acc.pieces,
                    colors: acc.colors,
                    castling: acc.castling,
                    en_passant: packed.ep_square(),
                    halfmove: packed.halfmove,
                    side,
                },
                packed.fullmove,
                packed.eval,
                packed.wdl,
                packed.extra,
            ),
        )
    }

    /// The board of all pieces.
    pub fn occupied(&self) -> (r: u64)
        ensures
            r == self.occupied,
    {
        self.occupied
    }

    /// The nibbles of the pieces.
    pub fn pieces(&self) -> (r: u128)
        ensures
            r == self.pieces,
    {
        self.pieces
    }

    /// Whether Black is to move.
    pub fn stm(&self) -> (r: bool)
        ensures
            r == (self.stm_ep & 0x80 != 0),
    {
        self.stm_ep & 0x80 != 0
    }

    /// The en-passant target; 64 for none.
    pub fn ep_square(&self) -> (r: u8)
        ensures
            r == self.stm_ep & 0x7f,
    {
        self.stm_ep & 0x7f
    }

    /// Plies since the last capture or pawn move.
    pub fn halfmove(&self) -> (r: u8)
        ensures
            r == self.halfmove,
    {
        self.halfmove
    }

    /// The fullmove counter.
    pub fn fullmove(&self) -> (r: u16)
        ensures
            r == self.fullmove,
    {
        self.fullmove
    }

    /// The score, in centipawns.
    pub fn eval(&self) -> (r: i16)
        ensures
            r == self.eval,
    {
        self.eval
    }

    /// The result of the game: 0 for a loss, 1 for a draw, 2 for a win.
    pub fn wdl(&self) -> (r: u8)
        ensures
            r == self.wdl,
    {
        self.wdl
    }

    /// The reserved byte.
    pub fn extra(&self) -> (r: u8)
        ensures
            r == self.extra,
    {
        self.extra
    }

    /// Sets the board of all pieces.
    pub fn set_occupied(&mut self, occupied: u64)
        ensures
            *final(self) == (PackedBoard { occupied, ..*old(self) }),
    {
        self.occupied = occupied;
    }

    /// Sets the nibbles of the pieces.
    pub fn set_pieces(&mut self, pieces: u128)
        ensures
            *final(self) == (PackedBoard { pieces, ..*old(self) }),
    {
        self.pieces = pieces;
    }

    /// Sets the side to move: Black if `stm`. The en-passant target stays.
    pub fn set_stm(&mut self, stm: bool)
        ensures
            *final(self) == (PackedBoard {
                stm_ep: (if stm { 0x80u8 } else { 0u8 }) | (old(self).stm_ep & 0x7f),
                ..*old(self)
            }),
    {
        let bit7: u8 = if stm {
            0x80
        } else {
            0
        };
        self.stm_ep = bit7 | (self.stm_ep & 0x7f);
    }

    /// Sets the en-passant target to the low seven bits of `ep`. The side to move stays.
    pub fn set_ep_square(&mut self, ep: u8)
        ensures
            *final(self) == (PackedBoard {
                stm_ep: (old(self).stm_ep & 0x80) | (ep & 0x7f),
                ..*old(self)
            }),
    {
        self.stm_ep = (self.stm_ep & 0x80) | (ep & 0x7f);
    }

    /// Sets the halfmove clock.
    pub fn set_halfmove(&mut self, halfmove: u8)
        ensures
            *final(self) == (PackedBoard { halfmove, ..*old(self) }),
    {
        self.halfmove = halfmove;
    }

    /// Sets the fullmove counter.
    pub fn set_fullmove(&mut self, fullmove: u16)
        ensures
            *final(self) == (PackedBoard { fullmove, ..*old(self) }),
    {
        self.fullmove = fullmove;
    }

    /// Sets the score.
    pub fn set_eval(&mut self, eval: i16)
        ensures
            *final(self) == (PackedBoard { eval, ..*old(self) }),
    {
        self.eval = eval;
    }

    /// Sets the result of the game.
    pub fn set_wdl(&mut self, wdl: u8)
        ensures
            *final(self) == (PackedBoard { wdl, ..*old(self) }),
    {
        self.wdl = wdl;
    }

    /// Sets the reserved byte.
    pub fn set_extra(&mut self, extra: u8)
        ensures
            *final(self) == (PackedBoard { extra, ..*old(self) }),
    {
        self.extra = extra;
    }
}

/// Reads one nibble.
fn read_nibble(acc: Unpacked, n: u8, sq: u8) -> (r: Option<Unpacked>)
    requires
        sq < 64,
    ensures
        r == unpack_one(acc, n, sq),
{
    let kind: u8 = n % 8;
    let black: bool = n >= 8;
    if kind == 7 {
        return None;
    }
    let seen: [bool; 2] = if kind == 5 {
        if black {
            [acc.seen_king[0], true]
        } else {
            [true, acc.seen_king[1]]
        }
    } else {
        acc.seen_king
    };
    let kingside: bool = if black {
        seen[1]
    } else {
        seen[0]
    };
    let castling: [[u8; 2]; 2] = if kind == UNMOVED_ROOK {
        if black {
            if kingside {
                [acc.castling[0], [acc.castling[1][0], sq]]
            } else {
                [acc.castling[0], [sq, acc.castling[1][1]]]
            }
        } else {
            if kingside {
                [[acc.castling[0][0], sq], acc.castling[1]]
            } else {
                [[sq, acc.castling[0][1]], acc.castling[1]]
            }
        }
    } else {
        acc.castling
    };
    let ty: usize = if kind == UNMOVED_ROOK {
        3
    } else {
        kind as usize
    };
    let b: u64 = square_bit(sq);
    Some(
        Unpacked {
            pieces: toggle_piece(acc.pieces, ty, b),
            colors: if black {
                [acc.colors[0], acc.colors[1] ^ b]
            } else {
                [acc.colors[0] ^ b, acc.colors[1]]
            },
            castling,
            seen_king: seen,
        },
    )
}

/// Byte `k` of a number, counted from the lowest.
pub open spec fn byte_of(x: u128, k: int) -> u8 {
    (x >> ((8 * k) as u128)) as u8
}

/// The number whose bytes, from the lowest, are the `n` bytes of `bytes` from `at` on.
pub open spec fn number_at(bytes: Seq<u8>, at: int, n: nat) -> u128
    decreases n,
{
    if n == 0 {
        0
    } else {
        (number_at(bytes, at + 1, (n - 1) as nat) << 8) | (bytes[at] as u128)
    }
}

/// The 32 bytes of a record: the board of all pieces, the nibbles, the byte
/// of side and en-passant target, the halfmove clock, the fullmove counter,
/// the score, the result and the reserved byte, each number with its lowest
/// byte first.
pub open spec fn bytes_spec(p: PackedBoard) -> Seq<u8> {
    Seq::new(
        32,
        |i: int|
            if i < 8 {
                byte_of(p.occupied as u128, i)
            } else if i < 24 {
                byte_of(p.pieces, i - 8)
            } else if i == 24 {
                p.stm_ep
            } else if i == 25 {
                p.halfmove
            } else if i < 28 {
                byte_of(p.fullmove as u128, i - 26)
            } else if i < 30 {
                byte_of((p.eval as u16) as u128, i - 28)
            } else if i == 30 {
                p.wdl
            } else {
                p.extra
            },
    )
}

/// The record that 32 bytes hold.
pub open spec fn record_spec(bytes: Seq<u8>) -> PackedBoard {
    PackedBoard {
        occupied: number_at(bytes, 0, 8) as u64,
        pieces: number_at(bytes, 8, 16),
        stm_ep: bytes[24],
        halfmove: bytes[25],
        fullmove: number_at(bytes, 26, 2) as u16,
        eval: (number_at(bytes, 28, 2) as u16) as i16,
        wdl: bytes[30],
        extra: bytes[31],
    }
}

/// Reads a number of `n` bytes, lowest byte first.
fn read_number(bytes: &[u8], at: usize, n: usize) -> (x: u128)
    requires
        at + n <= bytes@.len() <= usize::MAX,
        n <= 16,
    ensures
        x == number_at(bytes@, at as int, n as nat),
    decreases n,
{
    if n == 0 {
        0
    } else {
        let rest: u128 = read_number(bytes, at + 1, n - 1);
        (rest << 8) | (bytes[at] as u128)
    }
}

impl PackedBoard {
    /// The bytes of the record.
    pub fn to_bytes(&self) -> (bytes: [u8; 32])
        ensures
            bytes@ == bytes_spec(*self),
    {
        let mut bytes: [u8; 32] = [0u8; 32];
        let mut i: usize = 0;
        while i < 8
            invariant
                i <= 8,
                forall|k: int| 0 <= k < i ==> bytes@[k] == bytes_spec(*self)[k],
            decreases 8 - i,
        {
            bytes[i] = #[verifier::truncate]
            ((self.occupied as u128 >> ((8 * i) as u128)) as u8);
            i = i + 1;
        }
        while i < 24
            invariant
                8 <= i <= 24,
                forall|k: int| 0 <= k < i ==> bytes@[k] == bytes_spec(*self)[k],
            decreases 24 - i,
        {
            bytes[i] = #[verifier::truncate]
            ((self.pieces >> ((8 * (i - 8)) as u128)) as u8);
            i = i + 1;
        }
        bytes[24] = self.stm_ep;
        bytes[25] = self.halfmove;
        bytes[26] = #[verifier::truncate]
        ((self.fullmove as u128 >> 0u128) as u8);
        bytes[27] = #[verifier::truncate]
        ((self.fullmove as u128 >> 8u128) as u8);
        let score: u16 = #[verifier::truncate]
        (self.eval as u16);
        bytes[28] = #[verifier::truncate]
        ((score as u128 >> 0u128) as u8);
        bytes[29] = #[verifier::truncate]
        ((score as u128 >> 8u128) as u8);
        bytes[30] = self.wdl;
        bytes[31] = self.extra;
        assert(bytes@ =~= bytes_spec(*self));
        bytes
    }

    /// The record that `bytes` hold.
    pub fn from_bytes(bytes: &[u8]) -> (packed: PackedBoard)
        requires
            bytes@.len() == 32,
        ensures
            packed == record_spec(bytes@),
    {
        let eval: u16 = #[verifier::truncate]
        (read_number(bytes, 28, 2) as u16);
        PackedBoard {
            occupied: #[verifier::truncate]
            (read_number(bytes, 0, 8) as u64),
            pieces: read_number(bytes, 8, 16),
            stm_ep: bytes[24],
            halfmove: bytes[25],
            fullmove: #[verifier::truncate]
            (read_number(bytes, 26, 2) as u16),
            eval: #[verifier::truncate]
            (eval as i16),
            wdl: bytes[30],
            extra: bytes[31],
        }
    }
}

/// The number that is read from the bytes of a number is that number, and
/// the bytes of a number that is read from bytes are those bytes.
proof fn lemma_two_bytes(x: u16, lo: u8, hi: u8, s: i16)
    ensures
        ((s as u16) as i16) == s,
        ((x as i16) as u16) == x,
        (((((0u128 << 8) | ((x as u128 >> 8) as u8 as u128)) << 8) | ((x as u128 >> 0) as u8 as u128)))
            as u16 == x,
        ((((((0u128 << 8) | (hi as u128)) << 8) | (lo as u128)) as u16) as u128 >> 0) as u8 == lo,
        ((((((0u128 << 8) | (hi as u128)) << 8) | (lo as u128)) as u16) as u128 >> 8) as u8 == hi,
{
    assert({
        &&& ((s as u16) as i16) == s
        &&& ((x as i16) as u16) == x
        &&& (((((0u128 << 8) | ((x as u128 >> 8) as u8 as u128)) << 8) | ((x as u128 >> 0) as u8
            as u128))) as u16 == x
        &&& ((((((0u128 << 8) | (hi as u128)) << 8) | (lo as u128)) as u16) as u128 >> 0) as u8 == lo
        &&& ((((((0u128 << 8) | (hi as u128)) << 8) | (lo as u128)) as u16) as u128 >> 8) as u8 == hi
    }) by (bit_vector);
}

/// A number of eight bytes is the number that is read from its bytes, and the
/// bytes of a number that is read from eight bytes are those bytes.
proof fn lemma_eight_bytes(x: u64, b0: u8, b1: u8, b2: u8, b3: u8, b4: u8, b5: u8, b6: u8, b7: u8)
    ensures
        ((((((((((((((((0u128 << 8) | (((x as u128 >> 56) as u8) as u128)) << 8) | (((x as u128 >> 48) as u8) as u128)) << 8) | (((x as u128 >> 40) as u8) as u128)) << 8) | (((x as u128 >> 32) as u8) as u128)) << 8) | (((x as u128 >> 24) as u8) as u128)) << 8) | (((x as u128 >> 16) as u8) as u128)) << 8) | (((x as u128 >> 8) as u8) as u128)) << 8) | (((x as u128 >> 0) as u8) as u128)) as u64 == x,
        ((((((((((((((((((0u128 << 8) | (b7 as u128)) << 8) | (b6 as u128)) << 8) | (b5 as u128)) << 8) | (b4 as u128)) << 8) | (b3 as u128)) << 8) | (b2 as u128)) << 8) | (b1 as u128)) << 8) | (b0 as u128)) as u64) as u128 >> 0) as u8 == b0,
        ((((((((((((((((((0u128 << 8) | (b7 as u128)) << 8) | (b6 as u128)) << 8) | (b5 as u128)) << 8) | (b4 as u128)) << 8) | (b3 as u128)) << 8) | (b2 as u128)) << 8) | (b1 as u128)) << 8) | (b0 as u128)) as u64) as u128 >> 8) as u8 == b1,
        ((((((((((((((((((0u128 << 8) | (b7 as u128)) << 8) | (b6 as u128)) << 8) | (b5 as u128)) << 8) | (b4 as u128)) << 8) | (b3 as u128)) << 8) | (b2 as u128)) << 8) | (b1 as u128)) << 8) | (b0 as u128)) as u64) as u128 >> 16) as u8 == b2,
        ((((((((((((((((((0u128 << 8) | (b7 as u128)) << 8) | (b6 as u128)) << 8) | (b5 as u128)) << 8) | (b4 as u128)) << 8) | (b3 as u128)) << 8) | (b2 as u128)) << 8) | (b1 as u128)) << 8) | (b0 as u128)) as u64) as u128 >> 24) as u8 == b3,
        ((((((((((((((((((0u128 << 8) | (b7 as u128)) << 8) | (b6 as u128)) << 8) | (b5 as u128)) << 8) | (b4 as u128)) << 8) | (b3 as u128)) << 8) | (b2 as u128)) << 8) | (b1 as u128)) << 8) | (b0 as u128)) as u64) as u128 >> 32) as u8 == b4,
        ((((((((((((((((((0u128 << 8) | (b7 as u128)) << 8) | (b6 as u128)) << 8) | (b5 as u128)) << 8) | (b4 as u128)) << 8) | (b3 as u128)) << 8) | (b2 as u128)) << 8) | (b1 as u128)) << 8) | (b0 as u128)) as u64) as u128 >> 40) as u8 == b5,
        ((((((((((((((((((0u128 << 8) | (b7 as u128)) << 8) | (b6 as u128)) << 8) | (b5 as u128)) << 8) | (b4 as u128)) << 8) | (b3 as u128)) << 8) | (b2 as u128)) << 8) | (b1 as u128)) << 8) | (b0 as u128)) as u64) as u128 >> 48) as u8 == b6,
        ((((((((((((((((((0u128 << 8) | (b7 as u128)) << 8) | (b6 as u128)) << 8) | (b5 as u128)) << 8) | (b4 as u128)) << 8) | (b3 as u128)) << 8) | (b2 as u128)) << 8) | (b1 as u128)) << 8) | (b0 as u128)) as u64) as u128 >> 56) as u8 == b7,
{
    assert({
        &&& ((((((((((((((((0u128 << 8) | (((x as u128 >> 56) as u8) as u128)) << 8) | (((x as u128 >> 48) as u8) as u128)) << 8) | (((x as u128 >> 40) as u8) as u128)) << 8) | (((x as u128 >> 32) as u8) as u128)) << 8) | (((x as u128 >> 24) as u8) as u128)) << 8) | (((x as u128 >> 16) as u8) as u128)) << 8) | (((x as u128 >> 8) as u8) as u128)) << 8) | (((x as u128 >> 0) as u8) as u128)) as u64 == x
        &&& ((((((((((((((((((0u128 << 8) | (b7 as u128)) << 8) | (b6 as u128)) << 8) | (b5 as u128)) << 8) | (b4 as u128)) << 8) | (b3 as u128)) << 8) | (b2 as u128)) << 8) | (b1 as u128)) << 8) | (b0 as u128)) as u64) as u128 >> 0) as u8 == b0
        &&& ((((((((((((((((((0u128 << 8) | (b7 as u128)) << 8) | (b6 as u128)) << 8) | (b5 as u128)) << 8) | (b4 as u128)) << 8) | (b3 as u128)) << 8) | (b2 as u128)) << 8) | (b1 as u128)) << 8) | (b0 as u128)) as u64) as u128 >> 8) as u8 == b1
        &&& ((((((((((((((((((0u128 << 8) | (b7 as u128)) << 8) | (b6 as u128)) << 8) | (b5 as u128)) << 8) | (b4 as u128)) << 8) | (b3 as u128)) << 8) | (b2 as u128)) << 8) | (b1 as u128)) << 8) | (b0 as u128)) as u64) as u128 >> 16) as u8 == b2
        &&& ((((((((((((((((((0u128 << 8) | (b7 as u128)) << 8) | (b6 as u128)) << 8) | (b5 as u128)) << 8) | (b4 as u128)) << 8) | (b3 as u128)) << 8) | (b2 as u128)) << 8) | (b1 as u128)) << 8) | (b0 as u128)) as u64) as u128 >> 24) as u8 == b3
        &&& ((((((((((((((((((0u128 << 8) | (b7 as u128)) << 8) | (b6 as u128)) << 8) | (b5 as u128)) << 8) | (b4 as u128)) << 8) | (b3 as u128)) << 8) | (b2 as u128)) << 8) | (b1 as u128)) << 8) | (b0 as u128)) as u64) as u128 >> 32) as u8 == b4
        &&& ((((((((((((((((((0u128 << 8) | (b7 as u128)) << 8) | (b6 as u128)) << 8) | (b5 as u128)) << 8) | (b4 as u128)) << 8) | (b3 as u128)) << 8) | (b2 as u128)) << 8) | (b1 as u128)) << 8) | (b0 as u128)) as u64) as u128 >> 40) as u8 == b5
        &&& ((((((((((((((((((0u128 << 8) | (b7 as u128)) << 8) | (b6 as u128)) << 8) | (b5 as u128)) << 8) | (b4 as u128)) << 8) | (b3 as u128)) << 8) | (b2 as u128)) << 8) | (b1 as u128)) << 8) | (b0 as u128)) as u64) as u128 >> 48) as u8 == b6
        &&& ((((((((((((((((((0u128 << 8) | (b7 as u128)) << 8) | (b6 as u128)) << 8) | (b5 as u128)) << 8) | (b4 as u128)) << 8) | (b3 as u128)) << 8) | (b2 as u128)) << 8) | (b1 as u128)) << 8) | (b0 as u128)) as u64) as u128 >> 56) as u8 == b7
    }) by (bit_vector);
}

/// A number of sixteen bytes is the number that is read from its bytes, and
/// the bytes of a number that is read from sixteen bytes are those bytes.
proof fn lemma_sixteen_bytes(x: u128, b0: u8, b1: u8, b2: u8, b3: u8, b4: u8, b5: u8, b6: u8, b7: u8, b8: u8, b9: u8, b10: u8, b11: u8, b12: u8, b13: u8, b14: u8, b15: u8)
    ensures
        ((((((((((((((((((((((((((((((((0u128 << 8) | (((x as u128 >> 120) as u8) as u128)) << 8) | (((x as u128 >> 112) as u8) as u128)) << 8) | (((x as u128 >> 104) as u8) as u128)) << 8) | (((x as u128 >> 96) as u8) as u128)) << 8) | (((x as u128 >> 88) as u8) as u128)) << 8) | (((x as u128 >> 80) as u8) as u128)) << 8) | (((x as u128 >> 72) as u8) as u128)) << 8) | (((x as u128 >> 64) as u8) as u128)) << 8) | (((x as u128 >> 56) as u8) as u128)) << 8) | (((x as u128 >> 48) as u8) as u128)) << 8) | (((x as u128 >> 40) as u8) as u128)) << 8) | (((x as u128 >> 32) as u8) as u128)) << 8) | (((x as u128 >> 24) as u8) as u128)) << 8) | (((x as u128 >> 16) as u8) as u128)) << 8) | (((x as u128 >> 8) as u8) as u128)) << 8) | (((x as u128 >> 0) as u8) as u128)) == x,
        (((((((((((((((((((((((((((((((((0u128 << 8) | (b15 as u128)) << 8) | (b14 as u128)) << 8) | (b13 as u128)) << 8) | (b12 as u128)) << 8) | (b11 as u128)) << 8) | (b10 as u128)) << 8) | (b9 as u128)) << 8) | (b8 as u128)) << 8) | (b7 as u128)) << 8) | (b6 as u128)) << 8) | (b5 as u128)) << 8) | (b4 as u128)) << 8) | (b3 as u128)) << 8) | (b2 as u128)) << 8) | (b1 as u128)) << 8) | (b0 as u128)) >> 0) as u8 == b0,
        (((((((((((((((((((((((((((((((((0u128 << 8) | (b15 as u128)) << 8) | (b14 as u128)) << 8) | (b13 as u128)) << 8) | (b12 as u128)) << 8) | (b11 as u128)) << 8) | (b10 as u128)) << 8) | (b9 as u128)) << 8) | (b8 as u128)) << 8) | (b7 as u128)) << 8) | (b6 as u128)) << 8) | (b5 as u128)) << 8) | (b4 as u128)) << 8) | (b3 as u128)) << 8) | (b2 as u128)) << 8) | (b1 as u128)) << 8) | (b0 as u128)) >> 8) as u8 == b1,
        (((((((((((((((((((((((((((((((((0u128 << 8) | (b15 as u128)) << 8) | (b14 as u128)) << 8) | (b13 as u128)) << 8) | (b12 as u128)) << 8) | (b11 as u128)) << 8) | (b10 as u128)) << 8) | (b9 as u128)) << 8) | (b8 as u128)) << 8) | (b7 as u128)) << 8) | (b6 as u128)) << 8) | (b5 as u128)) << 8) | (b4 as u128)) << 8) | (b3 as u128)) << 8) | (b2 as u128)) << 8) | (b1 as u128)) << 8) | (b0 as u128)) >> 16) as u8 == b2,
        (((((((((((((((((((((((((((((((((0u128 << 8) | (b15 as u128)) << 8) | (b14 as u128)) << 8) | (b13 as u128)) << 8) | (b12 as u128)) << 8) | (b11 as u128)) << 8) | (b10 as u128)) << 8) | (b9 as u128)) << 8) | (b8 as u128)) << 8) | (b7 as u128)) << 8) | (b6 as u128)) << 8) | (b5 as u128)) << 8) | (b4 as u128)) << 8) | (b3 as u128)) << 8) | (b2 as u128)) << 8) | (b1 as u128)) << 8) | (b0 as u128)) >> 24) as u8 == b3,
        (((((((((((((((((((((((((((((((((0u128 << 8) | (b15 as u128)) << 8) | (b14 as u128)) << 8) | (b13 as u128)) << 8) | (b12 as u128)) << 8) | (b11 as u128)) << 8) | (b10 as u128)) << 8) | (b9 as u128)) << 8) | (b8 as u128)) << 8) | (b7 as u128)) << 8) | (b6 as u128)) << 8) | (b5 as u128)) << 8) | (b4 as u128)) << 8) | (b3 as u128)) << 8) | (b2 as u128)) << 8) | (b1 as u128)) << 8) | (b0 as u128)) >> 32) as u8 == b4,
        (((((((((((((((((((((((((((((((((0u128 << 8) | (b15 as u128)) << 8) | (b14 as u128)) << 8) | (b13 as u128)) << 8) | (b12 as u128)) << 8) | (b11 as u128)) << 8) | (b10 as u128)) << 8) | (b9 as u128)) << 8) | (b8 as u128)) << 8) | (b7 as u128)) << 8) | (b6 as u128)) << 8) | (b5 as u128)) << 8) | (b4 as u128)) << 8) | (b3 as u128)) << 8) | (b2 as u128)) << 8) | (b1 as u128)) << 8) | (b0 as u128)) >> 40) as u8 == b5,
        (((((((((((((((((((((((((((((((((0u128 << 8) | (b15 as u128)) << 8) | (b14 as u128)) << 8) | (b13 as u128)) << 8) | (b12 as u128)) << 8) | (b11 as u128)) << 8) | (b10 as u128)) << 8) | (b9 as u128)) << 8) | (b8 as u128)) << 8) | (b7 as u128)) << 8) | (b6 as u128)) << 8) | (b5 as u128)) << 8) | (b4 as u128)) << 8) | (b3 as u128)) << 8) | (b2 as u128)) << 8) | (b1 as u128)) << 8) | (b0 as u128)) >> 48) as u8 == b6,
        (((((((((((((((((((((((((((((((((0u128 << 8) | (b15 as u128)) << 8) | (b14 as u128)) << 8) | (b13 as u128)) << 8) | (b12 as u128)) << 8) | (b11 as u128)) << 8) | (b10 as u128)) << 8) | (b9 as u128)) << 8) | (b8 as u128)) << 8) | (b7 as u128)) << 8) | (b6 as u128)) << 8) | (b5 as u128)) << 8) | (b4 as u128)) << 8) | (b3 as u128)) << 8) | (b2 as u128)) << 8) | (b1 as u128)) << 8) | (b0 as u128)) >> 56) as u8 == b7,
        (((((((((((((((((((((((((((((((((0u128 << 8) | (b15 as u128)) << 8) | (b14 as u128)) << 8) | (b13 as u128)) << 8) | (b12 as u128)) << 8) | (b11 as u128)) << 8) | (b10 as u128)) << 8) | (b9 as u128)) << 8) | (b8 as u128)) << 8) | (b7 as u128)) << 8) | (b6 as u128)) << 8) | (b5 as u128)) << 8) | (b4 as u128)) << 8) | (b3 as u128)) << 8) | (b2 as u128)) << 8) | (b1 as u128)) << 8) | (b0 as u128)) >> 64) as u8 == b8,
        (((((((((((((((((((((((((((((((((0u128 << 8) | (b15 as u128)) << 8) | (b14 as u128)) << 8) | (b13 as u128)) << 8) | (b12 as u128)) << 8) | (b11 as u128)) << 8) | (b10 as u128)) << 8) | (b9 as u128)) << 8) | (b8 as u128)) << 8) | (b7 as u128)) << 8) | (b6 as u128)) << 8) | (b5 as u128)) << 8) | (b4 as u128)) << 8) | (b3 as u128)) << 8) | (b2 as u128)) << 8) | (b1 as u128)) << 8) | (b0 as u128)) >> 72) as u8 == b9,
        (((((((((((((((((((((((((((((((((0u128 << 8) | (b15 as u128)) << 8) | (b14 as u128)) << 8) | (b13 as u128)) << 8) | (b12 as u128)) << 8) | (b11 as u128)) << 8) | (b10 as u128)) << 8) | (b9 as u128)) << 8) | (b8 as u128)) << 8) | (b7 as u128)) << 8) | (b6 as u128)) << 8) | (b5 as u128)) << 8) | (b4 as u128)) << 8) | (b3 as u128)) << 8) | (b2 as u128)) << 8) | (b1 as u128)) << 8) | (b0 as u128)) >> 80) as u8 == b10,
        (((((((((((((((((((((((((((((((((0u128 << 8) | (b15 as u128)) << 8) | (b14 as u128)) << 8) | (b13 as u128)) << 8) | (b12 as u128)) << 8) | (b11 as u128)) << 8) | (b10 as u128)) << 8) | (b9 as u128)) << 8) | (b8 as u128)) << 8) | (b7 as u128)) << 8) | (b6 as u128)) << 8) | (b5 as u128)) << 8) | (b4 as u128)) << 8) | (b3 as u128)) << 8) | (b2 as u128)) << 8) | (b1 as u128)) << 8) | (b0 as u128)) >> 88) as u8 == b11,
        (((((((((((((((((((((((((((((((((0u128 << 8) | (b15 as u128)) << 8) | (b14 as u128)) << 8) | (b13 as u128)) << 8) | (b12 as u128)) << 8) | (b11 as u128)) << 8) | (b10 as u128)) << 8) | (b9 as u128)) << 8) | (b8 as u128)) << 8) | (b7 as u128)) << 8) | (b6 as u128)) << 8) | (b5 as u128)) << 8) | (b4 as u128)) << 8) | (b3 as u128)) << 8) | (b2 as u128)) << 8) | (b1 as u128)) << 8) | (b0 as u128)) >> 96) as u8 == b12,
        (((((((((((((((((((((((((((((((((0u128 << 8) | (b15 as u128)) << 8) | (b14 as u128)) << 8) | (b13 as u128)) << 8) | (b12 as u128)) << 8) | (b11 as u128)) << 8) | (b10 as u128)) << 8) | (b9 as u128)) << 8) | (b8 as u128)) << 8) | (b7 as u128)) << 8) | (b6 as u128)) << 8) | (b5 as u128)) << 8) | (b4 as u128)) << 8) | (b3 as u128)) << 8) | (b2 as u128)) << 8) | (b1 as u128)) << 8) | (b0 as u128)) >> 104) as u8 == b13,
        (((((((((((((((((((((((((((((((((0u128 << 8) | (b15 as u128)) << 8) | (b14 as u128)) << 8) | (b13 as u128)) << 8) | (b12 as u128)) << 8) | (b11 as u128)) << 8) | (b10 as u128)) << 8) | (b9 as u128)) << 8) | (b8 as u128)) << 8) | (b7 as u128)) << 8) | (b6 as u128)) << 8) | (b5 as u128)) << 8) | (b4 as u128)) << 8) | (b3 as u128)) << 8) | (b2 as u128)) << 8) | (b1 as u128)) << 8) | (b0 as u128)) >> 112) as u8 == b14,
        (((((((((((((((((((((((((((((((((0u128 << 8) | (b15 as u128)) << 8) | (b14 as u128)) << 8) | (b13 as u128)) << 8) | (b12 as u128)) << 8) | (b11 as u128)) << 8) | (b10 as u128)) << 8) | (b9 as u128)) << 8) | (b8 as u128)) << 8) | (b7 as u128)) << 8) | (b6 as u128)) << 8) | (b5 as u128)) << 8) | (b4 as u128)) << 8) | (b3 as u128)) << 8) | (b2 as u128)) << 8) | (b1 as u128)) << 8) | (b0 as u128)) >> 120) as u8 == b15,
{
    assert({
        &&& ((((((((((((((((((((((((((((((((0u128 << 8) | (((x as u128 >> 120) as u8) as u128)) << 8) | (((x as u128 >> 112) as u8) as u128)) << 8) | (((x as u128 >> 104) as u8) as u128)) << 8) | (((x as u128 >> 96) as u8) as u128)) << 8) | (((x as u128 >> 88) as u8) as u128)) << 8) | (((x as u128 >> 80) as u8) as u128)) << 8) | (((x as u128 >> 72) as u8) as u128)) << 8) | (((x as u128 >> 64) as u8) as u128)) << 8) | (((x as u128 >> 56) as u8) as u128)) << 8) | (((x as u128 >> 48) as u8) as u128)) << 8) | (((x as u128 >> 40) as u8) as u128)) << 8) | (((x as u128 >> 32) as u8) as u128)) << 8) | (((x as u128 >> 24) as u8) as u128)) << 8) | (((x as u128 >> 16) as u8) as u128)) << 8) | (((x as u128 >> 8) as u8) as u128)) << 8) | (((x as u128 >> 0) as u8) as u128)) == x
        &&& (((((((((((((((((((((((((((((((((0u128 << 8) | (b15 as u128)) << 8) | (b14 as u128)) << 8) | (b13 as u128)) << 8) | (b12 as u128)) << 8) | (b11 as u128)) << 8) | (b10 as u128)) << 8) | (b9 as u128)) << 8) | (b8 as u128)) << 8) | (b7 as u128)) << 8) | (b6 as u128)) << 8) | (b5 as u128)) << 8) | (b4 as u128)) << 8) | (b3 as u128)) << 8) | (b2 as u128)) << 8) | (b1 as u128)) << 8) | (b0 as u128)) >> 0) as u8 == b0
        &&& (((((((((((((((((((((((((((((((((0u128 << 8) | (b15 as u128)) << 8) | (b14 as u128)) << 8) | (b13 as u128)) << 8) | (b12 as u128)) << 8) | (b11 as u128)) << 8) | (b10 as u128)) << 8) | (b9 as u128)) << 8) | (b8 as u128)) << 8) | (b7 as u128)) << 8) | (b6 as u128)) << 8) | (b5 as u128)) << 8) | (b4 as u128)) << 8) | (b3 as u128)) << 8) | (b2 as u128)) << 8) | (b1 as u128)) << 8) | (b0 as u128)) >> 8) as u8 == b1
        &&& (((((((((((((((((((((((((((((((((0u128 << 8) | (b15 as u128)) << 8) | (b14 as u128)) << 8) | (b13 as u128)) << 8) | (b12 as u128)) << 8) | (b11 as u128)) << 8) | (b10 as u128)) << 8) | (b9 as u128)) << 8) | (b8 as u128)) << 8) | (b7 as u128)) << 8) | (b6 as u128)) << 8) | (b5 as u128)) << 8) | (b4 as u128)) << 8) | (b3 as u128)) << 8) | (b2 as u128)) << 8) | (b1 as u128)) << 8) | (b0 as u128)) >> 16) as u8 == b2
        &&& (((((((((((((((((((((((((((((((((0u128 << 8) | (b15 as u128)) << 8) | (b14 as u128)) << 8) | (b13 as u128)) << 8) | (b12 as u128)) << 8) | (b11 as u128)) << 8) | (b10 as u128)) << 8) | (b9 as u128)) << 8) | (b8 as u128)) << 8) | (b7 as u128)) << 8) | (b6 as u128)) << 8) | (b5 as u128)) << 8) | (b4 as u128)) << 8) | (b3 as u128)) << 8) | (b2 as u128)) << 8) | (b1 as u128)) << 8) | (b0 as u128)) >> 24) as u8 == b3
        &&& (((((((((((((((((((((((((((((((((0u128 << 8) | (b15 as u128)) << 8) | (b14 as u128)) << 8) | (b13 as u128)) << 8) | (b12 as u128)) << 8) | (b11 as u128)) << 8) | (b10 as u128)) << 8) | (b9 as u128)) << 8) | (b8 as u128)) << 8) | (b7 as u128)) << 8) | (b6 as u128)) << 8) | (b5 as u128)) << 8) | (b4 as u128)) << 8) | (b3 as u128)) << 8) | (b2 as u128)) << 8) | (b1 as u128)) << 8) | (b0 as u128)) >> 32) as u8 == b4
        &&& (((((((((((((((((((((((((((((((((0u128 << 8) | (b15 as u128)) << 8) | (b14 as u128)) << 8) | (b13 as u128)) << 8) | (b12 as u128)) << 8) | (b11 as u128)) << 8) | (b10 as u128)) << 8) | (b9 as u128)) << 8) | (b8 as u128)) << 8) | (b7 as u128)) << 8) | (b6 as u128)) << 8) | (b5 as u128)) << 8) | (b4 as u128)) << 8) | (b3 as u128)) << 8) | (b2 as u128)) << 8) | (b1 as u128)) << 8) | (b0 as u128)) >> 40) as u8 == b5
        &&& (((((((((((((((((((((((((((((((((0u128 << 8) | (b15 as u128)) << 8) | (b14 as u128)) << 8) | (b13 as u128)) << 8) | (b12 as u128)) << 8) | (b11 as u128)) << 8) | (b10 as u128)) << 8) | (b9 as u128)) << 8) | (b8 as u128)) << 8) | (b7 as u128)) << 8) | (b6 as u128)) << 8) | (b5 as u128)) << 8) | (b4 as u128)) << 8) | (b3 as u128)) << 8) | (b2 as u128)) << 8) | (b1 as u128)) << 8) | (b0 as u128)) >> 48) as u8 == b6
        &&& (((((((((((((((((((((((((((((((((0u128 << 8) | (b15 as u128)) << 8) | (b14 as u128)) << 8) | (b13 as u128)) << 8) | (b12 as u128)) << 8) | (b11 as u128)) << 8) | (b10 as u128)) << 8) | (b9 as u128)) << 8) | (b8 as u128)) << 8) | (b7 as u128)) << 8) | (b6 as u128)) << 8) | (b5 as u128)) << 8) | (b4 as u128)) << 8) | (b3 as u128)) << 8) | (b2 as u128)) << 8) | (b1 as u128)) << 8) | (b0 as u128)) >> 56) as u8 == b7
        &&& (((((((((((((((((((((((((((((((((0u128 << 8) | (b15 as u128)) << 8) | (b14 as u128)) << 8) | (b13 as u128)) << 8) | (b12 as u128)) << 8) | (b11 as u128)) << 8) | (b10 as u128)) << 8) | (b9 as u128)) << 8) | (b8 as u128)) << 8) | (b7 as u128)) << 8) | (b6 as u128)) << 8) | (b5 as u128)) << 8) | (b4 as u128)) << 8) | (b3 as u128)) << 8) | (b2 as u128)) << 8) | (b1 as u128)) << 8) | (b0 as u128)) >> 64) as u8 == b8
        &&& (((((((((((((((((((((((((((((((((0u128 << 8) | (b15 as u128)) << 8) | (b14 as u128)) << 8) | (b13 as u128)) << 8) | (b12 as u128)) << 8) | (b11 as u128)) << 8) | (b10 as u128)) << 8) | (b9 as u128)) << 8) | (b8 as u128)) << 8) | (b7 as u128)) << 8) | (b6 as u128)) << 8) | (b5 as u128)) << 8) | (b4 as u128)) << 8) | (b3 as u128)) << 8) | (b2 as u128)) << 8) | (b1 as u128)) << 8) | (b0 as u128)) >> 72) as u8 == b9
        &&& (((((((((((((((((((((((((((((((((0u128 << 8) | (b15 as u128)) << 8) | (b14 as u128)) << 8) | (b13 as u128)) << 8) | (b12 as u128)) << 8) | (b11 as u128)) << 8) | (b10 as u128)) << 8) | (b9 as u128)) << 8) | (b8 as u128)) << 8) | (b7 as u128)) << 8) | (b6 as u128)) << 8) | (b5 as u128)) << 8) | (b4 as u128)) << 8) | (b3 as u128)) << 8) | (b2 as u128)) << 8) | (b1 as u128)) << 8) | (b0 as u128)) >> 80) as u8 == b10
        &&& (((((((((((((((((((((((((((((((((0u128 << 8) | (b15 as u128)) << 8) | (b14 as u128)) << 8) | (b13 as u128)) << 8) | (b12 as u128)) << 8) | (b11 as u128)) << 8) | (b10 as u128)) << 8) | (b9 as u128)) << 8) | (b8 as u128)) << 8) | (b7 as u128)) << 8) | (b6 as u128)) << 8) | (b5 as u128)) << 8) | (b4 as u128)) << 8) | (b3 as u128)) << 8) | (b2 as u128)) << 8) | (b1 as u128)) << 8) | (b0 as u128)) >> 88) as u8 == b11
        &&& (((((((((((((((((((((((((((((((((0u128 << 8) | (b15 as u128)) << 8) | (b14 as u128)) << 8) | (b13 as u128)) << 8) | (b12 as u128)) << 8) | (b11 as u128)) << 8) | (b10 as u128)) << 8) | (b9 as u128)) << 8) | (b8 as u128)) << 8) | (b7 as u128)) << 8) | (b6 as u128)) << 8) | (b5 as u128)) << 8) | (b4 as u128)) << 8) | (b3 as u128)) << 8) | (b2 as u128)) << 8) | (b1 as u128)) << 8) | (b0 as u128)) >> 96) as u8 == b12
        &&& (((((((((((((((((((((((((((((((((0u128 << 8) | (b15 as u128)) << 8) | (b14 as u128)) << 8) | (b13 as u128)) << 8) | (b12 as u128)) << 8) | (b11 as u128)) << 8) | (b10 as u128)) << 8) | (b9 as u128)) << 8) | (b8 as u128)) << 8) | (b7 as u128)) << 8) | (b6 as u128)) << 8) | (b5 as u128)) << 8) | (b4 as u128)) << 8) | (b3 as u128)) << 8) | (b2 as u128)) << 8) | (b1 as u128)) << 8) | (b0 as u128)) >> 104) as u8 == b13
        &&& (((((((((((((((((((((((((((((((((0u128 << 8) | (b15 as u128)) << 8) | (b14 as u128)) << 8) | (b13 as u128)) << 8) | (b12 as u128)) << 8) | (b11 as u128)) << 8) | (b10 as u128)) << 8) | (b9 as u128)) << 8) | (b8 as u128)) << 8) | (b7 as u128)) << 8) | (b6 as u128)) << 8) | (b5 as u128)) << 8) | (b4 as u128)) << 8) | (b3 as u128)) << 8) | (b2 as u128)) << 8) | (b1 as u128)) << 8) | (b0 as u128)) >> 112) as u8 == b14
        &&& (((((((((((((((((((((((((((((((((0u128 << 8) | (b15 as u128)) << 8) | (b14 as u128)) << 8) | (b13 as u128)) << 8) | (b12 as u128)) << 8) | (b11 as u128)) << 8) | (b10 as u128)) << 8) | (b9 as u128)) << 8) | (b8 as u128)) << 8) | (b7 as u128)) << 8) | (b6 as u128)) << 8) | (b5 as u128)) << 8) | (b4 as u128)) << 8) | (b3 as u128)) << 8) | (b2 as u128)) << 8) | (b1 as u128)) << 8) | (b0 as u128)) >> 120) as u8 == b15
    }) by (bit_vector);
}

/// A record is the record that its bytes hold.
pub proof fn lemma_record_of_bytes(p: PackedBoard)
    ensures
        record_spec(bytes_spec(p)) == p,
{
    let b = bytes_spec(p);
    reveal_with_fuel(number_at, 17);
    lemma_eight_bytes(p.occupied, 0, 0, 0, 0, 0, 0, 0, 0);
    lemma_sixteen_bytes(p.pieces, 0, 0, 0, 0, 0, 0, 0, 0, 0, 0, 0, 0, 0, 0, 0, 0);
    lemma_two_bytes(p.fullmove, 0, 0, 0);
    lemma_two_bytes(p.eval as u16, 0, 0, p.eval);
    assert(number_at(b, 0, 8) as u64 == p.occupied);
    assert(number_at(b, 8, 16) == p.pieces);
    assert(number_at(b, 26, 2) as u16 == p.fullmove);
    assert(number_at(b, 28, 2) as u16 == p.eval as u16);
}

/// The bytes of the record that 32 bytes hold are those bytes.
pub proof fn lemma_bytes_of_record(bytes: Seq<u8>)
    requires
        bytes.len() == 32,
    ensures
        bytes_spec(record_spec(bytes)) == bytes,
{
    let p = record_spec(bytes);
    reveal_with_fuel(number_at, 17);
    lemma_eight_bytes(
        0,
        bytes[0],
        bytes[1],
        bytes[2],
        bytes[3],
        bytes[4],
        bytes[5],
        bytes[6],
        bytes[7],
    );
    lemma_sixteen_bytes(
        0,
        bytes[8],
        bytes[9],
        bytes[10],
        bytes[11],
        bytes[12],
        bytes[13],
        bytes[14],
        bytes[15],
        bytes[16],
        bytes[17],
        bytes[18],
        bytes[19],
        bytes[20],
        bytes[21],
        bytes[22],
        bytes[23],
    );
    lemma_two_bytes(0, bytes[26], bytes[27], 0);
    lemma_two_bytes(number_at(bytes, 28, 2) as u16, bytes[28], bytes[29], 0);
    assert forall|i: int| 0 <= i < 32 implies bytes_spec(p)[i] == bytes[i] by {}
    assert(bytes_spec(p) =~= bytes);
}

/// One of the four castling rights names `sq`.
pub open spec fn listed(castling: [[u8; 2]; 2], sq: u8) -> bool {
    castling[0][0] == sq || castling[0][1] == sq || castling[1][0] == sq || castling[1][1] == sq
}

/// A record that packing gives back as it is: it can be unpacked, the
/// nibbles beyond its pieces are zero, and every unmoved rook that it names
/// has its right in the position, which is so unless two unmoved rooks of
/// one color stand on the same side of their king.
pub open spec fn canonical(p: PackedBoard) -> bool {
    let s = squares(p.occupied);
    &&& unpacked(p).is_some()
    &&& s.len() < 32 ==> p.pieces >> ((4 * s.len()) as u128) == 0
    &&& forall|i: int|
        0 <= i < s.len() && #[trigger] nibble_at(p.pieces, i) % 8 == 6 ==> listed(
            unpacked(p).unwrap().0.castling,
            s[i],
        )
}

/// The color that a nibble names.
pub open spec fn nibble_color(n: u8) -> int {
    if n >= 8 {
        1
    } else {
        0
    }
}

/// The board of kinds on which a nibble puts its piece.
pub open spec fn nibble_kind(n: u8) -> int {
    if n % 8 == 6 {
        3
    } else {
        (n % 8) as int
    }
}

/// Square `k` shows the piece that nibble `n` names, and nothing else.
pub open spec fn shows(acc: Unpacked, k: u8, n: u8) -> bool {
    &&& forall|t: int| 0 <= t < 6 ==> holds(#[trigger] acc.pieces[t], k) == (t == nibble_kind(n))
    &&& holds(acc.colors[0], k) == (nibble_color(n) == 0)
    &&& holds(acc.colors[1], k) == (nibble_color(n) == 1)
}

/// Nothing stands on square `k`.
pub open spec fn blank(acc: Unpacked, k: u8) -> bool {
    &&& forall|t: int| 0 <= t < 6 ==> !holds(#[trigger] acc.pieces[t], k)
    &&& !holds(acc.colors[0], k)
    &&& !holds(acc.colors[1], k)
}

/// A right of `acc` names nothing, or one of the first `i` squares of `s`,
/// on which an unmoved rook stands.
pub open spec fn right_read(acc: Unpacked, pieces: u128, s: Seq<u8>, i: int, e: u8) -> bool {
    e == NO_SQUARE || exists|j: int| 0 <= j < i && s[j] == e && #[trigger] nibble_at(pieces, j) % 8 == 6
}

/// What holds once the first `i` nibbles are read: the squares read show
/// their pieces, the others are blank, and every right names a square read.
pub open spec fn read_so_far(acc: Unpacked, pieces: u128, s: Seq<u8>, i: int) -> bool {
    &&& forall|j: int| 0 <= j < i ==> shows(acc, #[trigger] s[j], nibble_at(pieces, j))
    &&& forall|k: u8| k < 64 && !s.take(i).contains(k) ==> #[trigger] blank(acc, k)
    &&& right_read(acc, pieces, s, i, acc.castling[0][0])
    &&& right_read(acc, pieces, s, i, acc.castling[0][1])
    &&& right_read(acc, pieces, s, i, acc.castling[1][0])
    &&& right_read(acc, pieces, s, i, acc.castling[1][1])
}

/// A nibble is below 16.
proof fn lemma_nibble_small(pieces: u128, i: int)
    requires
        0 <= i < 32,
    ensures
        nibble_at(pieces, i) < 16,
{
    let sh: u128 = (4 * i) as u128;
    assert((((pieces >> sh) & 15) as u8) < 16) by (bit_vector);
}

/// Reading one more nibble keeps what holds of the nibbles read.
proof fn lemma_read_one(acc: Unpacked, pieces: u128, s: Seq<u8>, i: int)
    requires
        0 <= i < s.len(),
        i < 32,
        forall|a: int, b: int| 0 <= a < b < s.len() ==> s[a] < s[b],
        forall|a: int| 0 <= a < s.len() ==> s[a] < 64,
        read_so_far(acc, pieces, s, i),
        unpack_one(acc, nibble_at(pieces, i), s[i]).is_some(),
    ensures
        read_so_far(unpack_one(acc, nibble_at(pieces, i), s[i]).unwrap(), pieces, s, i + 1),
{
    let n = nibble_at(pieces, i);
    let sq = s[i];
    let next = unpack_one(acc, n, sq).unwrap();
    lemma_nibble_small(pieces, i);
    assert(!s.take(i).contains(sq)) by {
        if s.take(i).contains(sq) {
            let j = choose|j: int| 0 <= j < i && s.take(i)[j] == sq;
            assert(s[j] < s[i]);
        }
    }
    assert(blank(acc, sq));
    let kind = nibble_kind(n);
    assert forall|j: int| 0 <= j < i + 1 implies shows(next, #[trigger] s[j], nibble_at(pieces, j)) by {
        let k = s[j];
        lemma_xor_piece_all(acc.pieces, kind, bit(sq), k);
        lemma_toggle(acc.colors[0], sq, k);
        lemma_toggle(acc.colors[1], sq, k);
        crate::bitboard::lemma_holds_bit(sq, k);
        if j < i {
            assert(s[j] < s[i]);
            assert(shows(acc, s[j], nibble_at(pieces, j)));
        }
    }
    assert forall|k: u8| k < 64 && !s.take(i + 1).contains(k) implies #[trigger] blank(next, k) by {
        assert(s.take(i + 1)[i] == sq);
        assert(k != sq);
        assert(!s.take(i).contains(k)) by {
            if s.take(i).contains(k) {
                let j = choose|j: int| 0 <= j < i && s.take(i)[j] == k;
                assert(s.take(i + 1)[j] == k);
            }
        }
        assert(blank(acc, k));
        lemma_xor_piece_all(acc.pieces, kind, bit(sq), k);
        lemma_toggle(acc.colors[0], sq, k);
        lemma_toggle(acc.colors[1], sq, k);
        crate::bitboard::lemma_holds_bit(sq, k);
    }
    assert forall|e: u8| right_read(acc, pieces, s, i, e) implies right_read(next, pieces, s, i + 1, e) by {
        if e != NO_SQUARE {
            let j = choose|j: int| 0 <= j < i && s[j] == e && nibble_at(pieces, j) % 8 == 6;
            assert(0 <= j < i + 1 && s[j] == e && nibble_at(pieces, j) % 8 == 6);
        }
    }
    if n % 8 == 6 {
        assert(0 <= i < i + 1 && s[i] == sq && nibble_at(pieces, i) % 8 == 6);
        assert(right_read(next, pieces, s, i + 1, sq));
    }
}

/// What holds of the nibbles read holds of all once all are read.
proof fn lemma_read_all(acc: Unpacked, pieces: u128, s: Seq<u8>, i: int)
    requires
        0 <= i <= s.len(),
        i <= 32,
        forall|a: int, b: int| 0 <= a < b < s.len() ==> s[a] < s[b],
        forall|a: int| 0 <= a < s.len() ==> s[a] < 64,
        read_so_far(acc, pieces, s, i),
        unpack_from(pieces, s.skip(i), i, acc).is_some(),
    ensures
        read_so_far(unpack_from(pieces, s.skip(i), i, acc).unwrap(), pieces, s, s.len() as int),
        s.len() <= 32,
    decreases s.len() - i,
{
    if i < s.len() {
        assert(s.skip(i)[0] == s[i]);
        assert(s.skip(i).drop_first() =~= s.skip(i + 1));
        lemma_read_one(acc, pieces, s, i);
        let next = unpack_one(acc, nibble_at(pieces, i), s[i]).unwrap();
        lemma_read_all(next, pieces, s, i + 1);
    } else {
        assert(s.skip(i).len() == 0);
    }
}

/// The nibbles of a number below place `i`.
pub open spec fn low_nibbles(x: u128, i: int) -> u128 {
    if i >= 32 {
        x
    } else {
        x & (((1u128 << ((4 * i) as u128)) - 1) as u128)
    }
}

/// One more nibble joined to the nibbles below it.
proof fn lemma_join_nibble(x: u128, i: int, acc: u128, n: u8)
    requires
        0 <= i < 32,
        acc == low_nibbles(x, i),
        n == nibble_at(x, i),
    ensures
        acc | ((n as u128) << ((4 * i) as u128)) == low_nibbles(x, i + 1),
        x >> ((4 * i) as u128) == 0 ==> low_nibbles(x, i) == x,
{
    let sh: u128 = (4 * i) as u128;
    let sh1: u128 = (4 * (i + 1)) as u128;
    assert({
        &&& sh < 124 ==> acc | ((n as u128) << sh) == x & (((1u128 << sh1) - 1) as u128)
        &&& sh == 124 ==> acc | ((n as u128) << sh) == x
        &&& x >> sh == 0 ==> x & (((1u128 << sh) - 1) as u128) == x
    }) by (bit_vector)
        requires
            sh <= 124,
            sh1 == sh + 4,
            acc == x & (((1u128 << sh) - 1) as u128),
            n == ((x >> sh) & 15) as u8,
    ;
}

/// Below place 0 there are no nibbles.
proof fn lemma_no_nibbles(x: u128)
    ensures
        low_nibbles(x, 0) == 0,
{
    assert(x & (((1u128 << 0u128) - 1) as u128) == 0) by (bit_vector);
}

/// Packing the squares from place `i` on, where the nibbles below are
/// those of `x` and every piece has the nibble that `x` has at its place,
/// gives `x`, if `x` has nothing beyond its pieces.
proof fn lemma_pack_all(pos: Position, x: u128, s: Seq<u8>, i: int, acc: u128)
    requires
        0 <= i <= s.len() <= 32,
        acc == low_nibbles(x, i),
        forall|j: int| 0 <= j < s.len() ==> nibble_of(pos, #[trigger] s[j]) == nibble_at(x, j),
        s.len() < 32 ==> x >> ((4 * s.len()) as u128) == 0,
    ensures
        pack_from(pos, s.skip(i), i, acc) == x,
    decreases s.len() - i,
{
    if i < s.len() {
        assert(s.skip(i)[0] == s[i]);
        assert(s.skip(i).drop_first() =~= s.skip(i + 1));
        lemma_join_nibble(x, i, acc, nibble_at(x, i));
        lemma_pack_all(pos, x, s, i + 1, acc | ((nibble_of(pos, s[i]) as u128) << ((4 * i) as u128)));
    } else {
        assert(s.skip(i).len() == 0);
        if i < 32 {
            lemma_join_nibble(x, i, acc, nibble_at(x, i));
        }
    }
}

/// The byte of side and en-passant target is put together as it was taken apart.
proof fn lemma_stm_ep(x: u8)
    ensures
        (if x & 0x80 != 0 { 128int } else { 0int }) + (x & 0x7f) % 128 == x,
{
    assert((if x & 0x80 != 0 { 128int } else { 0int }) + (x & 0x7f) % 128 == x) by (bit_vector);
}

/// What the nibbles of a record that can be unpacked say of the position
/// that it unpacks to.
proof fn lemma_unpacked_read(p: PackedBoard)
    requires
        unpacked(p).is_some(),
    ensures
        read_so_far(
            unpack_from(p.pieces, squares(p.occupied), 0, nothing_unpacked()).unwrap(),
            p.pieces,
            squares(p.occupied),
            squares(p.occupied).len() as int,
        ),
        squares(p.occupied).len() <= 32,
{
    let s = squares(p.occupied);
    let start = nothing_unpacked();
    lemma_squares_ascend(p.occupied, 64);
    assert(s.skip(0) =~= s);
    assert forall|k: u8| k < 64 implies #[trigger] blank(start, k) by {
        lemma_holds_ops(0, 0, k);
    }
    assert(s.take(0) =~= Seq::<u8>::empty());
    lemma_read_all(start, p.pieces, s, 0);
}

/// The position that a record unpacks to has the pieces of the record on
/// the squares of the record.
proof fn lemma_unpacked_occupied(p: PackedBoard)
    requires
        unpacked(p).is_some(),
    ensures
        unpacked(p).unwrap().0.occupied() == p.occupied,
{
    let s = squares(p.occupied);
    let n = s.len() as int;
    let u = unpack_from(p.pieces, s, 0, nothing_unpacked()).unwrap();
    let pos = unpacked(p).unwrap().0;
    lemma_unpacked_read(p);
    lemma_squares_below_members(p.occupied, 64);
    assert(s.take(n) =~= s);
    assert forall|k: u8| k < 64 implies holds(pos.occupied(), k) == holds(p.occupied, k) by {
        lemma_holds_ops(pos.colors[0], pos.colors[1], k);
        if s.contains(k) {
            let j = choose|j: int| 0 <= j < n && s[j] == k;
            assert(shows(u, s[j], nibble_at(p.pieces, j)));
        } else {
            assert(blank(u, k));
        }
    }
    lemma_board_ext(pos.occupied(), p.occupied);
}

/// Each piece of the position that a canonical record unpacks to has the
/// nibble that the record has at its place.
proof fn lemma_unpacked_nibble(p: PackedBoard, j: int)
    requires
        canonical(p),
        0 <= j < squares(p.occupied).len(),
    ensures
        nibble_of(unpacked(p).unwrap().0, squares(p.occupied)[j]) == nibble_at(p.pieces, j),
{
    let s = squares(p.occupied);
    let n = s.len() as int;
    let u = unpack_from(p.pieces, s, 0, nothing_unpacked()).unwrap();
    let pos = unpacked(p).unwrap().0;
    lemma_unpacked_read(p);
    lemma_squares_ascend(p.occupied, 64);
    let nb = nibble_at(p.pieces, j);
    lemma_nibble_small(p.pieces, j);
    assert(shows(u, s[j], nb));
    assert(s.skip(0) =~= s);
    lemma_kinds_exist(p.pieces, s, 0, nothing_unpacked(), j);
    if listed(pos.castling, s[j]) {
        assert(right_read(u, p.pieces, s, n, s[j]));
        let e = choose|e: int| 0 <= e < n && s[e] == s[j] && nibble_at(p.pieces, e) % 8 == 6;
        if e < j {
            assert(s[e] < s[j]);
        }
        if j < e {
            assert(s[j] < s[e]);
        }
    }
    assert(listed(pos.castling, s[j]) == (nb % 8 == 6));
    let kind = nibble_kind(nb);
    assert(holds(pos.pieces[kind], s[j]));
    assert(forall|t: int| 0 <= t < 6 ==> holds(#[trigger] pos.pieces[t], s[j]) == (t == kind));
    assert(kind_on(pos.pieces, s[j]).idx() == kind);
}

/// Packing what a record unpacks to gives the record back, for every
/// record that is canonical.
pub proof fn lemma_pack_unpacked(p: PackedBoard)
    requires
        canonical(p),
    ensures
        packed(
            unpacked(p).unwrap().0,
            unpacked(p).unwrap().1,
            unpacked(p).unwrap().2 as i32,
            unpacked(p).unwrap().3,
            unpacked(p).unwrap().4,
        ) == p,
{
    let s = squares(p.occupied);
    let pos = unpacked(p).unwrap().0;
    lemma_unpacked_read(p);
    lemma_unpacked_occupied(p);
    assert forall|j: int| 0 <= j < s.len() implies nibble_of(pos, #[trigger] s[j]) == nibble_at(
        p.pieces,
        j,
    ) by {
        lemma_unpacked_nibble(p, j);
    }
    lemma_no_nibbles(p.pieces);
    assert(s.skip(0) =~= s);
    lemma_pack_all(pos, p.pieces, s, 0, 0);
    lemma_stm_ep(p.stm_ep);
}

/// The 32 bytes of a canonical record, read as a record, unpacked, packed
/// again and written as bytes, are the 32 bytes.
pub proof fn lemma_bytes_round_trip(bytes: Seq<u8>)
    requires
        bytes.len() == 32,
        canonical(record_spec(bytes)),
    ensures
        bytes_spec(
            packed(
                unpacked(record_spec(bytes)).unwrap().0,
                unpacked(record_spec(bytes)).unwrap().1,
                unpacked(record_spec(bytes)).unwrap().2 as i32,
                unpacked(record_spec(bytes)).unwrap().3,
                unpacked(record_spec(bytes)).unwrap().4,
            ),
        ) == bytes,
{
    lemma_pack_unpacked(record_spec(bytes));
    lemma_bytes_of_record(bytes);
}

/// No nibble that was read names a kind that does not exist.
proof fn lemma_kinds_exist(pieces: u128, s: Seq<u8>, i: int, acc: Unpacked, j: int)
    requires
        0 <= i <= j < s.len(),
        unpack_from(pieces, s.skip(i), i, acc).is_some(),
    ensures
        nibble_at(pieces, j) % 8 != 7,
    decreases s.len() - i,
{
    assert(s.skip(i)[0] == s[i]);
    assert(s.skip(i).drop_first() =~= s.skip(i + 1));
    if i < j {
        lemma_kinds_exist(pieces, s, i + 1, unpack_one(acc, nibble_at(pieces, i), s[i]).unwrap(), j);
    }
}

} // verus!
