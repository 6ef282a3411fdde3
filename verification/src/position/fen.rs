//! Reading a position from Forsyth-Edwards notation.
use vstd::prelude::*;
use vstd::string::StringSliceAdditionalSpecFns;
use crate::bitboard::{bit, holds, is_set, square_bit};
use crate::position::{toggle_piece, xor_piece, Piece, PieceColor, PieceType, Position, NO_SQUARE};

verus! {

/// Why a text is not taken as a position.
#[derive(Debug, Clone, Copy, PartialEq, Eq, Structural)]
pub enum FenError {
    /// Fewer than four fields.
    TooFewFields,
    /// The board field has a character that is no piece, digit or slash; or
    /// the castling field one that is none of `KQkq-`.
    UnknownCharacter,
    /// The board field does not describe eight ranks of eight files.
    BadBoard,
    /// The side field is neither `w` nor `b`.
    BadSide,
    /// The en-passant field is neither `-` nor a square of the third or the
    /// sixth rank.
    BadEnPassant,
    /// The halfmove field is not a number below 256.
    BadClock,
}

/// The fields of `bytes` from index `i` on, as pairs of a first index and
/// an end, where the field that is being read began at `start`. Fields are
/// separated by single spaces.
pub open spec fn fields_from(bytes: Seq<u8>, i: int, start: int) -> Seq<(int, int)>
    decreases bytes.len() - i,
{
    if i >= bytes.len() {
        seq![(start, bytes.len() as int)]
    } else if bytes[i] == 32 {
        seq![(start, i)] + fields_from(bytes, i + 1, i + 1)
    } else {
        fields_from(bytes, i + 1, start)
    }
}

/// The fields of `bytes`.
pub open spec fn fields(bytes: Seq<u8>) -> Seq<(int, int)> {
    fields_from(bytes, 0, 0)
}

/// The piece that a letter of the board field stands for.
pub open spec fn piece_of(c: u8) -> Option<Piece> {
    if c == 80 {
        Some(Piece { color: PieceColor::White, ty: PieceType::Pawn })
    } else if c == 78 {
        Some(Piece { color: PieceColor::White, ty: PieceType::Knight })
    } else if c == 66 {
        Some(Piece { color: PieceColor::White, ty: PieceType::Bishop })
    } else if c == 82 {
        Some(Piece { color: PieceColor::White, ty: PieceType::Rook })
    } else if c == 81 {
        Some(Piece { color: PieceColor::White, ty: PieceType::Queen })
    } else if c == 75 {
        Some(Piece { color: PieceColor::White, ty: PieceType::King })
    } else if c == 112 {
        Some(Piece { color: PieceColor::Black, ty: PieceType::Pawn })
    } else if c == 110 {
        Some(Piece { color: PieceColor::Black, ty: PieceType::Knight })
    } else if c == 98 {
        Some(Piece { color: PieceColor::Black, ty: PieceType::Bishop })
    } else if c == 114 {
        Some(Piece { color: PieceColor::Black, ty: PieceType::Rook })
    } else if c == 113 {
        Some(Piece { color: PieceColor::Black, ty: PieceType::Queen })
    } else if c == 107 {
        Some(Piece { color: PieceColor::Black, ty: PieceType::King })
    } else {
        None
    }
}

/// The boards of kinds and of colors while the board field is read.
pub struct Boards {
    pub pieces: [u64; 6],
    pub colors: [u64; 2],
}

/// The boards with `piece` put on `sq`.
pub open spec fn put(b: Boards, piece: Piece, sq: u8) -> Boards {
    Boards {
        pieces: xor_piece(b.pieces, piece.ty.idx(), bit(sq)),
        colors: match piece.color {
            PieceColor::White => [b.colors[0] ^ bit(sq), b.colors[1]],
            PieceColor::Black => [b.colors[0], b.colors[1] ^ bit(sq)],
        },
    }
}

/// Reads the board field from index `i` to `end`, where `rank` and `file`
/// say where the next piece goes and `acc` holds the pieces read so far. The
/// field lists the ranks from the eighth down, separated by `/`; in a rank a
/// letter is a piece and a digit from 1 to 8 that many empty squares; each
/// rank has eight files.
pub open spec fn board_from(bytes: Seq<u8>, i: int, end: int, rank: int, file: int, acc: Boards) -> Result<
    Boards,
    FenError,
>
    decreases end - i,
{
    if i >= end {
        if rank == 0 && file == 8 {
            Ok(acc)
        } else {
            Err(FenError::BadBoard)
        }
    } else {
        let c = bytes[i];
        if 49 <= c <= 56 {
            if file + (c - 48) <= 8 {
                board_from(bytes, i + 1, end, rank, file + (c - 48), acc)
            } else {
                Err(FenError::BadBoard)
            }
        } else if c == 47 {
            if file == 8 && rank > 0 {
                board_from(bytes, i + 1, end, rank - 1, 0, acc)
            } else {
                Err(FenError::BadBoard)
            }
        } else if piece_of(c).is_some() {
            if file < 8 {
                board_from(
                    bytes,
                    i + 1,
                    end,
                    rank,
                    file + 1,
                    put(acc, piece_of(c).unwrap(), (rank * 8 + file) as u8),
                )
            } else {
                Err(FenError::BadBoard)
            }
        } else {
            Err(FenError::UnknownCharacter)
        }
    }
}

/// No pieces.
pub open spec fn no_boards() -> Boards {
    Boards { pieces: [0u64, 0u64, 0u64, 0u64, 0u64, 0u64], colors: [0u64, 0u64] }
}

/// The rights that the castling field from index `i` to `end` adds to
/// `acc`: `Q` and `K` name White's rooks on a1 and h1, `q` and `k` Black's on
/// a8 and h8; `-` names none.
pub open spec fn rights_from(bytes: Seq<u8>, i: int, end: int, acc: [[u8; 2]; 2]) -> Result<
    [[u8; 2]; 2],
    FenError,
>
    decreases end - i,
{
    if i >= end {
        Ok(acc)
    } else {
        let c = bytes[i];
        if c == 81 {
            rights_from(bytes, i + 1, end, [[0u8, acc[0][1]], acc[1]])
        } else if c == 75 {
            rights_from(bytes, i + 1, end, [[acc[0][0], 7u8], acc[1]])
        } else if c == 113 {
            rights_from(bytes, i + 1, end, [acc[0], [56u8, acc[1][1]]])
        } else if c == 107 {
            rights_from(bytes, i + 1, end, [acc[0], [acc[1][0], 63u8]])
        } else if c == 45 {
            rights_from(bytes, i + 1, end, acc)
        } else {
            Err(FenError::UnknownCharacter)
        }
    }
}

/// The en-passant target that the field from `lo` to `hi` names.
pub open spec fn ep_of(bytes: Seq<u8>, lo: int, hi: int) -> Result<u8, FenError> {
    if hi - lo == 1 && bytes[lo] == 45 {
        Ok(NO_SQUARE)
    } else if hi - lo == 2 && 97 <= bytes[lo] <= 104 && (bytes[lo + 1] == 51 || bytes[lo + 1] == 54) {
        Ok(((bytes[lo] - 97) + 8 * (bytes[lo + 1] - 49)) as u8)
    } else {
        Err(FenError::BadEnPassant)
    }
}

/// The number that the digits from index `i` to `end` add to `acc`.
pub open spec fn clock_from(bytes: Seq<u8>, i: int, end: int, acc: int) -> Result<u8, FenError>
    decreases end - i,
{
    if i >= end {
        Ok(acc as u8)
    } else if 48 <= bytes[i] <= 57 && acc * 10 + (bytes[i] - 48) <= 255 {
        clock_from(bytes, i + 1, end, acc * 10 + (bytes[i] - 48))
    } else {
        Err(FenError::BadClock)
    }
}

/// The halfmove clock that the field from `lo` to `hi` names.
pub open spec fn clock_of(bytes: Seq<u8>, lo: int, hi: int) -> Result<u8, FenError> {
    if lo >= hi {
        Err(FenError::BadClock)
    } else {
        clock_from(bytes, lo, hi, 0)
    }
}

/// The position that a text in Forsyth-Edwards notation describes: the
/// board, the side to move, the castling rights, the en-passant target and,
/// where there is a fifth field, the halfmove clock. A sixth field is not
/// read. The first field that is not in order gives the error.
pub open spec fn parse_fen(bytes: Seq<u8>) -> Result<Position, FenError> {
    let parts = fields(bytes);
    if parts.len() < 4 {
        Err(FenError::TooFewFields)
    } else {
        let board = board_from(bytes, parts[0].0, parts[0].1, 7, 0, no_boards());
        let side_ok = parts[1].1 - parts[1].0 == 1 && (bytes[parts[1].0] == 119 || bytes[parts[1].0]
            == 98);
        let rights = rights_from(
            bytes,
            parts[2].0,
            parts[2].1,
            [[NO_SQUARE, NO_SQUARE], [NO_SQUARE, NO_SQUARE]],
        );
        let ep = ep_of(bytes, parts[3].0, parts[3].1);
        let clock = if parts.len() >= 5 {
            clock_of(bytes, parts[4].0, parts[4].1)
        } else {
            Ok(0u8)
        };
        match board {
            Err(e) => Err(e),
            Ok(b) => if !side_ok {
                Err(FenError::BadSide)
            } else {
                match rights {
                    Err(e) => Err(e),
                    Ok(castling) => match ep {
                        Err(e) => Err(e),
                        Ok(en_passant) => match clock {
                            Err(e) => Err(e),
                            Ok(halfmove) => Ok(
                                Position {
                                    pieces: b.pieces,
                                    colors: b.colors,
                                    castling,
                                    en_passant,
                                    halfmove,
                                    side: if bytes[parts[1].0] == 98 {
                                        PieceColor::Black
                                    } else {
                                        PieceColor::White
                                    },
                                },
                            ),
                        },
                    },
                }
            },
        }
    }
}

/// Splits a text into its fields.
fn split_fields(bytes: &[u8]) -> (parts: Vec<(usize, usize)>)
    ensures
        parts@.len() == fields(bytes@).len(),
        forall|k: int|
            0 <= k < parts@.len() ==> (#[trigger] parts@[k]).0 == fields(bytes@)[k].0 && parts@[k].1
                == fields(bytes@)[k].1 && parts@[k].0 <= parts@[k].1 <= bytes@.len(),
{
    let mut parts: Vec<(usize, usize)> = Vec::new();
    let mut start: usize = 0;
    let mut i: usize = 0;
    let ghost mut done: Seq<(int, int)> = Seq::empty();
    while i < bytes.len()
        invariant
            start <= i <= bytes@.len(),
            done.len() == parts@.len(),
            forall|k: int|
                0 <= k < parts@.len() ==> (#[trigger] parts@[k]).0 == done[k].0 && parts@[k].1 == done[k].1
                    && parts@[k].0 <= parts@[k].1 <= bytes@.len(),
            done + fields_from(bytes@, i as int, start as int) == fields(bytes@),
        decreases bytes@.len() - i,
    {
        if bytes[i] == 32 {
            proof {
                assert(done.push((start as int, i as int)) + fields_from(bytes@, i + 1, i + 1) =~= done
                    + fields_from(bytes@, i as int, start as int));
                done = done.push((start as int, i as int));
            }
            parts.push((start, i));
            start = i + 1;
        }
        i = i + 1;
    }
    proof {
        assert(done.push((start as int, bytes@.len() as int)) =~= done + fields_from(
            bytes@,
            i as int,
            start as int,
        ));
        done = done.push((start as int, bytes@.len() as int));
    }
    parts.push((start, bytes.len()));
    parts
}

/// The piece that a letter of the board field stands for.
fn piece_letter(c: u8) -> (r: Option<Piece>)
    ensures
        r == piece_of(c),
{
    let color = if c >= 97 {
        PieceColor::Black
    } else {
        PieceColor::White
    };
    if c == 80 || c == 112 {
        Some(Piece { color, ty: PieceType::Pawn })
    } else if c == 78 || c == 110 {
        Some(Piece { color, ty: PieceType::Knight })
    } else if c == 66 || c == 98 {
        Some(Piece { color, ty: PieceType::Bishop })
    } else if c == 82 || c == 114 {
        Some(Piece { color, ty: PieceType::Rook })
    } else if c == 81 || c == 113 {
        Some(Piece { color, ty: PieceType::Queen })
    } else if c == 75 || c == 107 {
        Some(Piece { color, ty: PieceType::King })
    } else {
        None
    }
}

fn read_board(bytes: &[u8], lo: usize, hi: usize) -> (r: Result<Boards, FenError>)
    requires
        lo <= hi <= bytes@.len(),
    ensures
        r == board_from(bytes@, lo as int, hi as int, 7, 0, no_boards()),
{
    let mut acc = Boards { pieces: [0, 0, 0, 0, 0, 0], colors: [0, 0] };
    assert(acc.pieces =~= no_boards().pieces && acc.colors =~= no_boards().colors);
    let mut rank: u8 = 7;
    let mut file: u8 = 0;
    let mut i: usize = lo;
    while i < hi
        invariant
            lo <= i <= hi <= bytes@.len(),
            rank <= 7,
            file <= 8,
            board_from(bytes@, i as int, hi as int, rank as int, file as int, acc) == board_from(
                bytes@,
                lo as int,
                hi as int,
                7,
                0,
                no_boards(),
            ),
        decreases hi - i,
    {
        let c: u8 = bytes[i];
        if 49 <= c && c <= 56 {
            if file + (c - 48) <= 8 {
                file = file + (c - 48);
            } else {
                return Err(FenError::BadBoard);
            }
        } else if c == 47 {
            if file == 8 && rank > 0 {
                rank = rank - 1;
                file = 0;
            } else {
                return Err(FenError::BadBoard);
            }
        } else {
            match piece_letter(c) {
                Some(piece) => {
                    if file < 8 {
                        let sq: u8 = rank * 8 + file;
                        let b: u64 = square_bit(sq);
                        let pieces: [u64; 6] = toggle_piece(acc.pieces, piece.ty.index(), b);
                        let colors: [u64; 2] = match piece.color {
                            PieceColor::White => [acc.colors[0] ^ b, acc.colors[1]],
                            PieceColor::Black => [acc.colors[0], acc.colors[1] ^ b],
                        };
                        acc = Boards { pieces, colors };
                        file = file + 1;
                    } else {
                        return Err(FenError::BadBoard);
                    }
                },
                None => {
                    return Err(FenError::UnknownCharacter);
                },
            }
        }
        i = i + 1;
    }
    if rank == 0 && file == 8 {
        Ok(acc)
    } else {
        Err(FenError::BadBoard)
    }
}

fn read_rights(bytes: &[u8], lo: usize, hi: usize) -> (r: Result<[[u8; 2]; 2], FenError>)
    requires
        lo <= hi <= bytes@.len(),
    ensures
        r == rights_from(
            bytes@,
            lo as int,
            hi as int,
            [[NO_SQUARE, NO_SQUARE], [NO_SQUARE, NO_SQUARE]],
        ),
{
    let mut acc: [[u8; 2]; 2] = [[NO_SQUARE, NO_SQUARE], [NO_SQUARE, NO_SQUARE]];
    let mut i: usize = lo;
    while i < hi
        invariant
            lo <= i <= hi <= bytes@.len(),
            rights_from(bytes@, i as int, hi as int, acc) == rights_from(
                bytes@,
                lo as int,
                hi as int,
                [[NO_SQUARE, NO_SQUARE], [NO_SQUARE, NO_SQUARE]],
            ),
        decreases hi - i,
    {
        let c: u8 = bytes[i];
        if c == 81 {
            acc = [[0, acc[0][1]], acc[1]];
        } else if c == 75 {
            acc = [[acc[0][0], 7], acc[1]];
        } else if c == 113 {
            acc = [acc[0], [56, acc[1][1]]];
        } else if c == 107 {
            acc = [acc[0], [acc[1][0], 63]];
        } else if c == 45 {
        } else {
            return Err(FenError::UnknownCharacter);
        }
        i = i + 1;
    }
    Ok(acc)
}

fn read_ep(bytes: &[u8], lo: usize, hi: usize) -> (r: Result<u8, FenError>)
    requires
        lo <= hi <= bytes@.len(),
    ensures
        r == ep_of(bytes@, lo as int, hi as int),
{
    if hi - lo == 1 && bytes[lo] == 45 {
        Ok(NO_SQUARE)
    } else if hi - lo == 2 && 97 <= bytes[lo] && bytes[lo] <= 104 && (bytes[lo + 1] == 51 || bytes[lo
        + 1] == 54) {
        Ok((bytes[lo] - 97) + 8 * (bytes[lo + 1] - 49))
    } else {
        Err(FenError::BadEnPassant)
    }
}

fn read_clock(bytes: &[u8], lo: usize, hi: usize) -> (r: Result<u8, FenError>)
    requires
        lo <= hi <= bytes@.len(),
    ensures
        r == clock_of(bytes@, lo as int, hi as int),
{
    if lo >= hi {
        return Err(FenError::BadClock);
    }
    let mut acc: u16 = 0;
    let mut i: usize = lo;
    while i < hi
        invariant
            lo <= i <= hi <= bytes@.len(),
            acc <= 255,
            clock_from(bytes@, i as int, hi as int, acc as int) == clock_from(
                bytes@,
                lo as int,
                hi as int,
                0,
            ),
        decreases hi - i,
    {
        let c: u8 = bytes[i];
        if 48 <= c && c <= 57 && acc * 10 + (c - 48) as u16 <= 255 {
            acc = acc * 10 + (c - 48) as u16;
        } else {
            return Err(FenError::BadClock);
        }
        i = i + 1;
    }
    Ok(acc as u8)
}

impl Position {
    /// Reads a position from Forsyth-Edwards notation.
    pub fn from_fen(s: &str) -> (r: Result<Position, FenError>)
        ensures
            r == parse_fen(s.spec_bytes()),
    {
        let bytes: &[u8] = s.as_bytes();
        let parts = split_fields(bytes);
        if parts.len() < 4 {
            return Err(FenError::TooFewFields);
        }
        let board = read_board(bytes, parts[0].0, parts[0].1);
        let side_ok: bool = parts[1].1 - parts[1].0 == 1 && (bytes[parts[1].0] == 119 || bytes[parts[1].0]
            == 98);
        let rights = read_rights(bytes, parts[2].0, parts[2].1);
        let ep = read_ep(bytes, parts[3].0, parts[3].1);
        let clock = if parts.len() >= 5 {
            read_clock(bytes, parts[4].0, parts[4].1)
        } else {
            Ok(0u8)
        };
        match board {
            Err(e) => Err(e),
            Ok(b) => {
                if !side_ok {
                    Err(FenError::BadSide)
                } else {
                    match rights {
                        Err(e) => Err(e),
                        Ok(castling) => match ep {
                            Err(e) => Err(e),
                            Ok(en_passant) => match clock {
                                Err(e) => Err(e),
                                Ok(halfmove) => Ok(
                                    Position {
                                        pieces: b.pieces,
                                        colors: b.colors,
                                        castling,
                                        en_passant,
                                        halfmove,
                                        side: if bytes[parts[1].0] == 98 {
                                            PieceColor::Black
                                        } else {
                                            PieceColor::White
                                        },
                                    },
                                ),
                            },
                        },
                    }
                }
            },
        }
    }
}

/// The letter of a piece in the board field.
pub open spec fn letter_of(piece: Piece) -> u8 {
    let upper: u8 = match piece.ty {
        PieceType::Pawn => 80,
        PieceType::Knight => 78,
        PieceType::Bishop => 66,
        PieceType::Rook => 82,
        PieceType::Queen => 81,
        _ => 75,
    };
    match piece.color {
        PieceColor::White => upper,
        PieceColor::Black => (upper + 32) as u8,
    }
}

/// The digit of a run of empty squares, or nothing for no run.
pub open spec fn run_text(run: int) -> Seq<u8> {
    if run > 0 {
        seq![(48 + run) as u8]
    } else {
        Seq::empty()
    }
}

/// The text of the squares of `rank` from `file` on, after a run of `run`
/// empty squares: a letter for each piece, a digit for each longest run of
/// empty squares.
pub open spec fn cells(pos: Position, rank: int, file: int, run: int) -> Seq<u8>
    decreases 8 - file,
{
    if file >= 8 {
        run_text(run)
    } else if pos.vacant((rank * 8 + file) as u8) {
        cells(pos, rank, file + 1, run + 1)
    } else {
        run_text(run) + seq![letter_of(pos.piece_on((rank * 8 + file) as u8))] + cells(
            pos,
            rank,
            file + 1,
            0,
        )
    }
}

/// The text of the ranks from `rank` down to the first, separated by `/`.
pub open spec fn ranks(pos: Position, rank: int) -> Seq<u8>
    decreases rank,
{
    if rank <= 0 {
        cells(pos, 0, 0, 0)
    } else {
        cells(pos, rank, 0, 0) + seq![47u8] + ranks(pos, rank - 1)
    }
}

/// The letters of the rights that are left, White's first and the kingside
/// first; `-` for none.
pub open spec fn rights_text(castling: [[u8; 2]; 2]) -> Seq<u8> {
    let text = (if castling[0][1] != NO_SQUARE { seq![75u8] } else { Seq::empty() }) + (if castling[0][0]
        != NO_SQUARE { seq![81u8] } else { Seq::empty() }) + (if castling[1][1] != NO_SQUARE {
        seq![107u8]
    } else {
        Seq::empty()
    }) + (if castling[1][0] != NO_SQUARE { seq![113u8] } else { Seq::empty() });
    if text.len() == 0 {
        seq![45u8]
    } else {
        text
    }
}

/// The name of the en-passant target; `-` for none.
pub open spec fn ep_text(en_passant: u8) -> Seq<u8> {
    if en_passant >= 64 {
        seq![45u8]
    } else {
        seq![(97 + en_passant % 8) as u8, (49 + en_passant / 8) as u8]
    }
}

/// A number below 256 in decimal digits.
pub open spec fn clock_text(n: u8) -> Seq<u8> {
    if n >= 100 {
        seq![(48 + n / 100) as u8, (48 + (n / 10) % 10) as u8, (48 + n % 10) as u8]
    } else if n >= 10 {
        seq![(48 + n / 10) as u8, (48 + n % 10) as u8]
    } else {
        seq![(48 + n) as u8]
    }
}

/// The position in Forsyth-Edwards notation: the board, the side to move,
/// the rights, the en-passant target, the halfmove clock, and 1 for the
/// fullmove counter, which the position does not keep.
pub open spec fn fen_bytes(pos: Position) -> Seq<u8> {
    ranks(pos, 7) + seq![32u8] + seq![
        match pos.side {
            PieceColor::White => 119u8,
            PieceColor::Black => 98u8,
        },
    ] + seq![32u8] + rights_text(pos.castling) + seq![32u8] + ep_text(pos.en_passant) + seq![32u8]
        + clock_text(pos.halfmove) + seq![32u8, 49u8]
}

fn letter(piece: Piece) -> (c: u8)
    ensures
        c == letter_of(piece),
{
    let upper: u8 = match piece.ty {
        PieceType::Pawn => 80,
        PieceType::Knight => 78,
        PieceType::Bishop => 66,
        PieceType::Rook => 82,
        PieceType::Queen => 81,
        _ => 75,
    };
    match piece.color {
        PieceColor::White => upper,
        PieceColor::Black => upper + 32,
    }
}

/// Appends the text of one rank.
fn write_rank(pos: &Position, rank: u8, out: &mut Vec<u8>)
    requires
        rank < 8,
    ensures
        final(out)@ == old(out)@ + cells(*pos, rank as int, 0, 0),
{
    let mut file: u8 = 0;
    let mut run: u8 = 0;
    assert(out@ + cells(*pos, rank as int, 0, 0) == old(out)@ + cells(*pos, rank as int, 0, 0));
    while file < 8
        invariant
            rank < 8,
            file <= 8,
            run <= file,
            out@ + cells(*pos, rank as int, file as int, run as int) == old(out)@ + cells(
                *pos,
                rank as int,
                0,
                0,
            ),
        decreases 8 - file,
    {
        let sq: u8 = rank * 8 + file;
        if !is_set(pos.colors[0], sq) && !is_set(pos.colors[1], sq) {
            run = run + 1;
        } else {
            let ghost before = out@;
            if run > 0 {
                out.push(48 + run);
            }
            out.push(letter(pos.piece_at(sq)));
            assert(out@ + cells(*pos, rank as int, file + 1, 0) =~= before + cells(
                *pos,
                rank as int,
                file as int,
                run as int,
            ));
            run = 0;
        }
        file = file + 1;
    }
    let ghost before = out@;
    if run > 0 {
        out.push(48 + run);
    }
    assert(out@ =~= before + cells(*pos, rank as int, 8, run as int));
}

/// Appends the text of the board.
fn write_board(pos: &Position, out: &mut Vec<u8>)
    ensures
        final(out)@ == old(out)@ + ranks(*pos, 7),
{
    let mut rank: u8 = 7;
    write_rank(pos, 7, out);
    while rank > 0
        invariant
            rank <= 7,
            out@ + (if rank > 0 {
                seq![47u8] + ranks(*pos, rank - 1)
            } else {
                Seq::<u8>::empty()
            }) == old(out)@ + ranks(*pos, 7),
        decreases rank,
    {
        let ghost before = out@;
        out.push(47);
        rank = rank - 1;
        write_rank(pos, rank, out);
        assert(out@ + (if rank > 0 {
            seq![47u8] + ranks(*pos, rank - 1)
        } else {
            Seq::<u8>::empty()
        }) =~= before + (seq![47u8] + ranks(*pos, rank as int)));
    }
    assert(out@ =~= old(out)@ + ranks(*pos, 7));
}

/// Appends the letters of the rights.
fn write_rights(castling: &[[u8; 2]; 2], out: &mut Vec<u8>)
    requires
        old(out)@.len() < usize::MAX - 8,
    ensures
        final(out)@ == old(out)@ + rights_text(*castling),
{
    let start: usize = out.len();
    if castling[0][1] != NO_SQUARE {
        out.push(75);
    }
    if castling[0][0] != NO_SQUARE {
        out.push(81);
    }
    if castling[1][1] != NO_SQUARE {
        out.push(107);
    }
    if castling[1][0] != NO_SQUARE {
        out.push(113);
    }
    if out.len() == start {
        out.push(45);
    }
    assert(out@ =~= old(out)@ + rights_text(*castling));
}

/// Appends the name of the en-passant target.
fn write_ep(en_passant: u8, out: &mut Vec<u8>)
    ensures
        final(out)@ == old(out)@ + ep_text(en_passant),
{
    if en_passant >= 64 {
        out.push(45);
    } else {
        out.push(97 + en_passant % 8);
        out.push(49 + en_passant / 8);
    }
    assert(out@ =~= old(out)@ + ep_text(en_passant));
}

/// Appends a number below 256 in decimal digits.
fn write_clock(n: u8, out: &mut Vec<u8>)
    ensures
        final(out)@ == old(out)@ + clock_text(n),
{
    if n >= 100 {
        out.push(48 + n / 100);
        out.push(48 + (n / 10) % 10);
        out.push(48 + n % 10);
    } else if n >= 10 {
        out.push(48 + n / 10);
        out.push(48 + n % 10);
    } else {
        out.push(48 + n);
    }
    assert(out@ =~= old(out)@ + clock_text(n));
}

/// The bytes of the position in Forsyth-Edwards notation.
pub fn write_fen(pos: &Position) -> (out: Vec<u8>)
    ensures
        out@ == fen_bytes(*pos),
{
    let mut out: Vec<u8> = Vec::new();
    write_board(pos, &mut out);
    assert(out@ =~= ranks(*pos, 7));
    out.push(32);
    out.push(
        match pos.side {
            PieceColor::White => 119,
            PieceColor::Black => 98,
        },
    );
    out.push(32);
    let ghost a = out@;
    proof {
        lemma_ranks_length(*pos, 7);
    }
    write_rights(&pos.castling, &mut out);
    out.push(32);
    let ghost b = out@;
    write_ep(pos.en_passant, &mut out);
    out.push(32);
    let ghost c = out@;
    write_clock(pos.halfmove, &mut out);
    out.push(32);
    out.push(49);
    assert(out@ =~= fen_bytes(*pos));
    out
}

/// The text that the bytes spell, by `String::from_utf8`: bytes that are all
/// below 128 are valid UTF-8, and the text that they give has them as its bytes.
#[verifier::external_body]
fn text_of(bytes: Vec<u8>) -> (s: String)
    ensures
        (forall|i: int| 0 <= i < bytes@.len() ==> #[trigger] bytes@[i] < 128) ==> vstd::utf8::encode_utf8(
            s@,
        ) == bytes@,
{
    String::from_utf8(bytes).unwrap_or_default()
}

impl Position {
    /// The position in Forsyth-Edwards notation.
    pub fn to_fen(&self) -> (s: String)
        ensures
            vstd::utf8::encode_utf8(s@) == fen_bytes(*self),
    {
        let bytes: Vec<u8> = write_fen(self);
        proof {
            lemma_fen_is_ascii(*self);
        }
        text_of(bytes)
    }
}

/// Every byte of a text is a visible character below 128.
pub open spec fn plain(s: Seq<u8>) -> bool {
    forall|i: int| 0 <= i < s.len() ==> 32 < #[trigger] s[i] < 128
}

/// Two plain texts are plain together.
pub proof fn lemma_plain_concat(a: Seq<u8>, b: Seq<u8>)
    requires
        plain(a),
        plain(b),
    ensures
        plain(a + b),
{
    assert forall|i: int| 0 <= i < (a + b).len() implies 32 < #[trigger] (a + b)[i] < 128 by {
        if i < a.len() {
            assert((a + b)[i] == a[i]);
        } else {
            assert((a + b)[i] == b[i - a.len()]);
        }
    }
}

/// The text of a rank is plain, and at most eight bytes long.
pub proof fn lemma_cells_plain(pos: Position, rank: int, file: int, run: int)
    requires
        0 <= rank <= 7,
        0 <= run <= file <= 8,
    ensures
        plain(cells(pos, rank, file, run)),
        cells(pos, rank, file, run).len() <= 9 - file + (if run > 0 { 1int } else { 0int }),
    decreases 8 - file,
{
    assert(plain(run_text(run)));
    if file < 8 {
        if pos.vacant((rank * 8 + file) as u8) {
            lemma_cells_plain(pos, rank, file + 1, run + 1);
        } else {
            lemma_cells_plain(pos, rank, file + 1, 0);
            let l = seq![letter_of(pos.piece_on((rank * 8 + file) as u8))];
            assert(plain(l));
            lemma_plain_concat(run_text(run), l);
            lemma_plain_concat(run_text(run) + l, cells(pos, rank, file + 1, 0));
        }
    }
}

/// The text of the board is plain, and short.
pub proof fn lemma_ranks_plain(pos: Position, rank: int)
    requires
        0 <= rank <= 7,
    ensures
        plain(ranks(pos, rank)),
        ranks(pos, rank).len() <= 10 * (rank + 1),
    decreases rank,
{
    if rank > 0 {
        lemma_cells_plain(pos, rank, 0, 0);
        lemma_ranks_plain(pos, rank - 1);
        assert(plain(seq![47u8]));
        lemma_plain_concat(cells(pos, rank, 0, 0), seq![47u8]);
        lemma_plain_concat(cells(pos, rank, 0, 0) + seq![47u8], ranks(pos, rank - 1));
    } else {
        lemma_cells_plain(pos, 0, 0, 0);
    }
}

/// The text of the board is short.
pub proof fn lemma_ranks_length(pos: Position, rank: int)
    requires
        0 <= rank <= 7,
    ensures
        ranks(pos, rank).len() <= 100,
{
    lemma_ranks_plain(pos, rank);
}

/// Every byte of the notation is below 128.
pub proof fn lemma_fen_is_ascii(pos: Position)
    ensures
        forall|i: int| 0 <= i < fen_bytes(pos).len() ==> #[trigger] fen_bytes(pos)[i] < 128,
{
    lemma_ranks_plain(pos, 7);
    let text = fen_bytes(pos);
    let board = ranks(pos, 7);
    let rights = rights_text(pos.castling);
    let ep = ep_text(pos.en_passant);
    let clock = clock_text(pos.halfmove);
    assert forall|i: int| 0 <= i < text.len() implies #[trigger] text[i] < 128 by {
        let b = board.len() as int;
        let r = rights.len() as int;
        let e = ep.len() as int;
        let c = clock.len() as int;
        if i < b {
            assert(text[i] == board[i]);
        } else if i < b + 3 {
        } else if i < b + 3 + r {
            assert(text[i] == rights[i - b - 3]);
        } else if i < b + 4 + r {
        } else if i < b + 4 + r + e {
            assert(text[i] == ep[i - b - 4 - r]);
        } else if i < b + 5 + r + e {
        } else if i < b + 5 + r + e + c {
            assert(text[i] == clock[i - b - 5 - r - e]);
        } else {
        }
    }
}

/// A field that ends at a blank or at the end of the text is the next field.
pub proof fn lemma_field(text: Seq<u8>, i: int, start: int, e: int)
    requires
        0 <= start <= i <= e <= text.len(),
        forall|j: int| i <= j < e ==> #[trigger] text[j] != 32,
        e == text.len() || text[e] == 32,
    ensures
        fields_from(text, i, start) == if e == text.len() {
            seq![(start, e)]
        } else {
            seq![(start, e)] + fields_from(text, e + 1, e + 1)
        },
    decreases e - i,
{
    if i < e {
        lemma_field(text, i + 1, start, e);
    }
}

/// Square `k` holds on the boards `acc` what it holds in the position, if it
/// comes before `file` of `rank` in the order of the text; else nothing.
pub open spec fn filled_at(acc: Boards, pos: Position, rank: int, file: int, k: u8) -> bool {
    let passed = k / 8 > rank || (k / 8 == rank && k % 8 < file);
    &&& forall|t: int|
        0 <= t < 6 ==> holds(#[trigger] acc.pieces[t], k) == (passed && holds(pos.pieces[t], k))
    &&& holds(acc.colors[0], k) == (passed && holds(pos.colors[0], k))
    &&& holds(acc.colors[1], k) == (passed && holds(pos.colors[1], k))
}

/// The boards `acc` hold the pieces of the squares that come before `file`
/// of `rank` in the order of the text, and no others.
pub open spec fn filled(acc: Boards, pos: Position, rank: int, file: int) -> bool {
    forall|k: u8| k < 64 ==> #[trigger] filled_at(acc, pos, rank, file, k)
}

/// The letter of a piece is read as that piece.
proof fn lemma_letter(piece: Piece)
    requires
        piece.ty != PieceType::Empty,
    ensures
        piece_of(letter_of(piece)) == Some(piece),
        !(49 <= letter_of(piece) <= 56),
        letter_of(piece) != 47,
{
}

/// Putting the piece of a square that has not been read on the boards that
/// are filled up to it fills them up to the next square.
proof fn lemma_put(acc: Boards, pos: Position, rank: int, file: int)
    requires
        pos.wf(),
        0 <= rank <= 7,
        0 <= file < 8,
        filled(acc, pos, rank, file),
        !pos.vacant((rank * 8 + file) as u8),
    ensures
        filled(put(acc, pos.piece_on((rank * 8 + file) as u8), (rank * 8 + file) as u8), pos, rank, file + 1),
        pos.piece_on((rank * 8 + file) as u8).ty != PieceType::Empty,
{
    let sq = (rank * 8 + file) as u8;
    let piece = pos.piece_on(sq);
    let next = put(acc, piece, sq);
    assert(pos.square_ok(sq));
    assert forall|k: u8| k < 64 implies #[trigger] filled_at(next, pos, rank, file + 1, k) by {
        assert(filled_at(acc, pos, rank, file, k));
        assert(filled_at(acc, pos, rank, file, sq));
        crate::position::lemma_xor_piece_all(acc.pieces, piece.ty.idx(), bit(sq), k);
        crate::position::lemma_toggle(acc.colors[0], sq, k);
        crate::position::lemma_toggle(acc.colors[1], sq, k);
        crate::bitboard::lemma_holds_bit(sq, k);
        assert(pos.square_ok(k));
    }
}

/// Reading the text of a rank from `file` on, where the boards are filled
/// up to there and a run of `run` empty squares is pending, fills them up to
/// the end of the rank: what is returned are the boards then.
proof fn lemma_read_cells(
    text: Seq<u8>,
    i: int,
    end: int,
    pos: Position,
    rank: int,
    file: int,
    run: int,
    acc: Boards,
) -> (next: Boards)
    requires
        pos.wf(),
        0 <= rank <= 7,
        0 <= run <= file <= 8,
        0 <= i,
        i + cells(pos, rank, file, run).len() <= end <= text.len(),
        forall|j: int|
            0 <= j < cells(pos, rank, file, run).len() ==> text[i + j] == #[trigger] cells(
                pos,
                rank,
                file,
                run,
            )[j],
        filled(acc, pos, rank, file),
    ensures
        filled(next, pos, rank, 8),
        board_from(text, i, end, rank, file - run, acc) == board_from(
            text,
            i + cells(pos, rank, file, run).len(),
            end,
            rank,
            8,
            next,
        ),
    decreases 8 - file,
{
    let c = cells(pos, rank, file, run);
    if file >= 8 {
        if run > 0 {
            assert(text[i] == c[0]);
        }
        acc
    } else {
        let sq = (rank * 8 + file) as u8;
        if pos.vacant(sq) {
            assert(filled(acc, pos, rank, file + 1)) by {
                assert forall|k: u8| k < 64 implies #[trigger] filled_at(acc, pos, rank, file + 1, k) by {
                    assert(filled_at(acc, pos, rank, file, k));
                    assert(pos.square_ok(k));
                }
            }
            lemma_read_cells(text, i, end, pos, rank, file + 1, run + 1, acc)
        } else {
            let piece = pos.piece_on(sq);
            let rest = cells(pos, rank, file + 1, 0);
            let digits = run_text(run);
            lemma_put(acc, pos, rank, file);
            lemma_letter(piece);
            let placed = put(acc, piece, sq);
            let at = i + digits.len();
            assert(c == digits + seq![letter_of(piece)] + rest);
            assert(text[at] == c[digits.len() as int]);
            assert(c[digits.len() as int] == letter_of(piece));
            if run > 0 {
                assert(text[i] == c[0]);
                assert(c[0] == (48 + run) as u8);
            }
            assert forall|j: int| 0 <= j < rest.len() implies text[at + 1 + j] == #[trigger] rest[j] by {
                assert(text[i + (digits.len() + 1 + j)] == c[digits.len() + 1 + j]);
            }
            let next = lemma_read_cells(text, at + 1, end, pos, rank, file + 1, 0, placed);
            assert(board_from(text, at, end, rank, file, acc) == board_from(
                text,
                at + 1,
                end,
                rank,
                file + 1,
                placed,
            ));
            next
        }
    }
}

/// Reading the text of the ranks from `rank` down, where the boards are
/// filled down to that rank, gives the boards of the position.
proof fn lemma_read_ranks(text: Seq<u8>, i: int, end: int, pos: Position, rank: int, acc: Boards) -> (next:
    Boards)
    requires
        pos.wf(),
        0 <= rank <= 7,
        0 <= i,
        i + ranks(pos, rank).len() == end <= text.len(),
        forall|j: int| 0 <= j < ranks(pos, rank).len() ==> text[i + j] == #[trigger] ranks(pos, rank)[j],
        filled(acc, pos, rank, 0),
    ensures
        filled(next, pos, 0, 8),
        board_from(text, i, end, rank, 0, acc) == Ok::<Boards, FenError>(next),
    decreases rank,
{
    let row = cells(pos, rank, 0, 0);
    let all = ranks(pos, rank);
    if rank == 0 {
        let next = lemma_read_cells(text, i, end, pos, 0, 0, 0, acc);
        next
    } else {
        let rest = ranks(pos, rank - 1);
        assert(all == row + seq![47u8] + rest);
        assert forall|j: int| 0 <= j < row.len() implies text[i + j] == #[trigger] row[j] by {
            assert(text[i + j] == all[j]);
        }
        let done = lemma_read_cells(text, i, end, pos, rank, 0, 0, acc);
        let at = i + row.len();
        assert(text[at] == all[row.len() as int]);
        assert(text[at] == 47);
        assert(filled(done, pos, rank - 1, 0)) by {
            assert forall|k: u8| k < 64 implies #[trigger] filled_at(done, pos, rank - 1, 0, k) by {
                assert(filled_at(done, pos, rank, 8, k));
            }
        }
        assert forall|j: int| 0 <= j < rest.len() implies text[at + 1 + j] == #[trigger] rest[j] by {
            assert(text[i + (row.len() + 1 + j)] == all[row.len() + 1 + j]);
        }
        let next = lemma_read_ranks(text, at + 1, end, pos, rank - 1, done);
        assert(board_from(text, at, end, rank, 8, done) == board_from(text, at + 1, end, rank - 1, 0, done));
        next
    }
}

/// Boards that are filled to the end are the boards of the position.
proof fn lemma_filled_all(acc: Boards, pos: Position)
    requires
        filled(acc, pos, 0, 8),
    ensures
        acc.pieces == pos.pieces,
        acc.colors == pos.colors,
{
    assert forall|t: int| 0 <= t < 6 implies acc.pieces[t] == pos.pieces[t] by {
        assert forall|k: u8| k < 64 implies holds(acc.pieces[t], k) == holds(pos.pieces[t], k) by {
            assert(filled_at(acc, pos, 0, 8, k));
        }
        crate::bitboard::lemma_board_ext(acc.pieces[t], pos.pieces[t]);
    }
    assert forall|k: u8| k < 64 implies holds(acc.colors[0], k) == holds(pos.colors[0], k) && holds(
        acc.colors[1],
        k,
    ) == holds(pos.colors[1], k) by {
        assert(filled_at(acc, pos, 0, 8, k));
    }
    crate::bitboard::lemma_board_ext(acc.colors[0], pos.colors[0]);
    crate::bitboard::lemma_board_ext(acc.colors[1], pos.colors[1]);
    assert(acc.pieces =~= pos.pieces);
    assert(acc.colors =~= pos.colors);
}

/// A field that is read in its place in a text is read as on its own.
proof fn lemma_rights_window(text: Seq<u8>, s: int, w: Seq<u8>, i: int, acc: [[u8; 2]; 2])
    requires
        0 <= s,
        0 <= i <= w.len(),
        s + w.len() <= text.len(),
        forall|j: int| 0 <= j < w.len() ==> text[s + j] == #[trigger] w[j],
    ensures
        rights_from(text, s + i, s + w.len(), acc) == rights_from(w, i, w.len() as int, acc),
    decreases w.len() - i,
{
    if i < w.len() {
        assert(text[s + i] == w[i]);
        let c = w[i];
        if c == 81 {
            lemma_rights_window(text, s, w, i + 1, [[0u8, acc[0][1]], acc[1]]);
        } else if c == 75 {
            lemma_rights_window(text, s, w, i + 1, [[acc[0][0], 7u8], acc[1]]);
        } else if c == 113 {
            lemma_rights_window(text, s, w, i + 1, [acc[0], [56u8, acc[1][1]]]);
        } else if c == 107 {
            lemma_rights_window(text, s, w, i + 1, [acc[0], [acc[1][0], 63u8]]);
        } else if c == 45 {
            lemma_rights_window(text, s, w, i + 1, acc);
        }
    }
}

/// The rights name the corners of the board or nothing.
pub open spec fn rights_in_corners(castling: [[u8; 2]; 2]) -> bool {
    &&& castling[0][0] == NO_SQUARE || castling[0][0] == 0
    &&& castling[0][1] == NO_SQUARE || castling[0][1] == 7
    &&& castling[1][0] == NO_SQUARE || castling[1][0] == 56
    &&& castling[1][1] == NO_SQUARE || castling[1][1] == 63
}

/// The letters of the rights are read as those rights.
proof fn lemma_read_rights(castling: [[u8; 2]; 2])
    requires
        rights_in_corners(castling),
    ensures
        rights_from(
            rights_text(castling),
            0,
            rights_text(castling).len() as int,
            [[NO_SQUARE, NO_SQUARE], [NO_SQUARE, NO_SQUARE]],
        ) matches Ok(read) && read[0][0] == castling[0][0] && read[0][1] == castling[0][1] && read[1][0]
            == castling[1][0] && read[1][1] == castling[1][1],
        1 <= rights_text(castling).len() <= 4,
        plain(rights_text(castling)),
{
    let w = rights_text(castling);
    reveal_with_fuel(rights_from, 6);
    if castling[0][1] != NO_SQUARE {
        if castling[0][0] != NO_SQUARE {
            if castling[1][1] != NO_SQUARE {
                if castling[1][0] != NO_SQUARE {
                    assert(w =~= seq![75u8, 81u8, 107u8, 113u8]);
                } else {
                    assert(w =~= seq![75u8, 81u8, 107u8]);
                }
            } else {
                if castling[1][0] != NO_SQUARE {
                    assert(w =~= seq![75u8, 81u8, 113u8]);
                } else {
                    assert(w =~= seq![75u8, 81u8]);
                }
            }
        } else {
            if castling[1][1] != NO_SQUARE {
                if castling[1][0] != NO_SQUARE {
                    assert(w =~= seq![75u8, 107u8, 113u8]);
                } else {
                    assert(w =~= seq![75u8, 107u8]);
                }
            } else {
                if castling[1][0] != NO_SQUARE {
                    assert(w =~= seq![75u8, 113u8]);
                } else {
                    assert(w =~= seq![75u8]);
                }
            }
        }
    } else {
        if castling[0][0] != NO_SQUARE {
            if castling[1][1] != NO_SQUARE {
                if castling[1][0] != NO_SQUARE {
                    assert(w =~= seq![81u8, 107u8, 113u8]);
                } else {
                    assert(w =~= seq![81u8, 107u8]);
                }
            } else {
                if castling[1][0] != NO_SQUARE {
                    assert(w =~= seq![81u8, 113u8]);
                } else {
                    assert(w =~= seq![81u8]);
                }
            }
        } else {
            if castling[1][1] != NO_SQUARE {
                if castling[1][0] != NO_SQUARE {
                    assert(w =~= seq![107u8, 113u8]);
                } else {
                    assert(w =~= seq![107u8]);
                }
            } else {
                if castling[1][0] != NO_SQUARE {
                    assert(w =~= seq![113u8]);
                } else {
                    assert(w =~= seq![45u8]);
                }
            }
        }
    }
}

/// The digits of a number below 256 are read as that number.
proof fn lemma_read_clock(n: u8)
    ensures
        clock_of(clock_text(n), 0, clock_text(n).len() as int) == Ok::<u8, FenError>(n),
        1 <= clock_text(n).len() <= 3,
        plain(clock_text(n)),
{
    reveal_with_fuel(clock_from, 5);
}

/// A number that is read in its place in a text is read as on its own.
proof fn lemma_clock_window(text: Seq<u8>, s: int, w: Seq<u8>, i: int, acc: int)
    requires
        0 <= s,
        0 <= i <= w.len(),
        s + w.len() <= text.len(),
        forall|j: int| 0 <= j < w.len() ==> text[s + j] == #[trigger] w[j],
    ensures
        clock_from(text, s + i, s + w.len(), acc) == clock_from(w, i, w.len() as int, acc),
    decreases w.len() - i,
{
    if i < w.len() {
        assert(text[s + i] == w[i]);
        lemma_clock_window(text, s, w, i + 1, acc * 10 + (w[i] - 48));
    }
}

/// The position that is read from the notation of a consistent position
/// is that position.
pub proof fn lemma_parse_written(pos: Position)
    requires
        pos.wf(),
    ensures
        parse_fen(fen_bytes(pos)) == Ok::<Position, FenError>(pos),
        fields(fen_bytes(pos)).len() == 6,
{
    let text = fen_bytes(pos);
    let board = ranks(pos, 7);
    let rights = rights_text(pos.castling);
    let ep = ep_text(pos.en_passant);
    let clock = clock_text(pos.halfmove);
    let b = board.len() as int;
    let r = rights.len() as int;
    let e = ep.len() as int;
    let c = clock.len() as int;
    lemma_ranks_plain(pos, 7);
    assert(pos.right_ok(0, 0) && pos.right_ok(0, 1) && pos.right_ok(1, 0) && pos.right_ok(1, 1));
    assert(rights_in_corners(pos.castling));
    lemma_read_rights(pos.castling);
    lemma_read_clock(pos.halfmove);
    assert(pos.ep_ok());
    assert(text.len() == b + r + e + c + 7);
    assert forall|j: int| 0 <= j < b implies text[j] == #[trigger] board[j] by {}
    assert(text[b] == 32 && text[b + 2] == 32);
    assert forall|j: int| 0 <= j < r implies text[b + 3 + j] == #[trigger] rights[j] by {}
    assert(text[b + 3 + r] == 32);
    assert forall|j: int| 0 <= j < e implies text[b + 4 + r + j] == #[trigger] ep[j] by {}
    assert(text[b + 4 + r + e] == 32);
    assert forall|j: int| 0 <= j < c implies text[b + 5 + r + e + j] == #[trigger] clock[j] by {}
    assert(text[b + 5 + r + e + c] == 32);
    assert(text[b + 6 + r + e + c] == 49);
    assert(plain(ep));
    lemma_field(text, b + 6 + r + e + c, b + 6 + r + e + c, b + 7 + r + e + c);
    assert forall|j: int| b + 5 + r + e <= j < b + 5 + r + e + c implies #[trigger] text[j] != 32 by {
        assert(text[b + 5 + r + e + (j - (b + 5 + r + e))] == clock[j - (b + 5 + r + e)]);
    }
    lemma_field(text, b + 5 + r + e, b + 5 + r + e, b + 5 + r + e + c);
    assert forall|j: int| b + 4 + r <= j < b + 4 + r + e implies #[trigger] text[j] != 32 by {
        assert(text[b + 4 + r + (j - (b + 4 + r))] == ep[j - (b + 4 + r)]);
    }
    lemma_field(text, b + 4 + r, b + 4 + r, b + 4 + r + e);
    assert forall|j: int| b + 3 <= j < b + 3 + r implies #[trigger] text[j] != 32 by {
        assert(text[b + 3 + (j - (b + 3))] == rights[j - (b + 3)]);
    }
    lemma_field(text, b + 3, b + 3, b + 3 + r);
    lemma_field(text, b + 1, b + 1, b + 2);
    assert forall|j: int| 0 <= j < b implies #[trigger] text[j] != 32 by {
        assert(text[j] == board[j]);
    }
    lemma_field(text, 0, 0, b);
    let parts = fields(text);
    assert(parts =~= seq![
        (0int, b),
        (b + 1, b + 2),
        (b + 3, b + 3 + r),
        (b + 4 + r, b + 4 + r + e),
        (b + 5 + r + e, b + 5 + r + e + c),
        (b + 6 + r + e + c, b + 7 + r + e + c),
    ]);
    let none = no_boards();
    assert(filled(none, pos, 7, 0)) by {
        assert forall|k: u8| k < 64 implies #[trigger] filled_at(none, pos, 7, 0, k) by {
            crate::bitboard::lemma_holds_ops(0, 0, k);
        }
    }
    let read = lemma_read_ranks(text, 0, b, pos, 7, none);
    lemma_filled_all(read, pos);
    lemma_rights_window(
        text,
        b + 3,
        rights,
        0,
        [[NO_SQUARE, NO_SQUARE], [NO_SQUARE, NO_SQUARE]],
    );
    lemma_clock_window(text, b + 5 + r + e, clock, 0, 0);
    let got = parse_fen(text);
    assert(got.is_ok());
    let p = got.unwrap();
    assert(p.pieces == pos.pieces);
    assert(p.colors == pos.colors);
    assert(p.castling[0] =~= pos.castling[0]);
    assert(p.castling[1] =~= pos.castling[1]);
    assert(p.castling =~= pos.castling);
    assert(p.en_passant == pos.en_passant);
    assert(p.halfmove == pos.halfmove);
    assert(p.side == pos.side);
}

/// The notation of a position without its last two fields, the halfmove
/// clock and the fullmove counter.
pub open spec fn brief_bytes(pos: Position) -> Seq<u8> {
    ranks(pos, 7) + seq![32u8] + seq![
        match pos.side {
            PieceColor::White => 119u8,
            PieceColor::Black => 98u8,
        },
    ] + seq![32u8] + rights_text(pos.castling) + seq![32u8] + ep_text(pos.en_passant)
}

/// A text with its missing fields filled in: a text of four fields gets the
/// clock 0 and the counter 1.
pub open spec fn filled_in(text: Seq<u8>) -> Seq<u8> {
    if fields(text).len() == 4 {
        text + seq![32u8, 48u8, 32u8, 49u8]
    } else {
        text
    }
}

/// The position that is read from the notation of a consistent position
/// without its last two fields is that position, if its clock stands at 0.
#[verifier::rlimit(60)]
pub proof fn lemma_parse_brief(pos: Position)
    requires
        pos.wf(),
        pos.halfmove == 0,
    ensures
        parse_fen(brief_bytes(pos)) == Ok::<Position, FenError>(pos),
        fields(brief_bytes(pos)).len() == 4,
        fen_bytes(pos) == brief_bytes(pos) + seq![32u8, 48u8, 32u8, 49u8],
{
    let text = brief_bytes(pos);
    let board = ranks(pos, 7);
    let rights = rights_text(pos.castling);
    let ep = ep_text(pos.en_passant);
    let b = board.len() as int;
    let r = rights.len() as int;
    let e = ep.len() as int;
    lemma_ranks_plain(pos, 7);
    assert(pos.right_ok(0, 0) && pos.right_ok(0, 1) && pos.right_ok(1, 0) && pos.right_ok(1, 1));
    assert(rights_in_corners(pos.castling));
    lemma_read_rights(pos.castling);
    assert(pos.ep_ok());
    assert(text.len() == b + r + e + 4);
    assert forall|j: int| 0 <= j < b implies text[j] == #[trigger] board[j] by {}
    assert(text[b] == 32 && text[b + 2] == 32);
    assert forall|j: int| 0 <= j < r implies text[b + 3 + j] == #[trigger] rights[j] by {}
    assert(text[b + 3 + r] == 32);
    assert forall|j: int| 0 <= j < e implies text[b + 4 + r + j] == #[trigger] ep[j] by {}
    assert(plain(ep));
    assert forall|j: int| b + 4 + r <= j < b + 4 + r + e implies #[trigger] text[j] != 32 by {
        assert(text[b + 4 + r + (j - (b + 4 + r))] == ep[j - (b + 4 + r)]);
    }
    lemma_field(text, b + 4 + r, b + 4 + r, b + 4 + r + e);
    assert forall|j: int| b + 3 <= j < b + 3 + r implies #[trigger] text[j] != 32 by {
        assert(text[b + 3 + (j - (b + 3))] == rights[j - (b + 3)]);
    }
    lemma_field(text, b + 3, b + 3, b + 3 + r);
    lemma_field(text, b + 1, b + 1, b + 2);
    assert forall|j: int| 0 <= j < b implies #[trigger] text[j] != 32 by {
        assert(text[j] == board[j]);
    }
    lemma_field(text, 0, 0, b);
    let parts = fields(text);
    assert(parts =~= seq![(0int, b), (b + 1, b + 2), (b + 3, b + 3 + r), (b + 4 + r, b + 4 + r + e)]);
    let none = no_boards();
    assert(filled(none, pos, 7, 0)) by {
        assert forall|k: u8| k < 64 implies #[trigger] filled_at(none, pos, 7, 0, k) by {
            crate::bitboard::lemma_holds_ops(0, 0, k);
        }
    }
    let read = lemma_read_ranks(text, 0, b, pos, 7, none);
    lemma_filled_all(read, pos);
    lemma_rights_window(
        text,
        b + 3,
        rights,
        0,
        [[NO_SQUARE, NO_SQUARE], [NO_SQUARE, NO_SQUARE]],
    );
    let got = parse_fen(text);
    assert(got.is_ok());
    let p = got.unwrap();
    assert(p.pieces == pos.pieces);
    assert(p.colors == pos.colors);
    assert(p.castling[0] =~= pos.castling[0]);
    assert(p.castling[1] =~= pos.castling[1]);
    assert(p.castling =~= pos.castling);
    assert(p.en_passant == pos.en_passant);
    assert(p.halfmove == pos.halfmove);
    assert(p.side == pos.side);
    assert(fen_bytes(pos) =~= brief_bytes(pos) + seq![32u8, 48u8, 32u8, 49u8]);
}

/// A text that is read and written again is the text that was read, with
/// its missing fields filled in. This holds of the notation of every
/// consistent position, and of that notation without its last two fields
/// where the clock of the position stands at 0.
pub proof fn lemma_written_read(pos: Position, brief: bool)
    requires
        pos.wf(),
        brief ==> pos.halfmove == 0,
    ensures
        ({
            let text = if brief {
                brief_bytes(pos)
            } else {
                fen_bytes(pos)
            };
            parse_fen(text) matches Ok(read) && fen_bytes(read) == filled_in(text)
        }),
{
    if brief {
        lemma_parse_brief(pos);
    } else {
        lemma_parse_written(pos);
    }
}

} // verus!
