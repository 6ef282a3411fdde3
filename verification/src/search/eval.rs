//! Tapered evaluation from piece-square tables.
use vstd::prelude::*;
use crate::position::{Piece, PieceColor, PieceType, Position};

verus! {

/// The midgame value of a pawn on each square, from a1 to h8 as White sees the board.
pub const MG_PAWN: [i32; 64] = [
    0, 0, 0, 0, 0, 0, 0, 0,
    38, 63, 53, 51, 50, 89, 122, 58,
    47, 73, 58, 61, 71, 67, 112, 68,
    42, 69, 64, 82, 81, 82, 91, 60,
    53, 72, 78, 91, 97, 84, 93, 53,
    66, 96, 127, 140, 141, 136, 147, 82,
    198, 193, 210, 210, 166, 133, 123, 121,
    0, 0, 0, 0, 0, 0, 0, 0,
];

/// The midgame value of a knight on each square.
pub const MG_KNIGHT: [i32; 64] = [
    268, 263, 256, 279, 272, 276, 272, 233,
    239, 260, 284, 292, 288, 308, 284, 281,
    269, 282, 294, 310, 325, 303, 309, 290,
    286, 307, 323, 304, 323, 319, 331, 300,
    301, 309, 344, 360, 337, 362, 333, 337,
    292, 311, 348, 377, 396, 401, 351, 312,
    279, 299, 328, 340, 332, 353, 301, 307,
    248, 302, 306, 302, 317, 310, 315, 299,
];

/// The midgame value of a bishop on each square.
pub const MG_BISHOP: [i32; 64] = [
    290, 303, 300, 299, 283, 296, 298, 295,
    320, 317, 358, 314, 327, 327, 348, 327,
    314, 346, 326, 339, 336, 334, 336, 345,
    325, 316, 341, 358, 371, 335, 340, 323,
    321, 337, 343, 386, 363, 362, 333, 331,
    336, 357, 353, 379, 355, 394, 364, 359,
    304, 317, 328, 328, 338, 333, 318, 311,
    315, 325, 322, 316, 321, 319, 328, 328,
];

/// The midgame value of a rook on each square.
pub const MG_ROOK: [i32; 64] = [
    452, 460, 461, 467, 471, 460, 459, 449,
    440, 459, 462, 453, 461, 471, 469, 376,
    425, 444, 450, 455, 467, 457, 494, 438,
    435, 457, 449, 468, 482, 468, 476, 452,
    464, 471, 496, 517, 510, 518, 493, 489,
    485, 513, 534, 528, 550, 570, 531, 500,
    500, 509, 552, 575, 552, 565, 532, 530,
    531, 518, 537, 541, 536, 517, 514, 525,
];

/// The midgame value of a queen on each square.
pub const MG_QUEEN: [i32; 64] = [
    881, 860, 880, 897, 888, 845, 891, 877,
    877, 879, 906, 908, 903, 913, 871, 883,
    890, 893, 897, 897, 900, 902, 921, 897,
    888, 897, 901, 906, 911, 911, 920, 904,
    893, 892, 912, 913, 931, 931, 931, 917,
    896, 898, 911, 935, 955, 984, 984, 942,
    886, 886, 913, 930, 937, 961, 927, 958,
    910, 911, 922, 937, 939, 944, 945, 941,
];

/// The midgame value of a king on each square.
pub const MG_KING: [i32; 64] = [
    -32, 53, 40, -57, 37, -22, 81, 65,
    8, 8, -10, -38, -43, -22, 36, 60,
    5, 8, -7, -21, -42, -15, -6, -15,
    0, 6, -5, -10, -11, -14, -1, -3,
    5, 6, -4, -11, -9, -6, 11, 5,
    6, 3, -1, -5, -1, 4, -8, 6,
    -1, 0, -3, -6, -9, -4, 3, 3,
    -1, 5, -17, -3, -1, 1, -3, 2,
];

/// The endgame value of a pawn on each square.
pub const EG_PAWN: [i32; 64] = [
    0, 0, 0, 0, 0, 0, 0, 0,
    150, 147, 132, 129, 134, 127, 123, 116,
    146, 134, 122, 123, 121, 122, 119, 117,
    151, 143, 124, 117, 113, 115, 123, 120,
    180, 159, 133, 126, 116, 116, 138, 139,
    235, 226, 207, 188, 172, 152, 172, 184,
    269, 289, 272, 246, 244, 231, 266, 238,
    0, 0, 0, 0, 0, 0, 0, 0,
];

/// The endgame value of a knight on each square.
pub const EG_KNIGHT: [i32; 64] = [
    246, 227, 263, 249, 264, 246, 251, 233,
    258, 292, 266, 270, 267, 252, 277, 267,
    263, 270, 282, 289, 291, 280, 259, 264,
    277, 283, 305, 314, 300, 295, 280, 258,
    269, 295, 310, 294, 307, 294, 299, 274,
    278, 294, 289, 292, 284, 295, 293, 290,
    273, 286, 303, 298, 296, 288, 292, 287,
    272, 276, 295, 297, 291, 297, 297, 285,
];

/// The endgame value of a bishop on each square.
pub const EG_BISHOP: [i32; 64] = [
    290, 280, 271, 292, 302, 291, 296, 276,
    302, 303, 294, 308, 310, 307, 295, 278,
    311, 310, 329, 324, 330, 310, 299, 292,
    312, 330, 328, 323, 318, 319, 312, 307,
    310, 333, 327, 323, 337, 320, 333, 310,
    318, 320, 320, 317, 334, 340, 341, 301,
    308, 324, 319, 328, 330, 334, 320, 306,
    315, 318, 318, 334, 322, 322, 324, 333,
];

/// The endgame value of a rook on each square.
pub const EG_ROOK: [i32; 64] = [
    465, 473, 480, 482, 466, 466, 462, 427,
    457, 452, 474, 470, 459, 454, 424, 402,
    481, 479, 476, 478, 468, 471, 444, 436,
    494, 503, 503, 490, 480, 479, 475, 465,
    501, 511, 495, 490, 476, 464, 481, 480,
    500, 491, 487, 487, 475, 451, 475, 485,
    505, 505, 494, 486, 491, 484, 494, 497,
    476, 497, 484, 484, 485, 490, 491, 488,
];

/// The endgame value of a queen on each square.
pub const EG_QUEEN: [i32; 64] = [
    885, 888, 870, 842, 857, 858, 875, 881,
    883, 894, 871, 861, 879, 865, 864, 881,
    898, 899, 913, 893, 897, 918, 884, 893,
    882, 913, 907, 940, 926, 923, 917, 917,
    888, 911, 931, 952, 954, 940, 940, 933,
    894, 919, 935, 949, 947, 956, 930, 921,
    913, 941, 946, 954, 960, 947, 920, 929,
    893, 919, 930, 943, 943, 944, 927, 914,
];

/// The endgame value of a king on each square.
pub const EG_KING: [i32; 64] = [
    -4, -8, 4, 2, -50, -2, -38, -45,
    4, 16, 18, 16, 25, 18, 4, -21,
    13, 18, 23, 22, 33, 22, 14, 6,
    2, 21, 28, 32, 26, 25, 19, 6,
    16, 40, 30, 30, 30, 36, 41, 21,
    21, 28, 32, 21, 12, 54, 66, 50,
    -72, -118, -80, 4, -3, -81, 58, 32,
    -67, -259, -164, 5, 12, -10, -28, -5,
];

/// The midgame tables of the six kinds, as White sees the board.
pub const MG_PSTS: [[i32; 64]; 6] = [MG_PAWN, MG_KNIGHT, MG_BISHOP, MG_ROOK, MG_QUEEN, MG_KING];

/// The endgame tables of the six kinds, as White sees the board.
pub const EG_PSTS: [[i32; 64]; 6] = [EG_PAWN, EG_KNIGHT, EG_BISHOP, EG_ROOK, EG_QUEEN, EG_KING];

/// What each kind adds to the game phase.
pub const PHASE: [i32; 6] = [0, 1, 1, 2, 4, 0];

/// The phase at and above which the midgame tables alone count.
pub const FULL_PHASE: i32 = 24;

/// The square as its owner sees it: White's own square, Black's mirrored
/// over the middle of the board.
pub open spec fn flip_spec(sq: u8, side: PieceColor) -> u8 {
    match side {
        PieceColor::White => sq,
        PieceColor::Black => ((7 - sq / 8) * 8 + sq % 8) as u8,
    }
}

/// The square as its owner sees it.
pub fn flip(sq: u8, side: PieceColor) -> (r: u8)
    requires
        sq < 64,
    ensures
        r == flip_spec(sq, side),
        r < 64,
{
    match side {
        PieceColor::White => sq,
        PieceColor::Black => (7 - sq / 8) * 8 + sq % 8,
    }
}

/// The midgame value of a piece of `color` and `kind` on `sq`; 0 for no piece.
pub open spec fn mg_value(kind: PieceType, color: PieceColor, sq: u8) -> int {
    if kind == PieceType::Empty {
        0
    } else {
        MG_PSTS[kind.idx()][flip_spec(sq, color) as int] as int
    }
}

/// The endgame value of a piece of `color` and `kind` on `sq`; 0 for no piece.
pub open spec fn eg_value(kind: PieceType, color: PieceColor, sq: u8) -> int {
    if kind == PieceType::Empty {
        0
    } else {
        EG_PSTS[kind.idx()][flip_spec(sq, color) as int] as int
    }
}

/// The midgame value, or with `endgame` the endgame value, of a piece.
pub open spec fn value_of(endgame: bool, kind: PieceType, color: PieceColor, sq: u8) -> int {
    if endgame {
        eg_value(kind, color, sq)
    } else {
        mg_value(kind, color, sq)
    }
}

/// What a piece of `kind` adds to the game phase; 0 for no piece.
pub open spec fn phase_value(kind: PieceType) -> int {
    if kind == PieceType::Empty {
        0
    } else {
        PHASE[kind.idx()] as int
    }
}

/// The midgame value of a piece on a square.
pub fn mg_pst(kind: PieceType, color: PieceColor, sq: u8) -> (v: i32)
    requires
        sq < 64,
    ensures
        v == mg_value(kind, color, sq),
        kind != PieceType::King ==> 0 <= v <= 984,
        kind == PieceType::King ==> -259 <= v <= 81,
{
    if kind == PieceType::Empty {
        0
    } else {
        MG_PSTS[kind.index()][flip(sq, color) as usize]
    }
}

/// The endgame value of a piece on a square.
pub fn eg_pst(kind: PieceType, color: PieceColor, sq: u8) -> (v: i32)
    requires
        sq < 64,
    ensures
        v == eg_value(kind, color, sq),
        kind != PieceType::King ==> 0 <= v <= 984,
        kind == PieceType::King ==> -259 <= v <= 81,
{
    if kind == PieceType::Empty {
        0
    } else {
        EG_PSTS[kind.index()][flip(sq, color) as usize]
    }
}

/// The midgame value, or with `endgame` the endgame value, of a piece on a square.
pub fn pst(endgame: bool, kind: PieceType, color: PieceColor, sq: u8) -> (v: i32)
    requires
        sq < 64,
    ensures
        v == value_of(endgame, kind, color, sq),
        kind != PieceType::King ==> 0 <= v <= 984,
        kind == PieceType::King ==> -259 <= v <= 81,
{
    if endgame {
        eg_pst(kind, color, sq)
    } else {
        mg_pst(kind, color, sq)
    }
}

/// What a piece of `kind` adds to the game phase.
pub fn phase_of(kind: PieceType) -> (v: i32)
    ensures
        v == phase_value(kind),
        0 <= v <= 4,
{
    if kind == PieceType::Empty {
        0
    } else {
        PHASE[kind.index()]
    }
}

/// A value counted for the side `side` and against the other.
pub open spec fn signed(v: int, color: PieceColor, side: PieceColor) -> int {
    if color == side {
        v
    } else {
        -v
    }
}

/// The midgame values of the pieces on the squares below `n`, those of
/// `side` counted for and those of the other side against.
pub open spec fn mg_sum(pos: Position, side: PieceColor, n: nat) -> int
    decreases n,
{
    if n == 0 {
        0
    } else {
        let p = pos.piece_on((n - 1) as u8);
        mg_sum(pos, side, (n - 1) as nat) + signed(mg_value(p.ty, p.color, (n - 1) as u8), p.color, side)
    }
}

/// The endgame values of the pieces on the squares below `n`, those of
/// `side` counted for and those of the other side against.
pub open spec fn eg_sum(pos: Position, side: PieceColor, n: nat) -> int
    decreases n,
{
    if n == 0 {
        0
    } else {
        let p = pos.piece_on((n - 1) as u8);
        eg_sum(pos, side, (n - 1) as nat) + signed(eg_value(p.ty, p.color, (n - 1) as u8), p.color, side)
    }
}

/// The phase values of the pieces on the squares below `n`.
pub open spec fn phase_sum(pos: Position, n: nat) -> int
    decreases n,
{
    if n == 0 {
        0
    } else {
        phase_sum(pos, (n - 1) as nat) + phase_value(pos.piece_on((n - 1) as u8).ty)
    }
}

/// `x` divided by 24, rounded towards zero.
pub open spec fn div24(x: int) -> int {
    if x >= 0 {
        x / 24
    } else {
        -((-x) / 24)
    }
}

/// The score between the midgame score `mg` and the endgame score `eg` at
/// game phase `phase`, which counts from 0 (endgame) to 24 (midgame) and is
/// cut to that range.
pub open spec fn tapered_spec(mg: int, eg: int, phase: int) -> int {
    let p = if phase < 0 {
        0
    } else if phase > 24 {
        24
    } else {
        phase
    };
    div24(mg * p + eg * (24 - p))
}

/// The tapered score.
pub fn tapered(mg: i32, eg: i32, phase: i32) -> (score: i32)
    requires
        -2000000 <= mg <= 2000000,
        -2000000 <= eg <= 2000000,
    ensures
        score == tapered_spec(mg as int, eg as int, phase as int),
        mg <= eg ==> mg <= score <= eg,
        eg <= mg ==> eg <= score <= mg,
{
    let p: i32 = if phase < 0 {
        0
    } else if phase > FULL_PHASE {
        FULL_PHASE
    } else {
        phase
    };
    assert(-48000000 <= mg * p <= 48000000) by (nonlinear_arith)
        requires
            -2000000 <= mg <= 2000000,
            0 <= p <= 24,
    ;
    assert(-48000000 <= eg * (24 - p) <= 48000000) by (nonlinear_arith)
        requires
            -2000000 <= eg <= 2000000,
            0 <= p <= 24,
    ;
    let x: i32 = mg * p + eg * (FULL_PHASE - p);
    assert(mg <= eg ==> 24 * mg <= x <= 24 * eg) by (nonlinear_arith)
        requires
            x == mg * p + eg * (24 - p),
            0 <= p <= 24,
    ;
    assert(eg <= mg ==> 24 * eg <= x <= 24 * mg) by (nonlinear_arith)
        requires
            x == mg * p + eg * (24 - p),
            0 <= p <= 24,
    ;
    if x >= 0 {
        x / 24
    } else {
        -((-x) / 24)
    }
}

/// The game phase of a position whose pieces count `total`: the count, but
/// no more than 24.
pub open spec fn phase_cut(total: int) -> int {
    if total > 24 {
        24
    } else {
        total
    }
}

/// The game phase of a position whose pieces count `total`.
pub fn cut_phase(total: i32) -> (phase: i32)
    ensures
        phase == phase_cut(total as int),
{
    if total > FULL_PHASE {
        FULL_PHASE
    } else {
        total
    }
}

/// The midgame score and the endgame score of a position from scratch, for
/// the side to move, and what its pieces count towards the game phase.
pub fn sums(pos: &Position) -> (r: (i32, i32, i32))
    ensures
        r.0 == mg_sum(*pos, pos.side, 64),
        r.1 == eg_sum(*pos, pos.side, 64),
        r.2 == phase_sum(*pos, 64),
        -62976 <= r.0 <= 62976,
        -62976 <= r.1 <= 62976,
        0 <= r.2 <= 256,
{
    let mut mg: i32 = 0;
    let mut eg: i32 = 0;
    let mut phase: i32 = 0;
    let mut sq: u8 = 0;
    while sq < 64
        invariant
            sq <= 64,
            mg == mg_sum(*pos, pos.side, sq as nat),
            eg == eg_sum(*pos, pos.side, sq as nat),
            phase == phase_sum(*pos, sq as nat),
            -984 * sq <= mg <= 984 * sq,
            -984 * sq <= eg <= 984 * sq,
            0 <= phase <= 4 * sq,
        decreases 64 - sq,
    {
        let piece: Piece = pos.piece_at(sq);
        let m: i32 = mg_pst(piece.ty, piece.color, sq);
        let e: i32 = eg_pst(piece.ty, piece.color, sq);
        if piece.color == pos.side {
            mg = mg + m;
            eg = eg + e;
        } else {
            mg = mg - m;
            eg = eg - e;
        }
        phase = phase + phase_of(piece.ty);
        sq = sq + 1;
    }
    (mg, eg, phase)
}

/// The evaluation of a position from scratch, for the side to move: the
/// tapered score, the midgame score, the endgame score and the game phase,
/// which is what the pieces count, cut to 24.
pub fn eval(pos: &Position) -> (r: (i32, i32, i32, i32))
    ensures
        r.1 == mg_sum(*pos, pos.side, 64),
        r.2 == eg_sum(*pos, pos.side, 64),
        r.3 == phase_cut(phase_sum(*pos, 64)),
        r.0 == tapered_spec(r.1 as int, r.2 as int, r.3 as int),
        -62976 <= r.0 <= 62976,
        -62976 <= r.1 <= 62976,
        -62976 <= r.2 <= 62976,
        0 <= r.3 <= 24,
{
    let (mg, eg, total) = sums(pos);
    let phase: i32 = cut_phase(total);
    (tapered(mg, eg, phase), mg, eg, phase)
}

} // verus!
