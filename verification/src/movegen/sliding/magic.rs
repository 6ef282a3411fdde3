//! Attack sets of sliding pieces: the rays themselves, and the tables that
//! answer for them by one multiplication and one lookup.
use vstd::prelude::*;
use crate::bitboard::{
    board_of, holds, lemma_board_of, lemma_holds_bit, lemma_holds_ops, reset_lsb, square_bit,
    FILE_A, FILE_H, RANK_1, RANK_8,
};

verus! {

/// `delta` is `n` steps along an axis on which one step is `d`.
pub open spec fn along(delta: int, d: int, n: int) -> bool {
    &&& d == 0 ==> delta == 0
    &&& d == 1 ==> delta == n
    &&& d == -1 ==> delta == -n
}

/// The number of king steps from `a` to `k`.
pub open spec fn dist(a: u8, k: u8) -> int {
    let x = k % 8 - a % 8;
    let y = k / 8 - a / 8;
    let ax = if x < 0 { -x } else { x };
    let ay = if y < 0 { -y } else { y };
    if ax > ay { ax } else { ay }
}

/// `k` lies on the ray that leaves `a` by steps of `df` files and `dr` ranks.
pub open spec fn on_ray(a: u8, k: u8, df: int, dr: int) -> bool {
    &&& a != k
    &&& along(k % 8 - a % 8, df, dist(a, k))
    &&& along(k / 8 - a / 8, dr, dist(a, k))
}

/// A slider on `a` attacks `k` along the ray `(df, dr)`: `k` lies on the ray and
/// no square of the ray before `k` is a blocker. The first blocker itself is
/// attacked.
pub open spec fn ray_sees(a: u8, k: u8, df: int, dr: int, blockers: u64) -> bool {
    &&& on_ray(a, k, df, dr)
    &&& forall|j: u8| j < 64 && on_ray(a, j, df, dr) && dist(a, j) < dist(a, k) ==> !holds(blockers, j)
}

/// A rook on `a` attacks `k`.
pub open spec fn rook_sees(a: u8, k: u8, blockers: u64) -> bool {
    ||| ray_sees(a, k, 0, 1, blockers)
    ||| ray_sees(a, k, 0, -1, blockers)
    ||| ray_sees(a, k, 1, 0, blockers)
    ||| ray_sees(a, k, -1, 0, blockers)
}

/// A bishop on `a` attacks `k`.
pub open spec fn bishop_sees(a: u8, k: u8, blockers: u64) -> bool {
    ||| ray_sees(a, k, 1, 1, blockers)
    ||| ray_sees(a, k, -1, 1, blockers)
    ||| ray_sees(a, k, 1, -1, blockers)
    ||| ray_sees(a, k, -1, -1, blockers)
}

/// The squares that a rook on `a` attacks.
pub open spec fn rook_attack_spec(a: u8, blockers: u64) -> u64 {
    board_of(|k: u8| rook_sees(a, k, blockers))
}

/// The squares that a bishop on `a` attacks.
pub open spec fn bishop_attack_spec(a: u8, blockers: u64) -> u64 {
    board_of(|k: u8| bishop_sees(a, k, blockers))
}

/// The squares that a slider on `square` attacks along one ray.
pub fn ray_attack(square: u8, df: i8, dr: i8, blockers: u64) -> (result: u64)
    requires
        square < 64,
        -1 <= df <= 1,
        -1 <= dr <= 1,
        df != 0 || dr != 0,
    ensures
        forall|k: u8| k < 64 ==> holds(result, k) == ray_sees(square, k, df as int, dr as int, blockers),
{
    let file: i8 = (square % 8) as i8;
    let rank: i8 = (square / 8) as i8;
    let mut f: i8 = file + df;
    let mut r: i8 = rank + dr;
    let mut result: u64 = 0;
    let mut blocked: bool = false;
    let ghost mut n: int = 1;
    proof {
        assert forall|k: u8| k < 64 implies !holds(result, k) by {
            lemma_holds_ops(0, 0, k);
        }
    }
    while !blocked && 0 <= f && f < 8 && 0 <= r && r < 8
        invariant
            square < 64,
            -1 <= df <= 1,
            -1 <= dr <= 1,
            df != 0 || dr != 0,
            file == square % 8,
            rank == square / 8,
            1 <= n <= 8,
            -1 <= f <= 8,
            -1 <= r <= 8,
            !blocked ==> along(f - file, df as int, n) && along(r - rank, dr as int, n),
            !blocked ==> forall|k: u8|
                k < 64 ==> holds(result, k) == (on_ray(square, k, df as int, dr as int) && dist(square, k)
                    < n),
            !blocked ==> forall|j: u8|
                j < 64 && on_ray(square, j, df as int, dr as int) && dist(square, j) < n ==> !holds(
                    blockers,
                    j,
                ),
            blocked ==> forall|k: u8|
                k < 64 ==> holds(result, k) == ray_sees(square, k, df as int, dr as int, blockers),
        decreases (if blocked { 0int } else { 9 - n }),
    {
        let sq: u8 = (r * 8 + f) as u8;
        let b: u64 = square_bit(sq);
        let ghost before = result;
        result = result | b;
        proof {
            assert(on_ray(square, sq, df as int, dr as int) && dist(square, sq) == n);
            assert forall|k: u8| k < 64 implies holds(result, k) == (on_ray(
                square,
                k,
                df as int,
                dr as int,
            ) && dist(square, k) < n + 1) by {
                lemma_holds_ops(before, b, k);
                lemma_holds_bit(sq, k);
                if on_ray(square, k, df as int, dr as int) && dist(square, k) == n {
                    assert(k % 8 == sq % 8 && k / 8 == sq / 8);
                }
            }
        }
        if blockers & b != 0 {
            blocked = true;
            proof {
                assert(holds(blockers, sq));
                assert forall|k: u8| k < 64 implies holds(result, k) == ray_sees(
                    square,
                    k,
                    df as int,
                    dr as int,
                    blockers,
                ) by {
                    if on_ray(square, k, df as int, dr as int) && dist(square, k) > n {
                        assert(!ray_sees(square, k, df as int, dr as int, blockers));
                    }
                }
            }
        } else {
            proof {
                assert(!holds(blockers, sq));
                assert forall|j: u8|
                    j < 64 && on_ray(square, j, df as int, dr as int) && dist(square, j) < n
                        + 1 implies !holds(blockers, j) by {
                    if dist(square, j) == n {
                        assert(j % 8 == sq % 8 && j / 8 == sq / 8);
                    }
                }
                n = n + 1;
            }
            f = f + df;
            r = r + dr;
        }
    }
    proof {
        if !blocked {
            assert forall|k: u8| k < 64 implies holds(result, k) == ray_sees(
                square,
                k,
                df as int,
                dr as int,
                blockers,
            ) by {
                if on_ray(square, k, df as int, dr as int) {
                    assert(dist(square, k) < n);
                }
            }
        }
    }
    result
}

/// The squares that a rook on `square` attacks: along each of its four rays
/// up to and with the first blocker.
pub fn rook_attack(square: u8, blockers: u64) -> (result: u64)
    requires
        square < 64,
    ensures
        result == rook_attack_spec(square, blockers),
{
    let n: u64 = ray_attack(square, 0, 1, blockers);
    let s: u64 = ray_attack(square, 0, -1, blockers);
    let e: u64 = ray_attack(square, 1, 0, blockers);
    let w: u64 = ray_attack(square, -1, 0, blockers);
    let result: u64 = n | s | e | w;
    proof {
        assert forall|k: u8| k < 64 implies holds(result, k) == rook_sees(square, k, blockers) by {
            lemma_holds_ops(n, s, k);
            lemma_holds_ops(n | s, e, k);
            lemma_holds_ops(n | s | e, w, k);
        }
        lemma_board_of(result, |k: u8| rook_sees(square, k, blockers));
    }
    result
}

/// The squares that a bishop on `square` attacks: along each of its four
/// rays up to and with the first blocker.
pub fn bishop_attack(square: u8, blockers: u64) -> (result: u64)
    requires
        square < 64,
    ensures
        result == bishop_attack_spec(square, blockers),
{
    let ne: u64 = ray_attack(square, 1, 1, blockers);
    let nw: u64 = ray_attack(square, -1, 1, blockers);
    let se: u64 = ray_attack(square, 1, -1, blockers);
    let sw: u64 = ray_attack(square, -1, -1, blockers);
    let result: u64 = ne | nw | se | sw;
    proof {
        assert forall|k: u8| k < 64 implies holds(result, k) == bishop_sees(square, k, blockers) by {
            lemma_holds_ops(ne, nw, k);
            lemma_holds_ops(ne | nw, se, k);
            lemma_holds_ops(ne | nw | se, sw, k);
        }
        lemma_board_of(result, |k: u8| bishop_sees(square, k, blockers));
    }
    result
}

/// The multiplier of each square for rook lookups.
pub const ROOK_MAGIC_NUMBERS: [u64; 64] = [
    0x40800020c0008074,
    0x0040001000406002,
    0x0100290040200011,
    0x0080100080080004,
    0x8880028004004800,
    0x2200108102001804,
    0x02000200110800c4,
    0x0b00035100028062,
    0x04088008804004a0,
    0x0001400050002008,
    0x0801002000410098,
    0x0011000810002101,
    0x0042001200040821,
    0x0002000408420010,
    0x0204000810010a1c,
    0x0119000210408100,
    0x8000808002400020,
    0x1030044009201040,
    0x0208808020001008,
    0x1000610029001001,
    0x1028010009001035,
    0x0201010008620400,
    0x48a0440008012210,
    0x80200200004100a4,
    0x8000400080009020,
    0x0810200040100142,
    0x8001004100200070,
    0x4400210100100208,
    0x000900c500102800,
    0x0882000280040080,
    0xe180022400880110,
    0x4004006200140881,
    0x0401204002801180,
    0x0004a00580804006,
    0x0206802001801000,
    0x0012001022004088,
    0x1208480080800c00,
    0x4000808e00804400,
    0x0200aa0884003001,
    0x400800e102000084,
    0x0a0020400c808000,
    0x010050002000c009,
    0x0401064020010010,
    0x0910011100090020,
    0x0002040008008080,
    0x00820004080a0010,
    0x0402000411060098,
    0x0b08010080c2000c,
    0x0405800020400180,
    0x2102c00900886500,
    0x3200401020010100,
    0x0000884010220200,
    0x8408980080340080,
    0x600c010040020040,
    0x0200620110880400,
    0x1640028400c90200,
    0x0802004411008022,
    0x0000211281004005,
    0x60400a0083204012,
    0x400200203004400a,
    0x0002000448306002,
    0x0002008804011002,
    0x0040080090210244,
    0x0000002048840102,
];

/// The multiplier of each square for bishop lookups.
pub const BISHOP_MAGIC_NUMBERS: [u64; 64] = [
    0x1004013002048100,
    0xe090010204004200,
    0x001004048026201a,
    0x4124040088402400,
    0x0001104000021a0c,
    0x20010412400a0800,
    0x00004c0208404000,
    0x0002004100882000,
    0x9110062042040100,
    0x0800100204811210,
    0x40080806040c2080,
    0x0844110402800510,
    0x1000020610040191,
    0x28c0008804410220,
    0x004000440c204800,
    0x000000441c140a00,
    0x2810404010025884,
    0x0004006011040900,
    0x2050000804404028,
    0x0008040082084002,
    0x000102a820180104,
    0x0222003098040222,
    0x0240431108081480,
    0x4220488212440401,
    0x2020900254100200,
    0x00700c0090040088,
    0x00840242100110c0,
    0x4400404004010200,
    0x1802840001802000,
    0x0010108011018880,
    0x060200400228060c,
    0x0141091000440088,
    0x0c10101840300314,
    0x2481012000080802,
    0x020b080201010c02,
    0x0200220082480180,
    0x0178010040140224,
    0x8020104480010084,
    0x1030025082304400,
    0x20044408a4008085,
    0x0908281806080810,
    0x0a20880410002200,
    0x8002005144204800,
    0x00a0404200842800,
    0x100d8c050c000204,
    0x0001500102000240,
    0x8022020214224200,
    0x0088710404203089,
    0x2401042220640582,
    0x4004220804144000,
    0x2000010409044040,
    0x0100480020a81010,
    0x0900000861090020,
    0x8000042004011080,
    0x01a0a20a02042104,
    0x5802040800851020,
    0x4008210808046200,
    0x1021102101101002,
    0x0510000304030440,
    0x8400094102460802,
    0x80000008100a0200,
    0x0000005c20342442,
    0x00c0084801040414,
    0x0040100200410062,
];

/// What a lookup for one square needs: the multiplier, the mask of blockers
/// that matter, where the square's entries begin, and how many index bits it
/// has.
#[derive(Clone, Copy, Debug, PartialEq, Eq)]
pub struct Magic {
    pub magic: u64,
    pub mask: u64,
    pub offset: usize,
    pub bits: u32,
}

/// `k` is a square of a rook's ray from `a` that is not the last of its ray.
pub open spec fn rook_inner(a: u8, k: u8) -> bool {
    ||| on_ray(a, k, 0, 1) && k / 8 != 7
    ||| on_ray(a, k, 0, -1) && k / 8 != 0
    ||| on_ray(a, k, 1, 0) && k % 8 != 7
    ||| on_ray(a, k, -1, 0) && k % 8 != 0
}

/// `k` is a square of a bishop's ray from `a` that is not on the rim.
pub open spec fn bishop_inner(a: u8, k: u8) -> bool {
    &&& k / 8 != 0 && k / 8 != 7 && k % 8 != 0 && k % 8 != 7
    &&& on_ray(a, k, 1, 1) || on_ray(a, k, -1, 1) || on_ray(a, k, 1, -1) || on_ray(a, k, -1, -1)
}

/// The blockers that matter to a rook on `a`: its rays without their last squares.
pub open spec fn rook_mask_spec(a: u8) -> u64 {
    board_of(|k: u8| rook_inner(a, k))
}

/// The blockers that matter to a bishop on `a`: its rays without the rim.
pub open spec fn bishop_mask_spec(a: u8) -> u64 {
    board_of(|k: u8| bishop_inner(a, k))
}

/// On an empty board a ray reaches every square that lies on it.
proof fn lemma_ray_empty(a: u8, k: u8, df: int, dr: int)
    requires
        k < 64,
    ensures
        ray_sees(a, k, df, dr, 0) == on_ray(a, k, df, dr),
{
    assert forall|j: u8| j < 64 implies !holds(0, j) by {
        lemma_holds_ops(0, 0, j);
    }
}

/// Membership in each of the four rim boards.
proof fn lemma_rims(k: u8)
    requires
        k < 64,
    ensures
        holds(RANK_8, k) == (k / 8 == 7),
        holds(RANK_1, k) == (k / 8 == 0),
        holds(FILE_H, k) == (k % 8 == 7),
        holds(FILE_A, k) == (k % 8 == 0),
{
    assert({
        &&& (0xff00000000000000u64 & (1u64 << k) != 0) == (k / 8 == 7)
        &&& (0x00000000000000ffu64 & (1u64 << k) != 0) == (k / 8 == 0)
        &&& (0x8080808080808080u64 & (1u64 << k) != 0) == (k % 8 == 7)
        &&& (0x0101010101010101u64 & (1u64 << k) != 0) == (k % 8 == 0)
    }) by (bit_vector)
        requires
            k < 64,
    ;
}

/// The blockers that matter to a rook on `square`.
pub fn rook_mask(square: u8) -> (result: u64)
    requires
        square < 64,
    ensures
        result == rook_mask_spec(square),
{
    let north: u64 = ray_attack(square, 0, 1, 0);
    let south: u64 = ray_attack(square, 0, -1, 0);
    let east: u64 = ray_attack(square, 1, 0, 0);
    let west: u64 = ray_attack(square, -1, 0, 0);
    let n: u64 = north & !RANK_8;
    let s: u64 = south & !RANK_1;
    let e: u64 = east & !FILE_H;
    let w: u64 = west & !FILE_A;
    let result: u64 = n | s | e | w;
    proof {
        assert forall|k: u8| k < 64 implies holds(result, k) == rook_inner(square, k) by {
            lemma_rims(k);
            lemma_ray_empty(square, k, 0, 1);
            lemma_ray_empty(square, k, 0, -1);
            lemma_ray_empty(square, k, 1, 0);
            lemma_ray_empty(square, k, -1, 0);
            lemma_holds_ops(north, !RANK_8, k);
            lemma_holds_ops(south, !RANK_1, k);
            lemma_holds_ops(east, !FILE_H, k);
            lemma_holds_ops(west, !FILE_A, k);
            lemma_holds_ops(RANK_8, RANK_1, k);
            lemma_holds_ops(RANK_1, RANK_8, k);
            lemma_holds_ops(FILE_H, FILE_A, k);
            lemma_holds_ops(FILE_A, FILE_H, k);
            lemma_holds_ops(n, s, k);
            lemma_holds_ops(n | s, e, k);
            lemma_holds_ops(n | s | e, w, k);
        }
        lemma_board_of(result, |k: u8| rook_inner(square, k));
    }
    result
}

/// The blockers that matter to a bishop on `square`.
pub fn bishop_mask(square: u8) -> (result: u64)
    requires
        square < 64,
    ensures
        result == bishop_mask_spec(square),
{
    let ne: u64 = ray_attack(square, 1, 1, 0);
    let nw: u64 = ray_attack(square, -1, 1, 0);
    let se: u64 = ray_attack(square, 1, -1, 0);
    let sw: u64 = ray_attack(square, -1, -1, 0);
    let rim: u64 = RANK_1 | RANK_8 | FILE_A | FILE_H;
    let result: u64 = (ne | nw | se | sw) & !rim;
    proof {
        assert forall|k: u8| k < 64 implies holds(result, k) == bishop_inner(square, k) by {
            lemma_rims(k);
            lemma_ray_empty(square, k, 1, 1);
            lemma_ray_empty(square, k, -1, 1);
            lemma_ray_empty(square, k, 1, -1);
            lemma_ray_empty(square, k, -1, -1);
            lemma_holds_ops(RANK_1, RANK_8, k);
            lemma_holds_ops(RANK_1 | RANK_8, FILE_A, k);
            lemma_holds_ops(RANK_1 | RANK_8 | FILE_A, FILE_H, k);
            lemma_holds_ops(rim, rim, k);
            lemma_holds_ops(ne, nw, k);
            lemma_holds_ops(ne | nw, se, k);
            lemma_holds_ops(ne | nw | se, sw, k);
            lemma_holds_ops(ne | nw | se | sw, !rim, k);
        }
        lemma_board_of(result, |k: u8| bishop_inner(square, k));
    }
    result
}

/// Blockers outside the mask do not change what a rook attacks.
pub proof fn lemma_rook_mask_enough(a: u8, blockers: u64)
    requires
        a < 64,
    ensures
        rook_attack_spec(a, blockers & rook_mask_spec(a)) == rook_attack_spec(a, blockers),
{
    let mask = rook_mask_spec(a);
    let masked = blockers & mask;
    assert forall|j: u8| j < 64 implies holds(masked, j) == (holds(blockers, j) && rook_inner(a, j)) by {
        lemma_holds_ops(blockers, mask, j);
        crate::bitboard::lemma_board_below(|k: u8| rook_inner(a, k), 64, j);
    }
    assert forall|k: u8| k < 64 implies rook_sees(a, k, masked) == rook_sees(a, k, blockers) by {
        lemma_ray_masked(a, k, 0, 1, blockers, masked);
        lemma_ray_masked(a, k, 0, -1, blockers, masked);
        lemma_ray_masked(a, k, 1, 0, blockers, masked);
        lemma_ray_masked(a, k, -1, 0, blockers, masked);
    }
    assert forall|k: u8| k < 64 implies holds(rook_attack_spec(a, masked), k) == holds(
        rook_attack_spec(a, blockers),
        k,
    ) by {
        crate::bitboard::lemma_board_below(|k: u8| rook_sees(a, k, masked), 64, k);
        crate::bitboard::lemma_board_below(|k: u8| rook_sees(a, k, blockers), 64, k);
    }
    crate::bitboard::lemma_board_ext(rook_attack_spec(a, masked), rook_attack_spec(a, blockers));
}

/// Blockers outside the mask do not change what a bishop attacks.
pub proof fn lemma_bishop_mask_enough(a: u8, blockers: u64)
    requires
        a < 64,
    ensures
        bishop_attack_spec(a, blockers & bishop_mask_spec(a)) == bishop_attack_spec(a, blockers),
{
    let mask = bishop_mask_spec(a);
    let masked = blockers & mask;
    assert forall|j: u8| j < 64 implies holds(masked, j) == (holds(blockers, j) && bishop_inner(a, j)) by {
        lemma_holds_ops(blockers, mask, j);
        crate::bitboard::lemma_board_below(|k: u8| bishop_inner(a, k), 64, j);
    }
    assert forall|k: u8| k < 64 implies bishop_sees(a, k, masked) == bishop_sees(a, k, blockers) by {
        lemma_ray_masked(a, k, 1, 1, blockers, masked);
        lemma_ray_masked(a, k, -1, 1, blockers, masked);
        lemma_ray_masked(a, k, 1, -1, blockers, masked);
        lemma_ray_masked(a, k, -1, -1, blockers, masked);
    }
    assert forall|k: u8| k < 64 implies holds(bishop_attack_spec(a, masked), k) == holds(
        bishop_attack_spec(a, blockers),
        k,
    ) by {
        crate::bitboard::lemma_board_below(|k: u8| bishop_sees(a, k, masked), 64, k);
        crate::bitboard::lemma_board_below(|k: u8| bishop_sees(a, k, blockers), 64, k);
    }
    crate::bitboard::lemma_board_ext(bishop_attack_spec(a, masked), bishop_attack_spec(a, blockers));
}

/// Two sets of blockers that agree on every square of a ray but its last
/// give the same attacks along it.
proof fn lemma_ray_masked(a: u8, k: u8, df: int, dr: int, blockers: u64, masked: u64)
    requires
        a < 64,
        k < 64,
        -1 <= df <= 1,
        -1 <= dr <= 1,
        df != 0 || dr != 0,
        on_ray(a, k, df, dr) ==> forall|j: u8|
            j < 64 && on_ray(a, j, df, dr) && dist(a, j) < dist(a, k) ==> holds(masked, j) == holds(
                blockers,
                j,
            ),
    ensures
        ray_sees(a, k, df, dr, masked) == ray_sees(a, k, df, dr, blockers),
{
}

/// The squares that a rook (`rook`) or a bishop on `a` attacks.
pub open spec fn slider_attack_spec(rook: bool, a: u8, blockers: u64) -> u64 {
    if rook {
        rook_attack_spec(a, blockers)
    } else {
        bishop_attack_spec(a, blockers)
    }
}

/// The blockers that matter to a rook (`rook`) or a bishop on `a`.
pub open spec fn slider_mask_spec(rook: bool, a: u8) -> u64 {
    if rook {
        rook_mask_spec(a)
    } else {
        bishop_mask_spec(a)
    }
}

/// How many entries a square with `bits` index bits has.
pub open spec fn span(bits: u32) -> int {
    (1u64 << bits) as int
}

/// The entry that answers for the blockers `subset`, which lie within the mask.
pub open spec fn subset_slot(m: Magic, subset: u64) -> int {
    (m.magic.wrapping_mul(subset) >> ((64 - m.bits) as u32)) as int + m.offset
}

/// The entry that answers for the occupancy `occ`.
pub open spec fn slot(m: Magic, occ: u64) -> int {
    subset_slot(m, occ & m.mask)
}

/// The entry for `subset` holds what the slider attacks from `a` with those
/// blockers, and that is not nothing.
pub open spec fn entry_ok(attacks: Seq<u64>, m: Magic, rook: bool, a: u8, subset: u64) -> bool {
    &&& 0 <= subset_slot(m, subset) < attacks.len()
    &&& attacks[subset_slot(m, subset)] == slider_attack_spec(rook, a, subset)
    &&& attacks[subset_slot(m, subset)] != 0
}

/// The entries of square `i` lie within the table, and before those of every later square.
pub open spec fn laid_out(magics: Seq<Magic>, n: int, total: int) -> bool {
    &&& forall|i: int|
        0 <= i < n ==> 1 <= (#[trigger] magics[i]).bits <= 12 && magics[i].offset + span(magics[i].bits)
            <= total
    &&& forall|i: int, j: int|
        0 <= i < j < n ==> (#[trigger] magics[i]).offset + span(magics[i].bits) <= (
        #[trigger] magics[j]).offset
}

/// An index of at most twelve bits lies within the span of its square.
proof fn lemma_span(x: u64, bits: u32)
    requires
        1 <= bits <= 12,
    ensures
        0 <= (x >> ((64 - bits) as u32)) < span(bits),
        2 <= span(bits) <= 4096,
{
    let shift: u32 = (64 - bits) as u32;
    assert((x >> shift) < (1u64 << bits) && 2 <= (1u64 << bits) && (1u64 << bits) <= 4096) by (bit_vector)
        requires
            1 <= bits <= 12,
            shift == 64 - bits,
    ;
}

/// The subset of `m` that follows `s` in the order of their values, and what
/// makes it the next one.
proof fn lemma_next_subset(s: u64, m: u64, u: u64)
    requires
        s & !m == 0,
        s != m,
        u & !m == 0,
    ensures
        (s | !m) + 1 <= u64::MAX,
        (((s | !m) + 1) as u64 & m) & !m == 0,
        ((s | !m) + 1) as u64 & m > s,
        u > s ==> u >= ((s | !m) + 1) as u64 & m,
{
    assert({
        &&& (s | !m) + 1 <= 0xffff_ffff_ffff_ffffu64
        &&& (((s | !m) + 1) as u64 & m) & !m == 0
        &&& ((s | !m) + 1) as u64 & m > s
        &&& u > s ==> u >= ((s | !m) + 1) as u64 & m
    }) by (bit_vector)
        requires
            s & !m == 0,
            s != m,
            u & !m == 0,
    ;
}

/// A subset of a mask is no greater than the mask, and masking leaves it as it is.
proof fn lemma_subset(u: u64, m: u64)
    ensures
        u & !m == 0 ==> u <= m && u & m == u,
        (u & m) & !m == 0,
        0u64 & !m == 0,
{
    assert((u & !m == 0 ==> u <= m && u & m == u) && (u & m) & !m == 0 && 0u64 & !m == 0) by (bit_vector);
}

/// The number of squares on a board.
pub fn count_bits(x: u64) -> (n: u32)
    ensures
        n <= 64,
        (n == 0) == (x == 0),
{
    let mut rest: u64 = x;
    let mut n: u32 = 0;
    while rest != 0 && n < 64
        invariant
            n <= 64,
            (n == 0) ==> rest == x,
            n > 0 ==> x != 0,
        decreases rest,
    {
        rest = reset_lsb(rest);
        n = n + 1;
    }
    n
}

/// The lookup data of all squares from their multipliers: each square gets
/// its mask, as many index bits as the mask has squares (at least one, at most
/// twelve), and the entries that follow those of the square before.
pub fn magics(numbers: &[u64; 64], rook: bool) -> (result: (Vec<Magic>, usize))
    ensures
        result.0.len() == 64,
        laid_out(result.0@, 64, result.1 as int),
        result.1 <= 64 * 4096,
        forall|i: int|
            0 <= i < 64 ==> (#[trigger] result.0[i]).mask == slider_mask_spec(rook, i as u8) && result.0[i].magic
                == numbers[i],
{
    let mut out: Vec<Magic> = Vec::with_capacity(64);
    let mut offset: usize = 0;
    let mut i: usize = 0;
    while i < 64
        invariant
            i <= 64,
            out.len() == i,
            offset <= i * 4096,
            laid_out(out@, i as int, offset as int),
            forall|j: int|
                0 <= j < i ==> (#[trigger] out[j]).mask == slider_mask_spec(rook, j as u8) && out[j].magic
                    == numbers[j],
        decreases 64 - i,
    {
        let mask: u64 = if rook {
            rook_mask(i as u8)
        } else {
            bishop_mask(i as u8)
        };
        let counted: u32 = count_bits(mask);
        let bits: u32 = if counted < 1 {
            1
        } else if counted > 12 {
            12
        } else {
            counted
        };
        proof {
            lemma_span(0, bits);
        }
        let size: usize = (1u64 << bits) as usize;
        let m = Magic { magic: numbers[i], mask, offset, bits };
        let ghost before = out@;
        out.push(m);
        proof {
            assert forall|a: int, b: int| 0 <= a < b < i + 1 implies (#[trigger] out@[a]).offset + span(
                out@[a].bits,
            ) <= (#[trigger] out@[b]).offset by {
                assert(out@[a] == before[a]);
                if b < i {
                    assert(out@[b] == before[b]);
                }
            }
            assert forall|a: int| 0 <= a < i + 1 implies 1 <= (#[trigger] out@[a]).bits <= 12 && out@[a].offset
                + span(out@[a].bits) <= offset + size by {
                if a < i {
                    assert(out@[a] == before[a]);
                }
            }
        }
        offset = offset + size;
        i = i + 1;
    }
    (out, offset)
}

/// The entry for the blockers `u` can take their attacks: the attacks are
/// not nothing, and the entry is empty or holds them already.
pub open spec fn free_for(before: Seq<u64>, m: Magic, rook: bool, a: u8, u: u64) -> bool {
    &&& slider_attack_spec(rook, a, u) != 0
    &&& before[subset_slot(m, u)] == 0 || before[subset_slot(m, u)] == slider_attack_spec(rook, a, u)
}

/// Two sets of blockers that fall on one entry have the same attacks.
pub open spec fn agree(m: Magic, rook: bool, a: u8, u: u64, v: u64) -> bool {
    subset_slot(m, u) == subset_slot(m, v) ==> slider_attack_spec(rook, a, u) == slider_attack_spec(
        rook,
        a,
        v,
    )
}

/// The multiplier serves its square on the entries `before`: every set of
/// blockers within the mask finds its entry free, and no two sets with
/// different attacks fall on one entry.
pub open spec fn serves(before: Seq<u64>, m: Magic, rook: bool, a: u8) -> bool {
    &&& forall|u: u64| u & !m.mask == 0 ==> #[trigger] free_for(before, m, rook, a, u)
    &&& forall|u: u64, v: u64|
        u & !m.mask == 0 && v & !m.mask == 0 ==> #[trigger] agree(m, rook, a, u, v)
}

/// The entry at `i` is as it was, or holds the attacks of a set of blockers
/// within the mask that falls on it.
pub open spec fn came_from(now: Seq<u64>, before: Seq<u64>, m: Magic, rook: bool, a: u8, i: int) -> bool {
    now[i] == before[i] || exists|u: u64|
        u & !m.mask == 0 && #[trigger] subset_slot(m, u) == i && now[i] == slider_attack_spec(rook, a, u)
}

/// Fills the entries of one square: for every set of blockers within the mask
/// the attacks that the rays give. Returns whether the multiplier served: every
/// set found its entry free, and no two sets with different attacks fell on
/// one entry. Where it did, every entry of the square holds its attacks; where
/// it did not, the square is answered by walking the rays.
fn fill_square(attacks: &mut Vec<u64>, m: Magic, rook: bool, square: u8) -> (ok: bool)
    requires
        square < 64,
        1 <= m.bits <= 12,
        m.offset + span(m.bits) <= old(attacks).len(),
    ensures
        final(attacks).len() == old(attacks).len(),
        forall|i: int|
            0 <= i < old(attacks).len() && !(m.offset <= i < m.offset + span(m.bits)) ==> final(attacks)[i]
                == old(attacks)[i],
        ok == serves(old(attacks)@, m, rook, square),
        ok ==> forall|u: u64| u & !m.mask == 0 ==> entry_ok(final(attacks)@, m, rook, square, u),
{
    let mut s: u64 = 0;
    let mut done: bool = false;
    let mut ok: bool = true;
    let shift: u32 = 64 - m.bits;
    proof {
        lemma_subset(0, m.mask);
    }
    while !done
        invariant
            square < 64,
            1 <= m.bits <= 12,
            shift == 64 - m.bits,
            attacks.len() == old(attacks).len(),
            m.offset + span(m.bits) <= attacks.len(),
            s & !m.mask == 0,
            !done ==> ok,
            done && !ok ==> !serves(old(attacks)@, m, rook, square),
            forall|i: int|
                0 <= i < attacks.len() && !(m.offset <= i < m.offset + span(m.bits)) ==> attacks[i] == old(
                    attacks,
                )[i],
            forall|i: int| 0 <= i < attacks.len() ==> old(attacks)[i] == 0 || old(attacks)[i] == attacks[i],
            forall|i: int|
                0 <= i < attacks.len() ==> #[trigger] came_from(
                    attacks@,
                    old(attacks)@,
                    m,
                    rook,
                    square,
                    i,
                ),
            ok && !done ==> forall|u: u64|
                u & !m.mask == 0 && u < s ==> entry_ok(attacks@, m, rook, square, u),
            ok && done ==> forall|u: u64| u & !m.mask == 0 ==> entry_ok(attacks@, m, rook, square, u),
        decreases (if done { 0int } else { m.mask - s + 1 }),
    {
        let att: u64 = if rook {
            rook_attack(square, s)
        } else {
            bishop_attack(square, s)
        };
        let product: u64 = m.magic.wrapping_mul(s);
        proof {
            lemma_span(product, m.bits);
            lemma_subset(s, m.mask);
        }
        let i: usize = (product >> shift) as usize + m.offset;
        assert(i == subset_slot(m, s));
        let cur: u64 = attacks[i];
        if att == 0 || (cur != 0 && cur != att) {
            proof {
                if att != 0 {
                    assert(came_from(attacks@, old(attacks)@, m, rook, square, i as int));
                    if cur == old(attacks)[i as int] {
                        assert(!free_for(old(attacks)@, m, rook, square, s));
                    } else {
                        let u = choose|u: u64|
                            u & !m.mask == 0 && #[trigger] subset_slot(m, u) == i && attacks@[i as int]
                                == slider_attack_spec(rook, square, u);
                        assert(!agree(m, rook, square, u, s));
                    }
                } else {
                    assert(!free_for(old(attacks)@, m, rook, square, s));
                }
            }
            ok = false;
            done = true;
        } else {
            let ghost before = attacks@;
            attacks[i] = att;
            proof {
                assert forall|u: u64| u & !m.mask == 0 && u <= s implies entry_ok(
                    attacks@,
                    m,
                    rook,
                    square,
                    u,
                ) by {
                    if u < s {
                        assert(entry_ok(before, m, rook, square, u));
                    }
                }
                assert forall|k: int| 0 <= k < attacks.len() implies #[trigger] came_from(
                    attacks@,
                    old(attacks)@,
                    m,
                    rook,
                    square,
                    k,
                ) by {
                    if k == i {
                        assert(s & !m.mask == 0 && subset_slot(m, s) == k && attacks@[k]
                            == slider_attack_spec(rook, square, s));
                    } else {
                        assert(came_from(before, old(attacks)@, m, rook, square, k));
                    }
                }
            }
            if s == m.mask {
                done = true;
                proof {
                    assert forall|u: u64| u & !m.mask == 0 implies entry_ok(attacks@, m, rook, square, u) by {
                        lemma_subset(u, m.mask);
                    }
                }
            } else {
                proof {
                    lemma_next_subset(s, m.mask, 0);
                }
                let t: u64 = ((s | !m.mask) + 1) & m.mask;
                proof {
                    assert forall|u: u64| u & !m.mask == 0 && u < t implies entry_ok(
                        attacks@,
                        m,
                        rook,
                        square,
                        u,
                    ) by {
                        lemma_next_subset(s, m.mask, u);
                    }
                    lemma_subset(t, m.mask);
                }
                s = t;
            }
        }
    }
    proof {
        if ok {
            assert forall|u: u64| u & !m.mask == 0 implies #[trigger] free_for(
                old(attacks)@,
                m,
                rook,
                square,
                u,
            ) by {
                assert(entry_ok(attacks@, m, rook, square, u));
            }
            assert forall|u: u64, v: u64| u & !m.mask == 0 && v & !m.mask == 0 implies #[trigger] agree(
                m,
                rook,
                square,
                u,
                v,
            ) by {
                assert(entry_ok(attacks@, m, rook, square, u));
                assert(entry_ok(attacks@, m, rook, square, v));
            }
        }
    }
    ok
}

/// The attack table of one kind of slider.
pub struct SlidingTable {
    /// The lookup data of each square.
    pub magics: Vec<Magic>,
    /// The entries of all squares, one square after the other.
    pub attacks: Vec<u64>,
    /// For each square, whether its multiplier served when the table was
    /// filled. A square whose multiplier did not is answered by walking the
    /// rays.
    pub exact: Vec<bool>,
    /// Whether the table is that of the rook; else it is that of the bishop.
    pub rook: bool,
}

impl SlidingTable {
    /// The entries of square `sq` are in order: they lie within the table, and
    /// where the multiplier served, each holds the attacks for its blockers.
    pub open spec fn square_ok(self, sq: u8) -> bool {
        let m = self.magics[sq as int];
        &&& 1 <= m.bits <= 12
        &&& m.mask == slider_mask_spec(self.rook, sq)
        &&& m.offset + span(m.bits) <= self.attacks.len()
        &&& self.exact[sq as int] ==> forall|u: u64|
            u & !m.mask == 0 ==> entry_ok(self.attacks@, m, self.rook, sq, u)
    }

    /// Every square is in order.
    pub open spec fn wf(self) -> bool {
        &&& self.magics.len() == 64
        &&& self.exact.len() == 64
        &&& forall|sq: u8| sq < 64 ==> #[trigger] self.square_ok(sq)
    }

    /// Builds the table of the rook (`rook`) or of the bishop.
    pub fn new(rook: bool) -> (table: SlidingTable)
        ensures
            table.wf(),
            table.rook == rook,
    {
        let numbers: [u64; 64] = if rook {
            ROOK_MAGIC_NUMBERS
        } else {
            BISHOP_MAGIC_NUMBERS
        };
        let (magics, total) = magics(&numbers, rook);
        let mut attacks: Vec<u64> = vec![0u64; total];
        let mut exact: Vec<bool> = Vec::with_capacity(64);
        let mut sq: u8 = 0;
        while sq < 64
            invariant
                sq <= 64,
                magics.len() == 64,
                laid_out(magics@, 64, total as int),
                attacks.len() == total,
                exact.len() == sq,
                forall|i: int|
                    0 <= i < 64 ==> (#[trigger] magics[i]).mask == slider_mask_spec(rook, i as u8),
                forall|j: u8, u: u64|
                    j < sq && exact[j as int] && u & !magics[j as int].mask == 0 ==> #[trigger] entry_ok(
                        attacks@,
                        magics[j as int],
                        rook,
                        j,
                        u,
                    ),
            decreases 64 - sq,
        {
            let m: Magic = magics[sq as usize];
            let ghost before = attacks@;
            let ok: bool = fill_square(&mut attacks, m, rook, sq);
            proof {
                assert forall|j: u8, u: u64|
                    j < sq && exact[j as int] && u & !magics[j as int].mask == 0 implies #[trigger] entry_ok(
                    attacks@,
                    magics[j as int],
                    rook,
                    j,
                    u,
                ) by {
                    let mj = magics[j as int];
                    assert(entry_ok(before, mj, rook, j, u));
                    lemma_span(mj.magic.wrapping_mul(u), mj.bits);
                    assert(mj.offset + span(mj.bits) <= m.offset);
                }
            }
            exact.push(ok);
            sq = sq + 1;
        }
        let table = SlidingTable { magics, attacks, exact, rook };
        proof {
            assert forall|q: u8| q < 64 implies #[trigger] table.square_ok(q) by {
                let m = table.magics[q as int];
                if table.exact[q as int] {
                    assert forall|u: u64| u & !m.mask == 0 implies entry_ok(
                        table.attacks@,
                        m,
                        table.rook,
                        q,
                        u,
                    ) by {
                        assert(entry_ok(attacks@, magics[q as int], rook, q, u));
                    }
                }
            }
        }
        table
    }

    /// The squares that the slider attacks from `sq` when `occ` are the
    /// occupied squares.
    pub fn lookup(&self, sq: u8, occ: u64) -> (result: u64)
        requires
            self.wf(),
            sq < 64,
        ensures
            result == slider_attack_spec(self.rook, sq, occ),
    {
        assert(self.square_ok(sq));
        let m: Magic = self.magics[sq as usize];
        if self.exact[sq as usize] {
            let subset: u64 = occ & m.mask;
            let product: u64 = m.magic.wrapping_mul(subset);
            proof {
                lemma_span(product, m.bits);
                lemma_subset(occ, m.mask);
                assert(entry_ok(self.attacks@, m, self.rook, sq, subset));
                if self.rook {
                    lemma_rook_mask_enough(sq, occ);
                } else {
                    lemma_bishop_mask_enough(sq, occ);
                }
            }
            let i: usize = (product >> (64 - m.bits)) as usize + m.offset;
            self.attacks[i]
        } else if self.rook {
            rook_attack(sq, occ)
        } else {
            bishop_attack(sq, occ)
        }
    }
}

} // verus!
