use bernt::bitboard::{east, north, south, west, BitIter, FILE_A, FILE_H, RANK_1, RANK_8};
use bernt::movegen::king::{king_attack, lookup_king};
use bernt::movegen::knight::{knight_attack, single_knight_moves};
use bernt::movegen::sliding::magic::{
    bishop_attack, bishop_mask, count_bits, ray_attack, rook_attack, rook_mask, SlidingTable,
};
use bernt::movegen::sliding::{single_bishop_moves, single_rook_moves};
use bernt::movegen::{pawn_attack, single_pawn_attacks, Tables};
use bernt::position::PieceColor;
use bernt::zobrist::rng::XorShiftState;

#[test]
fn shifts_drop_what_leaves_the_board() {
    assert_eq!(north(RANK_8 | 1), 1 << 8);
    assert_eq!(south(RANK_1 | 1 << 63), 1 << 55);
    assert_eq!(east(FILE_H | 1), 2);
    assert_eq!(west(FILE_A | 2), 1);
    assert_eq!(north(0x00ff_0000_0000_0000), RANK_8);
    assert_eq!(west(east(0x7e)), 0x7e);
}

#[test]
fn squares_come_out_lowest_first() {
    let mut it = BitIter(0x8000_0000_0000_0411);
    assert_eq!(it.next(), Some(0));
    assert_eq!(it.next(), Some(4));
    assert_eq!(it.next(), Some(10));
    assert_eq!(it.next(), Some(63));
    assert_eq!(it.next(), None);
    assert_eq!(it.next(), None);
    assert_eq!(count_bits(0x8000_0000_0000_0411), 4);
    assert_eq!(count_bits(0), 0);
    assert_eq!(count_bits(u64::MAX), 64);
}

#[test]
fn rays_stop_at_the_first_blocker() {
    assert_eq!(ray_attack(0, 0, 1, 0), 0x0101_0101_0101_0100);
    assert_eq!(ray_attack(0, 0, 1, 1 << 24), 0x0000_0000_0101_0100);
    assert_eq!(ray_attack(0, 1, 1, 1 << 63), 0x8040_2010_0804_0200);
    assert_eq!(ray_attack(0, -1, 0, 0), 0);
    assert_eq!(ray_attack(27, -1, -1, 1 << 9), 1 << 18 | 1 << 9);
    assert_eq!(rook_attack(27, 0), 0x0808_0808_f708_0808);
    assert_eq!(rook_attack(27, 1 << 19 | 1 << 29), 0x0808_0808_3708_0000);
    assert_eq!(bishop_attack(27, 0), 0x8041_2214_0014_2241);
    assert_eq!(bishop_attack(0, 1 << 9), 1 << 9);
}

#[test]
fn masks_leave_the_ends_of_the_rays_out() {
    assert_eq!(rook_mask(0), 0x0001_0101_0101_017e);
    assert_eq!(rook_mask(27), 0x0008_0808_7608_0800);
    assert_eq!(bishop_mask(0), 0x0040_2010_0804_0200);
    assert_eq!(bishop_mask(27), 0x0040_2214_0014_2200);
    assert_eq!(count_bits(rook_mask(63)), 12);
    assert_eq!(count_bits(bishop_mask(36)), 9);
}

#[test]
fn steps_of_king_knight_and_pawn() {
    assert_eq!(king_attack(0), 0x0302);
    assert_eq!(king_attack(27), 0x0000_001c_141c_0000);
    assert_eq!(king_attack(63), 0x40c0_0000_0000_0000);
    assert_eq!(knight_attack(0), 0x0002_0400);
    assert_eq!(knight_attack(27), 0x0000_1422_0022_1400);
    assert_eq!(pawn_attack(PieceColor::White, 8), 1 << 17);
    assert_eq!(pawn_attack(PieceColor::White, 12), 1 << 19 | 1 << 21);
    assert_eq!(pawn_attack(PieceColor::Black, 12), 1 << 3 | 1 << 5);
    assert_eq!(pawn_attack(PieceColor::White, 60), 0);
    assert_eq!(pawn_attack(PieceColor::Black, 7), 0);
}

#[test]
fn every_multiplier_serves() {
    let rook = SlidingTable::new(true);
    let bishop = SlidingTable::new(false);
    assert!(rook.exact.iter().all(|ok| *ok));
    assert!(bishop.exact.iter().all(|ok| *ok));
    assert_eq!(rook.attacks.len(), 102400);
    assert_eq!(bishop.attacks.len(), 5248);
    assert_eq!(rook.magics[0].bits, 12);
    assert_eq!(rook.magics[0].offset, 0);
    assert_eq!(rook.magics[1].offset, 4096);
    assert_eq!(rook.magics[0].magic, 0x40800020c0008074);
    assert_eq!(bishop.magics[63].magic, 0x0040100200410062);
}

#[test]
fn lookups_answer_as_the_rays_do() {
    let tables = Tables::new();
    let mut rng = XorShiftState::new();
    for _ in 0..2000 {
        let occ = rng.next() & rng.next();
        for sq in 0..64u8 {
            assert_eq!(tables.rook.lookup(sq, occ), rook_attack(sq, occ));
            assert_eq!(tables.bishop.lookup(sq, occ), bishop_attack(sq, occ));
        }
    }
    for sq in 0..64u8 {
        assert_eq!(lookup_king(&tables, sq), king_attack(sq));
        assert_eq!(single_knight_moves(&tables, sq), knight_attack(sq));
        assert_eq!(single_pawn_attacks(&tables, sq, PieceColor::White), pawn_attack(PieceColor::White, sq));
        assert_eq!(single_pawn_attacks(&tables, sq, PieceColor::Black), pawn_attack(PieceColor::Black, sq));
    }
}

#[test]
fn a_slider_does_not_move_onto_its_own_side() {
    let tables = Tables::new();
    let us = 1u64 << 27 | 1 << 29 | 1 << 9;
    let them = 1u64 << 19 | 1 << 45;
    assert_eq!(single_rook_moves(&tables, 27, us, them), 0x0808_0808_1708_0000);
    assert_eq!(single_bishop_moves(&tables, 27, us, them), 0x0001_2214_0014_2040);
}
