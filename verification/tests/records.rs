use bernt::marlinformat::PackedBoard;
use bernt::position::{PieceColor, Position, NO_SQUARE};

fn fen(text: &str) -> Position {
    Position::from_fen(text).unwrap()
}

#[test]
fn the_start_packs_into_the_known_record() {
    let packed = PackedBoard::pack(&Position::startpos(), 1, 13, 2, 0);
    assert_eq!(packed.occupied(), 0xffff00000000ffff);
    assert_eq!(packed.pieces(), 0xe9adca9e_88888888_00000000_61254216u128);
    assert!(!packed.stm());
    assert_eq!(packed.ep_square(), NO_SQUARE);
    assert_eq!(packed.halfmove(), 0);
    assert_eq!(packed.fullmove(), 1);
    assert_eq!(packed.eval(), 13);
    assert_eq!(packed.wdl(), 2);
    assert_eq!(packed.extra(), 0);
}

#[test]
fn the_score_is_cut_to_sixteen_bits() {
    let pos = Position::startpos();
    assert_eq!(PackedBoard::pack(&pos, 0, 40000, 0, 0).eval(), 32767);
    assert_eq!(PackedBoard::pack(&pos, 0, -40000, 0, 0).eval(), -32768);
    assert_eq!(PackedBoard::pack(&pos, 0, -32768, 0, 0).eval(), -32768);
    assert_eq!(PackedBoard::pack(&pos, 0, -5, 0, 0).eval(), -5);
}

#[test]
fn unpacking_gives_the_position_back() {
    for text in [
        "rnbqkbnr/pppppppp/8/8/8/8/PPPPPPPP/RNBQKBNR w KQkq - 0 1",
        "r3k2r/p1ppqpb1/bn2pnp1/3PN3/1p2P3/2N2Q1p/PPPBBPPP/R3K2R b Kq - 11 1",
        "rnbqkbnr/ppp1pppp/8/8/3pP3/8/PPPP1PPP/RNBQKBNR b KQkq e3 0 2",
        "8/2p5/3p4/KP5r/1R3p1k/8/4P1P1/8 w - - 99 1",
        "8/8/8/8/8/8/8/8 b - - 0 1",
    ] {
        let pos = fen(text);
        let packed = PackedBoard::pack(&pos, 77, -123, 1, 9);
        let (back, fullmove, eval, wdl, extra) = PackedBoard::unpack(packed).unwrap();
        assert_eq!(back, pos);
        assert_eq!((fullmove, eval, wdl, extra), (77, -123, 1, 9));
        let again = PackedBoard::pack(&back, fullmove, eval as i32, wdl, extra);
        assert_eq!(again, packed);
    }
}

#[test]
fn a_record_survives_its_bytes() {
    let pos = fen("r3k2r/p1ppqpb1/bn2pnp1/3PN3/1p2P3/2N2Q1p/PPPBBPPP/R3K2R b Kq - 11 1");
    let packed = PackedBoard::pack(&pos, 0x1234, -2, 2, 0xab);
    let bytes = packed.to_bytes();
    assert_eq!(PackedBoard::from_bytes(&bytes), packed);
    assert_eq!(&bytes[0..8], &0x917d731812a4ff91u64.to_le_bytes());
    assert_eq!(&bytes[8..24], &packed.pieces().to_le_bytes());
    assert_eq!(bytes[24], 0x80 | 64);
    assert_eq!(bytes[25], 11);
    assert_eq!(&bytes[26..28], &[0x34, 0x12]);
    assert_eq!(&bytes[28..30], &[0xfe, 0xff]);
    assert_eq!(bytes[30], 2);
    assert_eq!(bytes[31], 0xab);
}

#[test]
fn bytes_unpack_to_the_position_they_describe() {
    let mut bytes = [0u8; 32];
    bytes[0] = 0b1001_0001;
    bytes[7] = 0b0001_0000;
    bytes[8] = 0x56;
    bytes[9] = 0xd6;
    bytes[24] = 64;
    bytes[25] = 3;
    bytes[28] = 10;
    let packed = PackedBoard::from_bytes(&bytes);
    let (pos, fullmove, eval, wdl, extra) = PackedBoard::unpack(packed).unwrap();
    assert_eq!(pos, fen("4k3/8/8/8/8/8/8/R3K2R w KQ - 3 1"));
    assert_eq!((fullmove, eval, wdl, extra), (0, 10, 0, 0));
    assert_eq!(PackedBoard::pack(&pos, fullmove, eval as i32, wdl, extra).to_bytes(), bytes);
}

#[test]
fn a_kind_that_does_not_exist_is_not_unpacked() {
    let mut packed = PackedBoard::pack(&Position::empty(), 0, 0, 0, 0);
    packed.set_occupied(1);
    packed.set_pieces(7);
    assert!(PackedBoard::unpack(packed).is_none());
    packed.set_pieces(15);
    assert!(PackedBoard::unpack(packed).is_none());
    packed.set_pieces(5);
    assert!(PackedBoard::unpack(packed).is_some());
    packed.set_occupied(u64::MAX);
    packed.set_pieces(0);
    assert!(PackedBoard::unpack(packed).is_none());
}

#[test]
fn setters_change_their_field_alone() {
    let mut packed = PackedBoard::pack(&Position::startpos(), 1, 2, 0, 0);
    let before = packed;
    packed.set_stm(true);
    assert!(packed.stm());
    assert_eq!(packed.ep_square(), NO_SQUARE);
    packed.set_ep_square(20);
    assert!(packed.stm());
    assert_eq!(packed.ep_square(), 20);
    packed.set_ep_square(0xff);
    assert_eq!(packed.ep_square(), 0x7f);
    packed.set_stm(false);
    assert!(!packed.stm());
    packed.set_ep_square(NO_SQUARE);
    assert_eq!(packed, before);
    packed.set_halfmove(9);
    packed.set_fullmove(300);
    packed.set_eval(-7);
    packed.set_wdl(1);
    packed.set_extra(5);
    assert_eq!(
        (packed.halfmove(), packed.fullmove(), packed.eval(), packed.wdl(), packed.extra()),
        (9, 300, -7, 1, 5)
    );
    assert_eq!(packed.occupied(), before.occupied());
    assert_eq!(packed.pieces(), before.pieces());
}

#[test]
fn the_side_to_move_is_bit_seven() {
    let white = PackedBoard::pack(&fen("8/8/8/8/8/8/8/8 w - a6 0 1"), 0, 0, 0, 0);
    let black = PackedBoard::pack(&fen("8/8/8/8/8/8/8/8 b - a3 0 1"), 0, 0, 0, 0);
    assert_eq!(white.to_bytes()[24], 40);
    assert_eq!(black.to_bytes()[24], 0x80 | 16);
    assert_eq!(PackedBoard::unpack(black).unwrap().0.side, PieceColor::Black);
}
