use bernt::movegen::{movegen, Tables};
use bernt::position::{Move, Position};
use bernt::search::update_hash;
use bernt::zobrist::rng::XorShiftState;
use bernt::zobrist::{hash, Keys};

#[test]
fn the_stream_is_the_same_every_time() {
    let mut state = XorShiftState::new();
    assert_eq!(state.next(), 0x54121f9fca7483f1);
    assert_eq!(state.next(), 0x99cddb7ac86f5356);
}

#[test]
fn the_keys_are_taken_from_the_stream_in_order() {
    let keys = Keys::new();
    assert_eq!(keys.pieces.len(), 768);
    assert_eq!(keys.pieces[0], 0x54121f9fca7483f1);
    assert_eq!(keys.pieces[1], 0x99cddb7ac86f5356);
    assert_eq!(keys.black, 0x7fcd89036d7bd849);
    assert_eq!(keys.en_passant[7], 0x3e88d75810f40712);
    assert_eq!(keys.piece(0, bernt::position::PieceColor::White, bernt::position::PieceType::Empty), 0);
}

#[test]
fn the_hash_is_the_xor_of_the_keys() {
    let keys = Keys::new();
    let empty = Position::empty();
    assert_eq!(empty.hash(&keys), 0);
    let black = Position::from_fen("8/8/8/8/8/8/8/8 b - -").unwrap();
    assert_eq!(black.hash(&keys), keys.black);
    let pos = Position::from_fen("4k3/8/8/8/8/8/8/R3K3 b Q a3").unwrap();
    let expected = keys.black
        ^ keys.pieces[0 * 12 + 3]
        ^ keys.pieces[4 * 12 + 5]
        ^ keys.pieces[60 * 12 + 6 + 5]
        ^ keys.castling[0]
        ^ keys.en_passant[0];
    assert_eq!(pos.hash(&keys), expected);
    assert_eq!(hash(&keys, &pos), expected);
}

fn legal_moves(tables: &Tables, pos: &Position) -> Vec<Move> {
    let moves = movegen::<true>(tables, pos);
    (0..moves.len())
        .map(|i| moves.get(i))
        .filter(|m| !pos.make_move(*m).in_check(tables, pos.side))
        .collect()
}

fn walk(tables: &Tables, keys: &Keys, pos: &Position, h: u64, depth: u8, seen: &mut u64) {
    assert_eq!(h, pos.hash(keys));
    *seen += 1;
    if depth == 0 {
        return;
    }
    for m in legal_moves(tables, pos) {
        let next = pos.make_move(m);
        walk(tables, keys, &next, update_hash(keys, h, pos, m), depth - 1, seen);
    }
}

#[test]
fn the_hash_kept_up_is_the_hash_from_scratch() {
    let tables = Tables::new();
    let keys = Keys::new();
    let mut seen = 0;
    for fen in [
        "rnbqkbnr/pppppppp/8/8/8/8/PPPPPPPP/RNBQKBNR w KQkq - 0 1",
        "r3k2r/p1ppqpb1/bn2pnp1/3PN3/1p2P3/2N2Q1p/PPPBBPPP/R3K2R w KQkq - 0 1",
        "r3k2r/Pppp1ppp/1b3nbN/nP6/BBP1P3/q4N2/Pp1P2PP/R2Q1RK1 w kq - 0 1",
        "8/2p5/3p4/KP5r/1R3p1k/8/4P1P1/8 w - - 0 1",
        "rnbqkbnr/ppp1pppp/8/8/3pP3/8/PPPP1PPP/RNBQKBNR b KQkq e3 0 2",
    ] {
        let pos = Position::from_fen(fen).unwrap();
        walk(&tables, &keys, &pos, pos.hash(&keys), 3, &mut seen);
    }
    assert!(seen > 100_000);
}
