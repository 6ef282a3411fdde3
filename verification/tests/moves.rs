use bernt::movegen::{find_move, is_attacking, movegen, Tables};
use bernt::position::{format_sq, Move, MoveFlag, PieceColor, PieceType, Position, NO_SQUARE};

fn play(tables: &Tables, pos: &Position, text: &str) -> Position {
    pos.make_move(find_move(tables, pos, text).unwrap())
}

fn popcount(x: u64) -> u32 {
    x.count_ones()
}

fn consistent(pos: &Position) -> bool {
    let mut union = 0u64;
    for i in 0..6 {
        if union & pos.pieces[i] != 0 {
            return false;
        }
        union |= pos.pieces[i];
    }
    pos.colors[0] & pos.colors[1] == 0 && union == pos.colors[0] | pos.colors[1]
}

#[test]
fn squares_and_moves_are_written_as_the_protocol_has_them() {
    assert_eq!(format_sq(0), "a1");
    assert_eq!(format_sq(7), "h1");
    assert_eq!(format_sq(28), "e4");
    assert_eq!(format_sq(63), "h8");
    assert_eq!(Move::new(12, 28, MoveFlag::DOUBLE_PAWN, PieceType::Pawn).uci(), "e2e4");
    assert_eq!(Move::new(52, 60, MoveFlag::PROMO, PieceType::Pawn).uci(), "e7e8n");
    assert_eq!(Move::new(52, 61, MoveFlag::PROMO | MoveFlag::CAP | 1, PieceType::Pawn).uci(), "e7f8b");
    assert_eq!(Move::new(52, 60, MoveFlag::PROMO | 2, PieceType::Pawn).uci(), "e7e8r");
    assert_eq!(Move::new(52, 60, MoveFlag::PROMO | 3, PieceType::Pawn).uci(), "e7e8q");
    assert_eq!(Move::null_move().uci(), "a1a1");
}

#[test]
fn flags_say_what_a_move_is() {
    let quiet = Move::new(1, 18, MoveFlag::QUIET, PieceType::Knight);
    assert!(!quiet.capture());
    assert_eq!(quiet.promotion(), PieceType::Empty);
    assert_eq!(quiet.landing(), PieceType::Knight);
    let ep = Move::new(36, 43, MoveFlag::EP, PieceType::Pawn);
    assert!(ep.capture());
    let promo = Move::new(52, 61, MoveFlag::PROMO | MoveFlag::CAP | 3, PieceType::Pawn);
    assert!(promo.capture());
    assert_eq!(promo.promotion(), PieceType::Queen);
    assert_eq!(promo.landing(), PieceType::Queen);
    assert_eq!(Move::null_move(), Move::new(0, 0, MoveFlag::QUIET, PieceType::Pawn));
}

#[test]
fn a_double_step_sets_the_target_behind_the_pawn() {
    let tables = Tables::new();
    let pos = play(&tables, &Position::startpos(), "e2e4");
    assert_eq!(pos.en_passant, 20);
    assert_eq!(pos.side, PieceColor::Black);
    assert_eq!(pos.halfmove, 0);
    assert_eq!(pos.pieces[0], 0x00ff00001000ef00);
    let pos = play(&tables, &pos, "g8f6");
    assert_eq!(pos.en_passant, NO_SQUARE);
    assert_eq!(pos.halfmove, 1);
    let pos = play(&tables, &pos, "e4e5");
    let pos = play(&tables, &pos, "d7d5");
    assert_eq!(pos.en_passant, 43);
    let pos = play(&tables, &pos, "e5d6");
    assert_eq!(pos.piece_at(35).ty, PieceType::Empty);
    assert_eq!(pos.piece_at(43).ty, PieceType::Pawn);
    assert_eq!(pos.piece_at(43).color, PieceColor::White);
    assert!(consistent(&pos));
    assert_eq!(popcount(pos.colors[0] | pos.colors[1]), 31);
}

#[test]
fn castling_moves_king_and_rook_and_takes_the_rights() {
    let tables = Tables::new();
    let start = Position::from_fen("r3k2r/8/8/8/8/8/8/R3K2R w KQkq - 0 1").unwrap();
    let short = play(&tables, &start, "e1g1");
    assert_eq!(short.piece_at(6).ty, PieceType::King);
    assert_eq!(short.piece_at(5).ty, PieceType::Rook);
    assert_eq!(short.piece_at(7).ty, PieceType::Empty);
    assert_eq!(short.piece_at(4).ty, PieceType::Empty);
    assert_eq!(short.castling, [[NO_SQUARE, NO_SQUARE], [56, 63]]);
    assert_eq!(short.halfmove, 1);
    let long = play(&tables, &short, "e8c8");
    assert_eq!(long.piece_at(58).ty, PieceType::King);
    assert_eq!(long.piece_at(59).ty, PieceType::Rook);
    assert_eq!(long.piece_at(56).ty, PieceType::Empty);
    assert_eq!(long.castling, [[NO_SQUARE; 2]; 2]);
    assert!(consistent(&long));
}

#[test]
fn rook_moves_and_rook_captures_take_one_right() {
    let tables = Tables::new();
    let start = Position::from_fen("r3k2r/8/8/8/8/8/8/R3K2R w KQkq - 0 1").unwrap();
    let moved = play(&tables, &start, "h1h7");
    assert_eq!(moved.castling, [[0, NO_SQUARE], [56, 63]]);
    let taken = play(&tables, &start, "a1a8");
    assert_eq!(taken.castling, [[NO_SQUARE, 7], [NO_SQUARE, 63]]);
    assert_eq!(taken.halfmove, 0);
    assert_eq!(popcount(taken.pieces[3]), 3);
    assert!(consistent(&taken));
}

#[test]
fn a_promotion_puts_the_new_piece_on_the_board() {
    let tables = Tables::new();
    let start = Position::from_fen("2n1k3/1P6/8/8/8/8/8/4K3 w - - 5 1").unwrap();
    let queen = play(&tables, &start, "b7b8q");
    assert_eq!(queen.piece_at(57).ty, PieceType::Queen);
    assert_eq!(queen.pieces[0], 0);
    assert_eq!(queen.halfmove, 0);
    let knight = play(&tables, &start, "b7c8n");
    assert_eq!(knight.piece_at(58).ty, PieceType::Knight);
    assert_eq!(knight.piece_at(58).color, PieceColor::White);
    assert_eq!(popcount(knight.pieces[1]), 1);
    assert!(consistent(&knight));
}

#[test]
fn passing_flips_the_side_and_keeps_the_board() {
    let pos = Position::from_fen("rnbqkbnr/ppp1pppp/8/8/3pP3/8/PPPP1PPP/RNBQKBNR b KQkq e3 7 2").unwrap();
    let passed = pos.pass();
    assert_eq!(passed.side, PieceColor::White);
    assert_eq!(passed.en_passant, NO_SQUARE);
    assert_eq!(passed.halfmove, 0);
    assert_eq!(passed.pieces, pos.pieces);
    assert_eq!(passed.colors, pos.colors);
    assert_eq!(passed.castling, pos.castling);
}

#[test]
fn a_text_that_no_move_has_changes_nothing() {
    let tables = Tables::new();
    let mut pos = Position::startpos();
    pos.make_move_uci(&tables, "e2e5");
    assert_eq!(pos, Position::startpos());
    pos.make_move_uci(&tables, "");
    assert_eq!(pos, Position::startpos());
    pos.make_move_uci(&tables, "g1f3");
    assert_eq!(pos.piece_at(21).ty, PieceType::Knight);
    assert!(!pos.playable(Move::new(64, 0, 0, PieceType::Pawn)));
    assert!(!pos.playable(Move::new(0, 8, 0, PieceType::Empty)));
    assert!(pos.playable(Move::new(0, 8, 0, PieceType::Rook)));
}

fn every_move_keeps_the_boards(tables: &Tables, pos: &Position, depth: u8) -> u64 {
    assert!(consistent(pos));
    if depth == 0 {
        return 1;
    }
    let moves = movegen::<true>(tables, pos);
    let mut n = 0;
    for i in 0..moves.len() {
        let m = moves.get(i);
        assert!(pos.playable(m));
        let next = pos.make_move(m);
        if next.in_check(tables, pos.side) {
            continue;
        }
        let before = pos.colors[0] | pos.colors[1];
        let after = next.colors[0] | next.colors[1];
        let mut change = 1u64 << m.from;
        if m.flags == MoveFlag::EP {
            change ^= 1 << m.to;
            change ^= 1 << (if pos.side == PieceColor::White { m.to - 8 } else { m.to + 8 });
        } else if m.flags == MoveFlag::CASTLE_LEFT {
            change ^= 1 << m.to | 1 << (m.to - 2) | 1 << (m.to + 1);
        } else if m.flags == MoveFlag::CASTLE_RIGHT {
            change ^= 1 << m.to | 1 << (m.to + 1) | 1 << (m.to - 1);
        } else if !m.capture() {
            change ^= 1 << m.to;
        }
        assert_eq!(after, before ^ change);
        n += every_move_keeps_the_boards(tables, &next, depth - 1);
    }
    n
}

#[test]
fn playing_a_generated_move_keeps_the_boards_in_order() {
    let tables = Tables::new();
    let kiwipete =
        Position::from_fen("r3k2r/p1ppqpb1/bn2pnp1/3PN3/1p2P3/2N2Q1p/PPPBBPPP/R3K2R w KQkq - 0 1")
            .unwrap();
    assert_eq!(every_move_keeps_the_boards(&tables, &kiwipete, 3), 97862);
    let promotions =
        Position::from_fen("r3k2r/Pppp1ppp/1b3nbN/nP6/BBP1P3/q4N2/Pp1P2PP/R2Q1RK1 w kq - 0 1").unwrap();
    assert_eq!(every_move_keeps_the_boards(&tables, &promotions, 3), 9467);
}

fn mirrored(pos: &Position) -> Position {
    let mut flipped = *pos;
    for i in 0..6 {
        flipped.pieces[i] = pos.pieces[i].swap_bytes();
    }
    flipped.colors = [pos.colors[1].swap_bytes(), pos.colors[0].swap_bytes()];
    let turn = |sq: u8| if sq == NO_SQUARE { sq } else { sq ^ 56 };
    flipped.castling = [
        [turn(pos.castling[1][0]), turn(pos.castling[1][1])],
        [turn(pos.castling[0][0]), turn(pos.castling[0][1])],
    ];
    flipped.en_passant = turn(pos.en_passant);
    flipped.side = pos.side.flip();
    flipped
}

fn sorted_moves(tables: &Tables, pos: &Position, turn: bool) -> Vec<(u8, u8, u8, usize)> {
    let moves = movegen::<true>(tables, pos);
    let mut out: Vec<_> = (0..moves.len())
        .map(|i| moves.get(i))
        .map(|m| {
            if turn {
                (m.from ^ 56, m.to ^ 56, m.flags, m.piece.index())
            } else {
                (m.from, m.to, m.flags, m.piece.index())
            }
        })
        .collect();
    out.sort();
    out
}

#[test]
fn the_mirrored_position_has_the_mirrored_moves() {
    let tables = Tables::new();
    for fen in [
        "rnbqkbnr/pppppppp/8/8/8/8/PPPPPPPP/RNBQKBNR w KQkq - 0 1",
        "r3k2r/p1ppqpb1/bn2pnp1/3PN3/1p2P3/2N2Q1p/PPPBBPPP/R3K2R w KQkq - 0 1",
        "r3k2r/Pppp1ppp/1b3nbN/nP6/BBP1P3/q4N2/Pp1P2PP/R2Q1RK1 w kq - 0 1",
        "8/2p5/3p4/KP5r/1R3p1k/8/4P1P1/8 w - - 0 1",
        "rnbqkbnr/ppp1pppp/8/8/3pP3/8/PPPP1PPP/RNBQKBNR b KQkq e3 0 2",
        "rnbq1k1r/pp1Pbppp/2p5/8/2B5/8/PPP1NnPP/RNBQK2R w KQ - 1 8",
    ] {
        let pos = Position::from_fen(fen).unwrap();
        let flipped = mirrored(&pos);
        assert_eq!(mirrored(&flipped), pos);
        assert_eq!(sorted_moves(&tables, &pos, false), sorted_moves(&tables, &flipped, true));
    }
}

#[test]
fn without_quiet_moves_only_captures_are_listed() {
    let tables = Tables::new();
    let pos =
        Position::from_fen("r3k2r/p1ppqpb1/bn2pnp1/3PN3/1p2P3/2N2Q1p/PPPBBPPP/R3K2R w KQkq - 0 1")
            .unwrap();
    let captures = movegen::<false>(&tables, &pos);
    assert_eq!(captures.len(), 8);
    for i in 0..captures.len() {
        assert!(captures.get(i).capture());
    }
    assert_eq!(movegen::<true>(&tables, &pos).len(), 48);
    assert_eq!(movegen::<false>(&tables, &Position::startpos()).len(), 0);
}

#[test]
fn attacks_come_from_every_kind_of_piece() {
    let tables = Tables::new();
    let pos = Position::from_fen("4k3/8/8/3p4/8/2N5/8/R3K2b w - - 0 1").unwrap();
    assert!(is_attacking(&tables, 8, &pos, PieceColor::White));
    assert!(is_attacking(&tables, 3, &pos, PieceColor::White));
    assert!(is_attacking(&tables, 5, &pos, PieceColor::White));
    assert!(!is_attacking(&tables, 6, &pos, PieceColor::White));
    assert!(is_attacking(&tables, 35, &pos, PieceColor::White));
    assert!(is_attacking(&tables, 28, &pos, PieceColor::Black));
    assert!(is_attacking(&tables, 26, &pos, PieceColor::Black));
    assert!(!is_attacking(&tables, 27, &pos, PieceColor::Black));
    assert!(is_attacking(&tables, 14, &pos, PieceColor::Black));
    assert!(!is_attacking(&tables, 42, &pos, PieceColor::Black));
    assert!(is_attacking(&tables, 52, &pos, PieceColor::Black));
    assert!(!pos.in_check(&tables, PieceColor::White));
    let none = Position::empty();
    assert!(!none.in_check(&tables, PieceColor::White));
    assert_eq!(movegen::<true>(&tables, &none).len(), 0);
}

#[test]
fn no_move_is_listed_twice() {
    let tables = Tables::new();
    for fen in [
        "rnbqkbnr/pppppppp/8/8/8/8/PPPPPPPP/RNBQKBNR w KQkq - 0 1",
        "r3k2r/p1ppqpb1/bn2pnp1/3PN3/1p2P3/2N2Q1p/PPPBBPPP/R3K2R w KQkq - 0 1",
        "r3k2r/Pppp1ppp/1b3nbN/nP6/BBP1P3/q4N2/Pp1P2PP/R2Q1RK1 w kq - 0 1",
        "rnbqkbnr/ppp1pppp/8/8/3pP3/8/PPPP1PPP/RNBQKBNR b KQkq e3 0 2",
        "rnbq1k1r/pp1Pbppp/2p5/8/2B5/8/PPP1NnPP/RNBQK2R w KQ - 1 8",
        "1n1n4/2P5/8/1pPp4/8/8/1p1p4/2R1K2k b - - 0 1",
    ] {
        let pos = Position::from_fen(fen).unwrap();
        for turn in [false, true] {
            let pos = if turn { mirrored(&pos) } else { pos };
            let moves = sorted_moves(&tables, &pos, false);
            let mut once = moves.clone();
            once.dedup();
            assert_eq!(once.len(), moves.len());
            assert_eq!(moves.len(), sorted_moves(&tables, &mirrored(&pos), true).len());
        }
    }
}
