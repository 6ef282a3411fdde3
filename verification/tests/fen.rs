use bernt::position::fen::FenError;
use bernt::position::{PieceColor, PieceType, Position, NO_SQUARE};

#[test]
fn a_position_with_all_fields_is_read() {
    let pos = Position::from_fen("r3k2r/p1ppqpb1/bn2pnp1/3PN3/1p2P3/2N2Q1p/PPPBBPPP/R3K2R b Kq e3 17 9")
        .unwrap();
    assert_eq!(pos.side, PieceColor::Black);
    assert_eq!(pos.castling, [[NO_SQUARE, 7], [56, NO_SQUARE]]);
    assert_eq!(pos.en_passant, 20);
    assert_eq!(pos.halfmove, 17);
    assert_eq!(pos.piece_at(4).ty, PieceType::King);
    assert_eq!(pos.piece_at(4).color, PieceColor::White);
    assert_eq!(pos.piece_at(60).color, PieceColor::Black);
    assert_eq!(pos.piece_at(21).ty, PieceType::Queen);
    assert_eq!(pos.piece_at(27).ty, PieceType::Empty);
    assert_eq!(pos.colors[0] | pos.colors[1], 0x91_7d_73_18_12_a4_ff_91);
}

#[test]
fn the_clock_defaults_to_zero() {
    let pos = Position::from_fen("8/2p5/3p4/KP5r/1R3p1k/8/4P1P1/8 w - -").unwrap();
    assert_eq!(pos.halfmove, 0);
    assert_eq!(pos.en_passant, NO_SQUARE);
    assert_eq!(pos.castling, [[NO_SQUARE; 2]; 2]);
}

#[test]
fn too_few_fields_are_refused() {
    assert_eq!(Position::from_fen(""), Err(FenError::TooFewFields));
    assert_eq!(Position::from_fen("8/8/8/8/8/8/8/8 w -"), Err(FenError::TooFewFields));
}

#[test]
fn an_unknown_character_is_refused() {
    assert_eq!(Position::from_fen("8/8/8/8/8/8/8/7x w - -"), Err(FenError::UnknownCharacter));
    assert_eq!(Position::from_fen("8/8/8/8/8/8/8/8 w KZ -"), Err(FenError::UnknownCharacter));
    assert_eq!(Position::from_fen("8/8/8/8/8/8/8/9 w - -"), Err(FenError::UnknownCharacter));
}

#[test]
fn a_board_that_is_not_eight_by_eight_is_refused() {
    assert_eq!(Position::from_fen("8/8/8/8/8/8/8 w - -"), Err(FenError::BadBoard));
    assert_eq!(Position::from_fen("8/8/8/8/8/8/8/7 w - -"), Err(FenError::BadBoard));
    assert_eq!(Position::from_fen("8/8/8/8/8/8/8/8p w - -"), Err(FenError::BadBoard));
    assert_eq!(Position::from_fen("8/8/8/8/8/8/8/8/8 w - -"), Err(FenError::BadBoard));
    assert_eq!(Position::from_fen("44/8/8/8/8/8/8/71 w - -"), Ok(Position::empty()));
}

#[test]
fn a_side_that_is_neither_is_refused() {
    assert_eq!(Position::from_fen("8/8/8/8/8/8/8/8 x - -"), Err(FenError::BadSide));
    assert_eq!(Position::from_fen("8/8/8/8/8/8/8/8 wb - -"), Err(FenError::BadSide));
    assert_eq!(Position::from_fen("8/8/8/8/8/8/8/8  - -"), Err(FenError::BadSide));
}

#[test]
fn a_target_off_its_ranks_is_refused() {
    assert_eq!(Position::from_fen("8/8/8/8/8/8/8/8 w - e4"), Err(FenError::BadEnPassant));
    assert_eq!(Position::from_fen("8/8/8/8/8/8/8/8 w - i3"), Err(FenError::BadEnPassant));
    assert_eq!(Position::from_fen("8/8/8/8/8/8/8/8 w - e"), Err(FenError::BadEnPassant));
    assert_eq!(Position::from_fen("8/8/8/8/8/8/8/8 w - a6").unwrap().en_passant, 40);
    assert_eq!(Position::from_fen("8/8/8/8/8/8/8/8 b - h3").unwrap().en_passant, 23);
}

#[test]
fn a_clock_that_is_no_small_number_is_refused() {
    assert_eq!(Position::from_fen("8/8/8/8/8/8/8/8 w - - x"), Err(FenError::BadClock));
    assert_eq!(Position::from_fen("8/8/8/8/8/8/8/8 w - - 256"), Err(FenError::BadClock));
    assert_eq!(Position::from_fen("8/8/8/8/8/8/8/8 w - - "), Err(FenError::BadClock));
    assert_eq!(Position::from_fen("8/8/8/8/8/8/8/8 w - - 255").unwrap().halfmove, 255);
}

#[test]
fn the_first_field_out_of_order_gives_the_error() {
    assert_eq!(Position::from_fen("8/8/8/8/8/8/8/7 x KZ e4 x"), Err(FenError::BadBoard));
    assert_eq!(Position::from_fen("8/8/8/8/8/8/8/8 x KZ e4 x"), Err(FenError::BadSide));
    assert_eq!(Position::from_fen("8/8/8/8/8/8/8/8 w KZ e4 x"), Err(FenError::UnknownCharacter));
    assert_eq!(Position::from_fen("8/8/8/8/8/8/8/8 w KQ e4 x"), Err(FenError::BadEnPassant));
}

#[test]
fn a_position_is_written_as_it_is_read() {
    for text in [
        "rnbqkbnr/pppppppp/8/8/8/8/PPPPPPPP/RNBQKBNR w KQkq - 0 1",
        "r3k2r/p1ppqpb1/bn2pnp1/3PN3/1p2P3/2N2Q1p/PPPBBPPP/R3K2R b Kq - 11 1",
        "rnbqkbnr/ppp1pppp/8/8/3pP3/8/PPPP1PPP/RNBQKBNR b KQkq e3 0 1",
        "rnbqkbnr/pp1ppppp/8/2pP4/8/8/PPP1PPPP/RNBQKBNR w Qk c6 100 1",
        "8/2p5/3p4/KP5r/1R3p1k/8/4P1P1/8 w - - 255 1",
        "8/8/8/8/8/8/8/8 b - - 9 1",
        "p6P/1p4P1/2p2P2/3pP3/3Pp3/2P2p2/1P4p1/P6p w - - 0 1",
    ] {
        let pos = Position::from_fen(text).unwrap();
        assert_eq!(pos.to_fen(), text);
        assert_eq!(Position::from_fen(&pos.to_fen()), Ok(pos));
    }
}

#[test]
fn fields_that_are_left_out_are_written_with_their_defaults() {
    let pos = Position::from_fen("8/2p5/3p4/KP5r/1R3p1k/8/4P1P1/8 w - -").unwrap();
    assert_eq!(pos.to_fen(), "8/2p5/3p4/KP5r/1R3p1k/8/4P1P1/8 w - - 0 1");
    let late = Position::from_fen("44/8/8/8/8/8/8/1k1K4 w - - 7 93").unwrap();
    assert_eq!(late.to_fen(), "8/8/8/8/8/8/8/1k1K4 w - - 7 1");
    assert_eq!(Position::startpos().to_fen(), "rnbqkbnr/pppppppp/8/8/8/8/PPPPPPPP/RNBQKBNR w KQkq - 0 1");
}
