use bernt::position::Position;

#[test]
fn startpos_fen() {
    assert_eq!(
        Position::startpos(),
        Position::from_fen("rnbqkbnr/pppppppp/8/8/8/8/PPPPPPPP/RNBQKBNR w KQkq - 0 1").unwrap()
    );
}
