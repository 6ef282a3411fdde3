use bernt::datagen::{first_legal, game, opening, outcome, random_move, verdict};
use bernt::movegen::movegen;
use bernt::position::{Move, PieceColor, PieceType, Position};
use bernt::search::consts::Reductions;
use bernt::search::Engine;

fn engine() -> Engine {
    Engine::new(Reductions::uniform(1))
}

#[test]
fn a_random_move_is_legal_and_not_always_the_same() {
    let engine = engine();
    let pos = Position::startpos();
    let mut seen = std::collections::BTreeSet::new();
    for _ in 0..200 {
        let m = random_move(&engine, &pos).unwrap();
        let moves = movegen::<true>(&engine.tables, &pos);
        assert!((0..moves.len()).any(|i| moves.get(i) == m));
        seen.insert((m.from, m.to));
    }
    assert!(seen.len() > 5);
    let mated = Position::from_fen("7k/6Q1/6K1/8/8/8/8/8 b - - 0 1").unwrap();
    assert_eq!(random_move(&engine, &mated), None);
    let stalemate = Position::from_fen("7k/5Q2/6K1/8/8/8/8/8 b - - 0 1").unwrap();
    assert_eq!(random_move(&engine, &stalemate), None);
}

#[test]
fn the_first_legal_move_passes_over_those_that_leave_the_king_in_check() {
    let engine = engine();
    let pos = Position::from_fen("3rk3/8/8/8/8/8/8/4K3 w - - 0 1").unwrap();
    let list = movegen::<true>(&engine.tables, &pos);
    let moves: Vec<_> = (0..list.len()).map(|i| list.get(i)).collect();
    assert_eq!(moves.len(), 5);
    let m = first_legal(&engine, &pos, &moves).unwrap();
    assert_eq!(moves[0].uci(), "e1d1");
    assert_eq!(m.uci(), "e1f1");
    assert_eq!(first_legal(&engine, &pos, &moves[..1].to_vec()), None);
    assert_eq!(first_legal(&engine, &pos, &vec![]), None);
}

#[test]
fn an_opening_has_a_hash_for_every_position() {
    let engine = engine();
    let (pos, reps) = opening(&engine, 8).unwrap();
    assert_eq!(reps.len(), 9);
    assert_eq!(*reps.last().unwrap(), pos.hash(&engine.keys));
    assert_eq!(reps[0], Position::startpos().hash(&engine.keys));
    assert_eq!(pos.side, PieceColor::White);
    let (same, one) = opening(&engine, 0).unwrap();
    assert_eq!(same, Position::startpos());
    assert_eq!(one.len(), 1);
}

#[test]
fn the_result_is_seen_from_white() {
    assert_eq!(outcome(100_200, PieceColor::White), 2);
    assert_eq!(outcome(-100_200, PieceColor::White), 0);
    assert_eq!(outcome(100_200, PieceColor::Black), 0);
    assert_eq!(outcome(-100_200, PieceColor::Black), 2);
}

#[test]
fn all_records_of_a_game_carry_its_result() {
    let engine = engine();
    let mut games = 0;
    for _ in 0..40 {
        if let Some(records) = game(&engine, 1, 60) {
            games += 1;
            assert!(records.len() <= 60);
            for record in &records {
                assert_eq!(record.wdl(), records[0].wdl());
                assert!(record.wdl() <= 2);
                assert_eq!(record.fullmove(), 0);
                assert!(bernt::marlinformat::PackedBoard::unpack(*record).is_some());
            }
        }
    }
    assert!(games > 0);
}

#[test]
fn a_game_is_over_on_a_mate_a_draw_or_no_move() {
    let engine = engine();
    let start = Position::startpos();
    let reps = vec![start.hash(&engine.keys)];
    let push = Move::new(12, 28, 1, PieceType::Pawn);
    assert_eq!(verdict(&start, &reps, 35, push), None);
    assert_eq!(verdict(&start, &reps, 99_999, push), None);
    assert_eq!(verdict(&start, &reps, -99_999, push), None);
    assert_eq!(verdict(&start, &reps, 100_000, push), Some(2));
    assert_eq!(verdict(&start, &reps, -100_000, push), Some(0));
    assert_eq!(verdict(&start, &reps, 0, Move::null_move()), Some(1));
    let black = Position::from_fen("4k3/8/8/8/8/8/8/4K2R b K - 0 1").unwrap();
    let reps = vec![black.hash(&engine.keys)];
    assert_eq!(verdict(&black, &reps, 100_003, push), Some(0));
    assert_eq!(verdict(&black, &reps, -100_003, push), Some(2));
    let worn = Position::from_fen("4k3/8/8/8/8/8/8/4K2R w K - 100 80").unwrap();
    let reps = vec![worn.hash(&engine.keys)];
    assert_eq!(verdict(&worn, &reps, 500, push), Some(1));
    assert_eq!(verdict(&worn, &reps, 100_001, push), Some(2));
    let late = Position::from_fen("4k3/8/8/8/8/8/8/4K2R w K - 10 80").unwrap();
    let h = late.hash(&engine.keys);
    assert_eq!(verdict(&late, &vec![h, 1, h, 2, h], 35, push), Some(1));
    assert_eq!(verdict(&late, &vec![7, 1, h, 2, h], 35, push), None);
}

#[test]
fn a_game_without_moves_has_no_records() {
    let engine = engine();
    for _ in 0..10 {
        if let Some(records) = game(&engine, 1, 0) {
            assert!(records.is_empty());
        }
    }
}

#[test]
fn every_record_is_of_a_position_after_the_opening() {
    let engine = engine();
    let mut seen = 0;
    for _ in 0..20 {
        if let Some(records) = game(&engine, 1, 12) {
            for record in &records {
                seen += 1;
                let (pos, fullmove, _, wdl, extra) = bernt::marlinformat::PackedBoard::unpack(*record).unwrap();
                assert_eq!((fullmove, extra), (0, 0));
                assert_eq!(wdl, records[0].wdl());
                assert!(random_move(&engine, &pos).is_some());
                assert!(pos.halfmove <= 20);
            }
        }
    }
    assert!(seen > 0);
}

#[test]
fn a_game_of_one_move_records_the_position_after_the_opening() {
    let engine = engine();
    let mut games = 0;
    for _ in 0..20 {
        if let Some(records) = game(&engine, 1, 1) {
            games += 1;
            assert!(records.len() <= 1);
            for record in &records {
                let (pos, _, score, wdl, _) = bernt::marlinformat::PackedBoard::unpack(*record).unwrap();
                assert!(pos.halfmove <= 8);
                assert!(score as i32 <= 1000);
                assert!(wdl <= 2);
            }
        }
    }
    assert!(games > 0);
}
