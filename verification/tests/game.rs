use bernt::game::{keep_recent, Game};
use bernt::position::Position;
use bernt::search::consts::Reductions;
use bernt::search::Engine;

#[test]
fn the_list_keeps_the_positions_since_the_clock_was_reset() {
    let engine = Engine::new(Reductions::uniform(1));
    let mut game = Game::new(&engine, Position::startpos());
    assert_eq!(game.repetitions, vec![Position::startpos().hash(&engine.keys)]);
    game.play(&engine, "g1f3");
    game.play(&engine, "g8f6");
    assert_eq!(game.pos.halfmove, 2);
    assert_eq!(game.repetitions.len(), 3);
    assert_eq!(game.repetitions[0], Position::startpos().hash(&engine.keys));
    assert_eq!(game.repetitions[2], game.pos.hash(&engine.keys));
    game.play(&engine, "f3g1");
    game.play(&engine, "f6g8");
    assert_eq!(game.repetitions.len(), 5);
    assert_eq!(game.repetitions[4], game.repetitions[0]);
    game.play(&engine, "e2e4");
    assert_eq!(game.pos.halfmove, 0);
    assert_eq!(game.repetitions, vec![game.pos.hash(&engine.keys)]);
    game.play(&engine, "d7d5");
    game.play(&engine, "g1f3");
    assert_eq!(game.repetitions.len(), 2);
    game.play(&engine, "g8f6");
    assert_eq!(game.repetitions.len(), 3);
    game.play(&engine, "e4d5");
    assert_eq!(game.pos.halfmove, 0);
    assert_eq!(game.repetitions, vec![game.pos.hash(&engine.keys)]);
}

#[test]
fn a_text_that_is_no_move_changes_nothing() {
    let engine = Engine::new(Reductions::uniform(1));
    let mut game = Game::new(&engine, Position::startpos());
    game.play(&engine, "e2e5");
    game.play(&engine, "");
    game.play(&engine, "e7e5");
    assert_eq!(game.pos, Position::startpos());
    assert_eq!(game.repetitions.len(), 1);
    let worn = Position::from_fen("4k3/8/8/8/8/8/8/4K2R w K - 255 200").unwrap();
    let mut game = Game::new(&engine, worn);
    game.play(&engine, "e1e2");
    assert_eq!(game.pos, worn);
    assert_eq!(game.repetitions.len(), 1);
}

#[test]
fn a_list_given_from_outside_is_cut_to_what_counts() {
    let mut reps = vec![1, 2, 3, 4, 5];
    keep_recent(&mut reps, 9);
    assert_eq!(reps, vec![1, 2, 3, 4, 5]);
    keep_recent(&mut reps, 4);
    assert_eq!(reps, vec![1, 2, 3, 4, 5]);
    keep_recent(&mut reps, 2);
    assert_eq!(reps, vec![3, 4, 5]);
    keep_recent(&mut reps, 0);
    assert_eq!(reps, vec![5]);
    let mut none: Vec<u64> = vec![];
    keep_recent(&mut none, 0);
    assert!(none.is_empty());
    let engine = Engine::new(Reductions::uniform(1));
    let mut game = Game::new(&engine, Position::startpos());
    let m = bernt::movegen::find_move(&engine.tables, &game.pos, "b1c3").unwrap();
    game.advance(&engine, m);
    assert_eq!(game.pos.halfmove, 1);
    assert_eq!(game.repetitions.len(), 2);
}
