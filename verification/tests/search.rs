use bernt::position::{Move, Position};
use bernt::search::consts::Reductions;
use bernt::search::tt::TT;
use bernt::search::timeman::TimeManager;
use bernt::search::{search, Deepening, Engine, SearchContext, SearchPosition, SearchResult};
use bernt::SearchOptions;

fn reductions() -> Reductions {
    let mut values = Vec::with_capacity(65536);
    for depth in 0..256 {
        for n in 0..256 {
            values.push((1.43 + (depth as f32).ln() * (n as f32).ln() / 1.25) as u8);
        }
    }
    Reductions::from_values(values).unwrap()
}

fn engine() -> Engine {
    Engine::new(reductions())
}

fn go(engine: &Engine, fen: &str, depth: u8) -> (Position, SearchResult) {
    let pos = Position::from_fen(fen).unwrap();
    let mut tt = TT::new(1);
    let options = SearchOptions { depth, info: false, ..SearchOptions::default() };
    let result = search(engine, &pos, options, vec![pos.hash(&engine.keys)], &mut tt, 0);
    (pos, result)
}

fn is_legal(engine: &Engine, pos: &Position, m: Move) -> bool {
    let moves = bernt::movegen::movegen::<true>(&engine.tables, pos);
    (0..moves.len()).any(|i| {
        moves.get(i) == m && !pos.make_move(m).in_check(&engine.tables, pos.side)
    })
}

#[test]
fn mate_in_one_is_found() {
    let engine = engine();
    let (pos, result) = go(&engine, "7k/5Q2/6K1/8/8/8/8/8 w - - 0 1", 4);
    println!("{} {}", result.best.uci(), result.score);
    assert!(is_legal(&engine, &pos, result.best));
    let after = pos.make_move(result.best);
    assert!(after.in_check(&engine.tables, after.side));
    assert_eq!(bernt::perft::perft(&engine.tables, &after, 1), 0);
    assert_eq!(result.best.uci(), "f7g7");
    assert!(result.score >= 100000);
}

#[test]
fn rook_ending_gives_a_legal_move() {
    let engine = engine();
    let (pos, result) = go(&engine, "4k3/8/8/8/8/8/R7/4K2R w K - 0 1", 4);
    println!("{} {}", result.best.uci(), result.score);
    assert!(is_legal(&engine, &pos, result.best));
    assert_eq!(result.iterations.len(), 4);
}

#[test]
fn never_castles_through_check() {
    let engine = engine();
    let (pos, result) = go(&engine, "8/8/8/8/8/8/6k1/4K2R w K - 0 1", 6);
    println!("{} {}", result.best.uci(), result.score);
    assert!(is_legal(&engine, &pos, result.best));
    assert_ne!(result.best.uci(), "e1g1");
}

#[test]
fn a_short_clock_still_gives_a_legal_move() {
    let engine = engine();
    let pos = Position::startpos();
    let mut tt = TT::new(1);
    let options = SearchOptions { wtime: 100, btime: 100, winc: 0, binc: 0, info: false, ..SearchOptions::default() };
    let mut fastest = u64::MAX;
    for age in 0..5 {
        let result = search(&engine, &pos, options, vec![pos.hash(&engine.keys)], &mut tt, age);
        assert!(is_legal(&engine, &pos, result.best));
        assert!(!result.iterations.is_empty());
        fastest = fastest.min(result.elapsed);
    }
    assert!(fastest <= 125);
    let none = SearchOptions { wtime: 0, btime: 0, info: false, ..SearchOptions::default() };
    let hurried = search(&engine, &pos, none, vec![pos.hash(&engine.keys)], &mut tt, 9);
    assert!(is_legal(&engine, &pos, hurried.best));
}

#[test]
fn the_table_can_be_made_larger_and_smaller() {
    let engine = engine();
    let pos = Position::from_fen("r3k2r/p1ppqpb1/bn2pnp1/3PN3/1p2P3/2N2Q1p/PPPBBPPP/R3K2R w KQkq - 0 1")
        .unwrap();
    let options = SearchOptions { depth: 5, info: false, ..SearchOptions::default() };
    let mut tt = TT::new_default();
    tt.set_size(64);
    assert_eq!(tt.entries.len(), 64_000_000 / 24);
    let large = search(&engine, &pos, options, vec![pos.hash(&engine.keys)], &mut tt, 0);
    assert!(is_legal(&engine, &pos, large.best));
    assert!(tt.used > 0);
    tt.set_size(1);
    assert_eq!(tt.hashfull(), 0);
    let small = search(&engine, &pos, options, vec![pos.hash(&engine.keys)], &mut tt, 0);
    assert!(is_legal(&engine, &pos, small.best));
    assert_eq!(small.iterations.len(), 5);
    assert_eq!(small.iterations[4].depth, 5);
}

#[test]
fn the_losing_side_takes_the_draw_by_repetition() {
    let engine = engine();
    let mut pos = Position::from_fen("7k/8/8/8/8/q7/8/7K w - - 0 1").unwrap();
    let mut reps = vec![pos.hash(&engine.keys)];
    for text in ["h1g1", "a3b3", "g1h1", "b3a3", "h1g1", "a3b3", "g1h1", "b3a3"] {
        pos.make_move_uci(&engine.tables, text);
        reps.push(pos.hash(&engine.keys));
    }
    assert_eq!(pos.halfmove, 8);
    let mut tt = TT::new(1);
    let options = SearchOptions { depth: 5, info: false, ..SearchOptions::default() };
    let result = search(&engine, &pos, options, reps, &mut tt, 0);
    assert!(is_legal(&engine, &pos, result.best));
    assert_eq!(result.best.uci(), "h1g1");
    assert_eq!(result.score, 0);
}

#[test]
fn without_a_legal_move_the_null_move_comes_back() {
    let engine = engine();
    let (_, mated) = go(&engine, "7k/6Q1/6K1/8/8/8/8/8 b - - 0 1", 3);
    assert_eq!(mated.best, Move::null_move());
    assert_eq!(mated.score, -100_000 - 255);
    let (_, stalemate) = go(&engine, "7k/5Q2/6K1/8/8/8/8/8 b - - 0 1", 3);
    assert_eq!(stalemate.best, Move::null_move());
    assert_eq!(stalemate.score, 0);
    let (_, nothing) = go(&engine, "7k/5Q2/6K1/8/8/8/8/8 w - - 0 1", 0);
    assert_eq!(nothing.best, Move::null_move());
    assert!(nothing.iterations.is_empty());
}

fn fresh(engine: &Engine, pos: &Position) -> (SearchContext, SearchPosition) {
    let context = SearchContext::new(TimeManager::unlimited(), vec![pos.hash(&engine.keys)], 0);
    (context, SearchPosition::new(pos))
}

#[test]
fn a_node_without_moves_is_mate_or_a_draw() {
    let engine = engine();
    let mated = Position::from_fen("7k/6Q1/6K1/8/8/8/8/8 b - - 0 1").unwrap();
    let (mut context, sp) = fresh(&engine, &mated);
    let mut tt = TT::new(1);
    let r = context.negamax(&engine, &mut tt, &sp, -1_000_000, 1_000_000, 3, 1, false);
    assert_eq!(r, Some((Move::null_move(), -100_252)));
    assert_eq!(context.repetitions, vec![mated.hash(&engine.keys)]);
    let r = context.negamax(&engine, &mut tt, &sp, -1_000_000, 1_000_000, 0, 0, false);
    assert_eq!(r, Some((Move::null_move(), -100_255)));
    let r = context.negamax(&engine, &mut tt, &sp, -200_000, -199_999, 7, 2, false);
    assert_eq!(r, Some((Move::null_move(), -100_248)));
    let stalemate = Position::from_fen("7k/5Q2/6K1/8/8/8/8/8 b - - 0 1").unwrap();
    let (mut context, sp) = fresh(&engine, &stalemate);
    let r = context.negamax(&engine, &mut tt, &sp, -1_000_000, 1_000_000, 3, 1, false);
    assert_eq!(r, Some((Move::null_move(), 0)));
}

#[test]
fn a_node_without_depth_gives_the_quiet_value() {
    let engine = engine();
    let pos = Position::from_fen("4k3/8/8/8/8/8/R7/4K2R w K - 0 1").unwrap();
    let (mut context, sp) = fresh(&engine, &pos);
    let mut tt = TT::new(1);
    assert_eq!(sp.eval, 884);
    let r = context.negamax(&engine, &mut tt, &sp, -1_000_000, 1_000_000, 2, 0, false);
    assert_eq!(r, Some((Move::null_move(), 884)));
    let r = context.negamax(&engine, &mut tt, &sp, 900, 1000, 2, 0, false);
    assert_eq!(r, Some((Move::null_move(), 900)));
    let r = context.negamax(&engine, &mut tt, &sp, 0, 100, 2, 0, false);
    assert_eq!(r, Some((Move::null_move(), 100)));
    let r = context.negamax(&engine, &mut tt, &sp, -1_000_000, 1_000_000, 255, 4, false);
    assert_eq!(r, Some((Move::null_move(), 884)));
}

#[test]
fn a_node_stands_on_an_evaluation_far_above_beta() {
    let engine = engine();
    let pos = Position::from_fen("4k3/8/8/8/8/8/R7/4K2R w K - 0 1").unwrap();
    let (mut context, sp) = fresh(&engine, &pos);
    let mut tt = TT::new(1);
    let r = context.negamax(&engine, &mut tt, &sp, 99, 100, 0, 2, false);
    assert_eq!(r, Some((Move::null_move(), 884)));
    let r = context.negamax(&engine, &mut tt, &sp, 99, 100, 0, 4, false);
    assert_eq!(r, Some((Move::null_move(), 884)));
}

#[test]
fn the_quiet_value_is_the_evaluation_or_the_best_capture() {
    let engine = engine();
    let inf = 1_000_000;
    let calm = Position::from_fen("4k3/8/8/8/8/8/R7/4K2R w K - 0 1").unwrap();
    let (mut context, sp) = fresh(&engine, &calm);
    assert_eq!(context.qsearch(&engine, &sp, 0, -inf, inf), 884);
    assert_eq!(context.qsearch(&engine, &sp, 0, 884, 885), 884);
    assert_eq!(context.qsearch(&engine, &sp, 0, 883, 884), 884);
    assert_eq!(context.qsearch(&engine, &sp, 0, 0, 100), 100);
    assert_eq!(context.qsearch(&engine, &sp, 0, 900, 1000), 900);
    assert_eq!(context.qsearch(&engine, &sp, 0, 1000, 900), 1000);
    assert_eq!(context.qsearch(&engine, &sp, 0, 1000, 100), 100);
    let sharp = Position::from_fen("4k3/8/8/3q4/2P1N3/8/8/4K3 w - - 0 1").unwrap();
    let (mut context, sp) = fresh(&engine, &sharp);
    let moves = bernt::movegen::movegen::<false>(&engine.tables, &sharp);
    let mut best = sp.eval;
    let mut captures = 0;
    for i in 0..moves.len() {
        let m = moves.get(i);
        let next = context.update(&engine.keys, &sp, m, false);
        if !next.pos.in_check(&engine.tables, sharp.side) {
            captures += 1;
            best = best.max(-context.qsearch(&engine, &next, 1, -inf, inf));
        }
    }
    assert_eq!(captures, 1);
    assert!(best > sp.eval);
    assert_eq!(context.qsearch(&engine, &sp, 0, -inf, inf), best);
    assert_eq!(context.qsearch(&engine, &sp, 0, best - 5, best + 5), best);
    assert_eq!(context.qsearch(&engine, &sp, 0, best + 5, best + 9), best + 5);
    assert_eq!(context.qsearch(&engine, &sp, 0, best - 9, best - 5), best - 5);
    assert_eq!(context.qsearch(&engine, &sp, 255, -inf, inf), sp.eval);
    assert_eq!(context.qsearch(&engine, &sp, 0, 2000, sp.eval + 1), sp.eval + 1);
    assert_eq!(context.qsearch(&engine, &sp, 255, 2000, sp.eval + 1), 2000);
    assert_eq!(context.repetitions.len(), 1);
}

#[test]
fn every_depth_is_searched_without_a_limit() {
    let engine = engine();
    let (_, result) = go(&engine, "4k3/8/8/8/8/8/R7/4K2R w K - 0 1", 4);
    assert_eq!(result.iterations.len(), 4);
    let last = result.iterations[3];
    assert_eq!((result.best, result.score, result.nodes), (last.best, last.score, last.nodes));
    assert!(result.score > 0);
    let pos = Position::from_fen("4k3/8/8/8/8/8/R7/4K2R w K - 0 1").unwrap();
    let mut tt = TT::new(1);
    let options = SearchOptions { depth: 200, wtime: 0, info: false, ..SearchOptions::default() };
    let hurried = search(&engine, &pos, options, vec![pos.hash(&engine.keys)], &mut tt, 0);
    assert!(!hurried.iterations.is_empty());
    let last = hurried.iterations[hurried.iterations.len() - 1];
    assert_eq!((hurried.best, hurried.score), (last.best, last.score));
}

#[test]
fn a_search_can_be_taken_depth_by_depth() {
    let engine = engine();
    let fen = "r3k2r/p1ppqpb1/bn2pnp1/3PN3/1p2P3/2N2Q1p/PPPBBPPP/R3K2R w KQkq - 0 1";
    let (pos, whole) = go(&engine, fen, 4);
    let options = SearchOptions { depth: 4, info: false, ..SearchOptions::default() };
    let mut tt = TT::new(1);
    let mut deepening = Deepening::begin(&pos, options, vec![pos.hash(&engine.keys)], 0);
    assert_eq!((deepening.depth, deepening.limit), (0, 4));
    assert_eq!(deepening.best, Move::null_move());
    let mut seen = 0;
    while let Some(it) = deepening.step(&engine, &mut tt) {
        seen += 1;
        assert_eq!(it.depth, seen);
        assert_eq!((it.best, it.score, it.nodes), (whole.iterations[seen as usize - 1].best,
            whole.iterations[seen as usize - 1].score, whole.iterations[seen as usize - 1].nodes));
        assert_eq!((deepening.best, deepening.score, deepening.depth), (it.best, it.score, seen));
    }
    assert_eq!(seen, 4);
    assert_eq!((deepening.best, deepening.score), (whole.best, whole.score));
    assert!(deepening.step(&engine, &mut tt).is_none());
    assert_eq!(deepening.depth, 4);
    let (_, again) = go(&engine, fen, 4);
    assert_eq!((again.best, again.score, again.nodes), (whole.best, whole.score, whole.nodes));
}
