use bernt::movegen::{movegen, Tables};
use bernt::position::{Move, PieceColor, Position};
use bernt::search::eval::{cut_phase, eval, flip, sums, tapered};
use bernt::search::{update_phase, update_score, SearchPosition};

#[test]
fn the_start_is_level() {
    assert_eq!(eval(&Position::startpos()), (0, 0, 0, 24));
}

#[test]
fn scores_are_for_the_side_to_move() {
    let white = Position::from_fen("4k3/8/8/8/8/8/R7/4K2R w K - 0 1").unwrap();
    let black = Position::from_fen("4k3/8/8/8/8/8/R7/4K2R b K - 0 1").unwrap();
    assert_eq!(eval(&white), (884, 889, 884, 4));
    assert_eq!(eval(&black), (-884, -889, -884, 4));
    let kiwipete =
        Position::from_fen("r3k2r/p1ppqpb1/bn2pnp1/3PN3/1p2P3/2N2Q1p/PPPBBPPP/R3K2R w KQkq - 0 1")
            .unwrap();
    assert_eq!(eval(&kiwipete), (51, 51, 3, 24));
}

#[test]
fn the_phase_is_cut_to_24() {
    let queens = Position::from_fen("QQQQQQQQ/QQQQQQQQ/8/8/8/8/k7/7K w - - 0 1").unwrap();
    assert_eq!(eval(&queens), (14913, 14913, 14950, 24));
    assert_eq!(sums(&queens), (14913, 14950, 64));
    assert_eq!(cut_phase(64), 24);
    assert_eq!(cut_phase(25), 24);
    assert_eq!(cut_phase(24), 24);
    assert_eq!(cut_phase(23), 23);
    assert_eq!(cut_phase(0), 0);
    let start = SearchPosition::new(&queens);
    assert_eq!((start.phase, start.material), (24, 64));
}

#[test]
fn tapering_rounds_towards_zero() {
    assert_eq!(tapered(100, 0, 24), 100);
    assert_eq!(tapered(100, 0, 0), 0);
    assert_eq!(tapered(100, 0, 12), 50);
    assert_eq!(tapered(100, 0, 40), 100);
    assert_eq!(tapered(100, 0, -3), 0);
    assert_eq!(tapered(10, 0, 1), 0);
    assert_eq!(tapered(-10, 0, 1), 0);
    assert_eq!(tapered(-50, -26, 5), -31);
    assert_eq!(tapered(50, 26, 5), 31);
}

#[test]
fn flip_mirrors_the_ranks_for_black() {
    assert_eq!(flip(0, PieceColor::White), 0);
    assert_eq!(flip(0, PieceColor::Black), 56);
    assert_eq!(flip(63, PieceColor::Black), 7);
    assert_eq!(flip(27, PieceColor::Black), 35);
}

fn legal_moves(tables: &Tables, pos: &Position) -> Vec<Move> {
    let moves = movegen::<true>(tables, pos);
    (0..moves.len())
        .map(|i| moves.get(i))
        .filter(|m| !pos.make_move(*m).in_check(tables, pos.side))
        .collect()
}

fn walk(tables: &Tables, sp: SearchPosition, depth: u8, seen: &mut u64) {
    let (score, mg, eg, phase) = eval(&sp.pos);
    assert_eq!((sp.eval, sp.mg_eval, sp.eg_eval, sp.phase), (score, mg, eg, phase));
    assert_eq!(sp.material, sums(&sp.pos).2);
    *seen += 1;
    if depth == 0 {
        return;
    }
    for m in legal_moves(tables, &sp.pos) {
        let mg = update_score(false, &sp.pos, sp.mg_eval, m);
        let eg = update_score(true, &sp.pos, sp.eg_eval, m);
        let material = update_phase(&sp.pos, sp.material, m);
        let phase = cut_phase(material);
        let next = SearchPosition {
            pos: sp.pos.make_move(m),
            eval: tapered(mg, eg, phase),
            mg_eval: mg,
            eg_eval: eg,
            phase,
            material,
        };
        walk(tables, next, depth - 1, seen);
    }
}

#[test]
fn the_scores_kept_up_are_the_scores_from_scratch() {
    let tables = Tables::new();
    let mut seen = 0;
    for fen in [
        "r3k2r/p1ppqpb1/bn2pnp1/3PN3/1p2P3/2N2Q1p/PPPBBPPP/R3K2R w KQkq - 0 1",
        "r3k2r/Pppp1ppp/1b3nbN/nP6/BBP1P3/q4N2/Pp1P2PP/R2Q1RK1 w kq - 0 1",
        "8/2p5/3p4/KP5r/1R3p1k/8/4P1P1/8 w - - 0 1",
        "rnbqkbnr/ppp1pppp/8/8/3pP3/8/PPPP1PPP/RNBQKBNR b KQkq e3 0 2",
    ] {
        let pos = Position::from_fen(fen).unwrap();
        walk(&tables, SearchPosition::new(&pos), 3, &mut seen);
    }
    assert!(seen > 100_000);
}

#[test]
fn the_phase_stays_right_with_more_pieces_than_a_game_begins_with() {
    let tables = Tables::new();
    let mut seen = 0;
    let crowded =
        Position::from_fen("rnbqkbnr/pPpppppp/8/8/8/8/1PPPPPPP/RNBQKBNR w KQkq - 0 1").unwrap();
    let start = SearchPosition::new(&crowded);
    assert_eq!((start.phase, start.material), (24, 24));
    walk(&tables, start, 3, &mut seen);
    let queens = Position::from_fen("QQQ5/7k/n7/8/8/N7/7K/qqq5 w - - 0 1").unwrap();
    let start = SearchPosition::new(&queens);
    assert_eq!((start.phase, start.material), (24, 26));
    walk(&tables, start, 2, &mut seen);
    assert!(seen > 1000);
}
