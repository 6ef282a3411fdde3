use bernt::movegen::{movegen, MoveList, Tables};
use bernt::position::{Move, MoveFlag, PieceColor, PieceType, Position};
use bernt::search::ordering::{mvvlva, MovePicker};
use bernt::search::timeman::TimeManager;
use bernt::search::{
    bound_type, fold_mate, is_draw, midpoint, tt_cutoff, unfold_mate, widen, SearchContext, SearchPosition,
};
use bernt::search::tt::TTEntryType;
use bernt::zobrist::Keys;

fn context() -> SearchContext {
    SearchContext::new(TimeManager::unlimited(), vec![0], 0)
}

fn list(moves: &[Move]) -> MoveList {
    let mut out = MoveList::new();
    for m in moves {
        out.push(*m);
    }
    out
}

fn quiet(from: u8, to: u8) -> Move {
    Move::new(from, to, MoveFlag::QUIET, PieceType::Knight)
}

#[test]
fn the_picker_gives_the_highest_score_and_of_equals_the_first() {
    let moves = [quiet(1, 2), quiet(3, 4), quiet(5, 6), quiet(7, 8), quiet(9, 10)];
    let mut picker = MovePicker { moves: list(&moves), scores: vec![0, 7, -3, 7, 0] };
    let order: Vec<Move> = std::iter::from_fn(|| picker.next()).collect();
    assert_eq!(order, vec![moves[1], moves[3], moves[0], moves[4], moves[2]]);
    assert_eq!(picker.next(), None);
}

#[test]
fn captures_are_worth_more_the_bigger_the_victim_and_the_smaller_the_attacker() {
    let pos = SearchPosition::new(&Position::from_fen("4k3/8/8/3q4/2P1N3/8/8/4K3 w - - 0 1").unwrap());
    let pawn_takes = Move::new(26, 35, MoveFlag::CAP, PieceType::Pawn);
    let knight_takes = Move::new(28, 35, MoveFlag::CAP, PieceType::Knight);
    assert_eq!(mvvlva(pawn_takes, &pos), 17);
    assert_eq!(mvvlva(knight_takes, &pos), 15);
    assert_eq!(mvvlva(Move::new(28, 38, MoveFlag::QUIET, PieceType::Knight), &pos), 0);
    assert_eq!(mvvlva(Move::new(26, 35, MoveFlag::EP, PieceType::Pawn), &pos), 0);
}

#[test]
fn scores_rank_table_move_captures_killers_promotions_and_history() {
    let mut ctx = context();
    let pos = SearchPosition::new(&Position::from_fen("4k3/1P6/8/3q4/2P1N3/8/8/4K3 w - - 0 1").unwrap());
    let table_move = Move::new(28, 38, MoveFlag::QUIET, PieceType::Knight);
    let capture = Move::new(26, 35, MoveFlag::CAP, PieceType::Pawn);
    let killer = Move::new(28, 45, MoveFlag::QUIET, PieceType::Knight);
    let promotion = Move::new(49, 57, MoveFlag::PROMO | 3, PieceType::Pawn);
    let plain = Move::new(28, 22, MoveFlag::QUIET, PieceType::Knight);
    let double = Move::new(10, 26, MoveFlag::DOUBLE_PAWN, PieceType::Pawn);
    ctx.killers[2 * 3 + 1] = killer;
    ctx.history[1 * 64 + 22] = 500;
    ctx.move_stack[2] = Move::new(60, 59, MoveFlag::QUIET, PieceType::King);
    ctx.move_stack[1] = Move::new(0, 8, MoveFlag::QUIET, PieceType::Rook);
    ctx.continuations[(((0 * 6 + 1) * 64 + 22) * 6 + 5) * 64 + 59] = 40;
    ctx.continuations[((((1 * 2 + 0) * 6 + 1) * 64 + 22) * 6 + 3) * 64 + 8] = 2;
    assert_eq!(ctx.move_score(table_move, &pos, table_move, 3), i32::MAX);
    assert_eq!(ctx.move_score(capture, &pos, table_move, 3), i32::MAX - 120 + 17);
    assert_eq!(ctx.move_score(killer, &pos, table_move, 3), i32::MAX - 112);
    assert_eq!(ctx.move_score(killer, &pos, table_move, 2), 0);
    assert_eq!(ctx.move_score(promotion, &pos, table_move, 3), i32::MAX - 130);
    assert_eq!(ctx.move_score(plain, &pos, table_move, 3), 542);
    assert_eq!(ctx.move_score(plain, &pos, table_move, 1), 500);
    assert_eq!(ctx.move_score(plain, &pos, table_move, 0), 500);
    assert_eq!(ctx.move_score(double, &pos, table_move, 3), 0);
    ctx.history[1 * 64 + 22] = i32::MAX;
    assert_eq!(ctx.move_score(plain, &pos, table_move, 3), i32::MAX);
}

#[test]
fn a_cutoff_is_rewarded() {
    let mut ctx = context();
    let first = quiet(1, 18);
    let second = quiet(6, 21);
    ctx.move_stack[4] = Move::new(60, 59, MoveFlag::QUIET, PieceType::King);
    ctx.move_stack[3] = Move::new(0, 8, MoveFlag::QUIET, PieceType::Rook);
    ctx.reward(first, PieceColor::Black, 5, 3);
    assert_eq!(ctx.killers[10], first);
    assert_eq!(ctx.history[384 + 64 + 18], 3 * 287 - 428);
    assert_eq!(ctx.continuations[((((0 * 2 + 1) * 6 + 1) * 64 + 18) * 6 + 5) * 64 + 59], 3 * 414 - 427);
    assert_eq!(ctx.continuations[((((1 * 2 + 1) * 6 + 1) * 64 + 18) * 6 + 3) * 64 + 8], 3 * 414 - 427);
    ctx.reward(second, PieceColor::Black, 5, 1);
    assert_eq!((ctx.killers[10], ctx.killers[11]), (second, first));
    assert_eq!(ctx.history[384 + 64 + 21], 287 - 428);
    ctx.reward(second, PieceColor::Black, 5, 9);
    assert_eq!(ctx.history[384 + 64 + 21], 287 - 428);
    ctx.reward(Move::new(1, 18, MoveFlag::CAP, PieceType::Knight), PieceColor::Black, 5, 9);
    assert_eq!((ctx.killers[10], ctx.killers[11]), (second, first));
    assert!(ctx.killer(first, 5));
    assert!(!ctx.killer(first, 4));
}

#[test]
fn a_position_seen_twice_before_is_drawn() {
    let pos = Position::from_fen("4k3/8/8/8/8/8/8/4K2R w - - 8 1").unwrap();
    assert!(!is_draw(&pos, &vec![1, 2, 3, 4, 1, 2, 3, 4, 5]));
    assert!(!is_draw(&pos, &vec![9, 2, 3, 4, 5, 2, 3, 4, 5]));
    assert!(is_draw(&pos, &vec![5, 2, 3, 4, 5, 2, 3, 4, 5]));
    assert!(is_draw(&pos, &vec![5, 5, 5]));
    assert!(!is_draw(&pos, &vec![5, 5]));
    assert!(!is_draw(&pos, &vec![]));
    let fresh = Position::from_fen("4k3/8/8/8/8/8/8/4K2R w - - 3 1").unwrap();
    assert!(!is_draw(&fresh, &vec![5, 2, 3, 4, 5, 2, 3, 4, 5]));
    assert!(!is_draw(&fresh, &vec![5, 5, 5, 7, 7, 5]));
    assert!(is_draw(&fresh, &vec![1, 5, 5, 5]));
    let old = Position::from_fen("4k3/8/8/8/8/8/8/4K2R w - - 100 1").unwrap();
    assert!(is_draw(&old, &vec![1]));
    let almost = Position::from_fen("4k3/8/8/8/8/8/8/4K2R w - - 99 1").unwrap();
    assert!(!is_draw(&almost, &vec![1]));
}

#[test]
fn repeating_moves_on_the_board_is_a_draw() {
    let tables = Tables::new();
    let keys = Keys::new();
    let mut pos = Position::startpos();
    let mut reps = vec![pos.hash(&keys)];
    for text in ["g1f3", "g8f6", "f3g1", "f6g8", "g1f3", "g8f6", "f3g1"] {
        pos.make_move_uci(&tables, text);
        reps.push(pos.hash(&keys));
        assert!(!is_draw(&pos, &reps));
    }
    pos.make_move_uci(&tables, "f6g8");
    reps.push(pos.hash(&keys));
    assert_eq!(pos.halfmove, 8);
    assert!(is_draw(&pos, &reps));
    assert_eq!(movegen::<true>(&tables, &pos).len(), 20);
}

#[test]
fn mate_scores_lose_the_ply_in_the_table_and_get_it_back() {
    assert_eq!(fold_mate(100_250, 7), 100_243);
    assert_eq!(fold_mate(-100_250, 7), -100_243);
    assert_eq!(fold_mate(99_999, 7), 99_999);
    assert_eq!(fold_mate(-99_999, 7), -99_999);
    assert_eq!(unfold_mate(100_243, 7), 100_250);
    assert_eq!(unfold_mate(-100_243, 7), -100_250);
    assert_eq!(unfold_mate(512, 7), 512);
}

#[test]
fn a_stored_entry_cuts_only_where_its_bound_says_so() {
    let (exact, lower, upper) = (TTEntryType::Exact, TTEntryType::Lower, TTEntryType::Upper);
    assert!(tt_cutoff(5, exact, 30, 5, 10, 11));
    assert!(!tt_cutoff(4, exact, 30, 5, 10, 11));
    assert!(!tt_cutoff(5, exact, 30, 5, 10, 12));
    assert!(tt_cutoff(5, lower, 11, 5, 10, 11));
    assert!(!tt_cutoff(5, lower, 10, 5, 10, 11));
    assert!(tt_cutoff(5, upper, 10, 5, 10, 11));
    assert!(!tt_cutoff(5, upper, 11, 5, 10, 11));
    assert_eq!(bound_type(11, 10, 11), lower);
    assert_eq!(bound_type(10, 10, 12), upper);
    assert_eq!(bound_type(11, 10, 12), exact);
}

#[test]
fn a_failed_window_grows() {
    assert_eq!(midpoint(-10, 5), -2);
    assert_eq!(midpoint(10, 15), 12);
    assert_eq!(midpoint(-15, -10), -12);
    assert_eq!(widen(-101, 101, 101, -101), (-202, 0, 176));
    assert_eq!(widen(-101, 101, 101, 150), (-101, 202, 176));
    assert_eq!(widen(-202, 0, 176, -300), (-378, -101, 308));
    assert_eq!(widen(999_000, 999_500, 101, 999_500), (999_000, 999_601, 176));
    assert_eq!(widen(999_000, 999_950, 101, 999_950), (999_000, 1_000_000, 176));
    assert_eq!(widen(-999_950, 0, 101, -999_950), (-1_000_000, -499_975, 176));
    assert_eq!(widen(0, 100, 800_000, 100), (-1_000_000, 1_000_000, 1_400_000));
}

#[test]
fn the_clock_is_read_at_every_2048th_node_but_not_at_the_first_depth() {
    let mut ctx = context();
    assert!(ctx.may_stop);
    assert_eq!(ctx.nodes, 0);
    assert!(ctx.reads_clock(3, 5));
    assert!(ctx.reads_clock(1, 1));
    assert!(ctx.reads_clock(0, 2));
    assert!(!ctx.reads_clock(0, 1));
    ctx.nodes = 2047;
    assert!(!ctx.reads_clock(3, 5));
    ctx.nodes = 4096;
    assert!(ctx.reads_clock(3, 5));
    ctx.may_stop = false;
    assert!(!ctx.reads_clock(3, 5));
}
