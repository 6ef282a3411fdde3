//! The search as a function: what a node gives, and what the search
//! remembers afterwards, from the position, the window and what the search
//! remembered before. It holds of every search that is not broken off by
//! the clock.
use vstd::prelude::*;
use crate::movegen::movegen_spec;
use crate::position::{Move, PieceColor, PieceType};
use crate::search::consts::{
    ASP_DEPTH, ASP_WINDOW, CHECKMATE, FP_BASE, INF, FP_DEPTH, FP_MUL, HIST_ADD, HIST_MUL, LMP_BASE,
    LMP_DEPTH, LMP_MUL, LMR_NMOVES, MAX_PLY, NMP_REDUCTION, Reductions,
};
use crate::search::ordering::{clamped_sum, is_pick, mvvlva_spec};
use crate::search::tt::{score_spec, TTEntry, TT};
use crate::search::qsearch::exposes;
use crate::search::eval::{eg_sum, mg_sum, phase_cut, phase_sum, tapered_spec};
use crate::search::{
    widened, bound_spec, bumped, continuation_index, extended, fold_mate_spec, history_index, is_draw_spec,
    next_hash, next_position, passed_hash, probed, reduction_spec, rewarded, settles, stands_pat,
    table_answer, tries_pass, Engine, Node, SearchContext, SearchPosition,
};

verus! {

/// What a search remembers from node to node and what its results depend
/// on: the hashes of the line, the killers, the histories, the moves of the
/// line, and the slots of the transposition table.
pub struct Memory {
    pub repetitions: Seq<u64>,
    pub killers: Seq<Move>,
    pub history: Seq<i32>,
    pub continuations: Seq<i32>,
    pub move_stack: Seq<Move>,
    pub entries: Seq<TTEntry>,
    pub tt_age: u16,
}

/// What the context and the table remember.
pub open spec fn memory(ctx: SearchContext, tt: TT) -> Memory {
    Memory {
        repetitions: ctx.repetitions@,
        killers: ctx.killers@,
        history: ctx.history@,
        continuations: ctx.continuations@,
        move_stack: ctx.move_stack@,
        entries: tt.entries@,
        tt_age: ctx.tt_age,
    }
}

/// The clock cannot break the search off: it may not stop, or it has no
/// hard limit.
pub open spec fn steady(ctx: SearchContext) -> bool {
    !(ctx.may_stop && ctx.timeman.hard.is_some())
}

/// The move takes nothing and promotes nothing.
pub open spec fn calm(m: Move) -> bool {
    !m.is_capture() && m.promoted() == PieceType::Empty
}

/// Whether `m` is one of the two killers of `ply`.
pub open spec fn killer_in(killers: Seq<Move>, m: Move, ply: u8) -> bool {
    killers[2 * ply] == m || killers[2 * ply + 1] == m
}

/// The score by which `m` is ordered at `ply`, as the context scores it.
pub open spec fn score_of(mem: Memory, m: Move, pos: crate::position::Position, pv: Move, ply: u8) -> int {
    if m == pv {
        i32::MAX as int
    } else if m.is_capture() && m.flags != 5 {
        i32::MAX - 120 + mvvlva_spec(m, pos)
    } else if killer_in(mem.killers, m, ply) {
        i32::MAX - 112
    } else if m.promoted() != PieceType::Empty {
        i32::MAX - 130
    } else if m.flags == 0 {
        clamped_sum(
            mem.history[history_index(pos.side, m)] as int,
            if ply > 0 {
                mem.continuations[continuation_index(0, pos.side, m, mem.move_stack[ply - 1])] as int
            } else {
                0
            },
            if ply > 1 {
                mem.continuations[continuation_index(1, pos.side, m, mem.move_stack[ply - 2])] as int
            } else {
                0
            },
        )
    } else {
        0
    }
}

/// The scores of the moves of `list`.
#[verifier::opaque]
pub open spec fn scores_of(mem: Memory, list: Seq<Move>, pos: crate::position::Position, pv: Move, ply: u8) -> Seq<
    i32,
> {
    Seq::new(list.len(), |i: int| score_of(mem, list[i], pos, pv, ply) as i32)
}

/// The place that the picker takes next.
pub open spec fn pick(scores: Seq<i32>) -> int {
    let idx = choose|idx: int| is_pick(scores, idx);
    if 0 <= idx < scores.len() {
        idx
    } else {
        0
    }
}

/// The memory once the move `m` that cut the search off at `ply` is
/// rewarded.
#[verifier::opaque]
pub open spec fn reward_spec(mem: Memory, m: Move, side: PieceColor, ply: u8, depth: u8) -> Memory {
    if m.flags == 0 && mem.killers[2 * ply] != m {
        Memory {
            killers: mem.killers.update(2 * ply + 1, mem.killers[2 * ply]).update(2 * ply as int, m),
            history: mem.history.update(
                history_index(side, m),
                bumped(mem.history[history_index(side, m)], (depth * HIST_MUL + HIST_ADD) as i32),
            ),
            continuations: rewarded(
                rewarded(mem.continuations, 0, side, m, mem.move_stack, ply, depth),
                1,
                side,
                m,
                mem.move_stack,
                ply,
                depth,
            ),
            ..mem
        }
    } else {
        mem
    }
}

/// The memory once the best move of a node, with its score, has been
/// offered to the table: the score is stored as the root sees a mate, with
/// the bound that the window gives it.
#[verifier::opaque]
pub open spec fn stored(mem: Memory, best_move: Move, best: i32, node: Node) -> Memory {
    let entry = TTEntry {
        hash: mem.repetitions.last(),
        eval: fold_mate_spec(best, node.ply) as i32,
        best: best_move,
        depth: node.depth,
        age: mem.tt_age,
        ty: bound_spec(best, node.alpha, node.beta),
    };
    let slot = (entry.hash as usize) as int % mem.entries.len() as int;
    let held = mem.entries[slot];
    if score_spec(held.age, held.depth) <= score_spec(entry.age, entry.depth) {
        Memory { entries: mem.entries.update(slot, entry), ..mem }
    } else {
        mem
    }
}

/// By how many plies move number `n` is searched less deeply.
pub open spec fn reduced(reductions: Reductions, m: Move, alpha: i32, beta: i32, n: int, depth: u8) -> int {
    if !m.is_capture() && beta - alpha == 1 && n >= LMR_NMOVES && depth > 1 {
        reduction_spec(reductions.entry(depth, if n > 65535 { 65535u16 } else { n as u16 }), depth)
    } else {
        1
    }
}

/// The position after `m`, with its evaluation kept up; the null move
/// passes the turn.
#[verifier::opaque]
pub open spec fn moved(pos: SearchPosition, m: Move) -> SearchPosition {
    next_position(pos, m)
}

/// The hash of the position after `m`, from the hash `hash` of `pos`; the
/// null move passes the turn.
#[verifier::opaque]
pub open spec fn hash_after(e: Engine, hash: u64, pos: crate::position::Position, m: Move) -> u64 {
    if m == Move::null() {
        passed_hash(e.keys, hash, pos)
    } else {
        next_hash(e.keys, hash, pos, m)
    }
}

/// The moves of the side to move, in the order in which they are generated.
#[verifier::opaque]
pub open spec fn all_moves(pos: crate::position::Position) -> Seq<Move> {
    movegen_spec(pos, true)
}

/// The position, whose hash is the last of `reps`, is drawn.
#[verifier::opaque]
pub open spec fn drawn(pos: crate::position::Position, reps: Seq<u64>) -> bool {
    is_draw_spec(pos, reps)
}

/// The depth to which a node is searched: with the extension for a check.
#[verifier::opaque]
pub open spec fn depth_of(pos: crate::position::Position, depth: u8) -> u8 {
    extended(pos, depth) as u8
}

/// What a node gives at once: with no depth left, at the last ply, or
/// with a table entry that answers. `None` where it goes on.
#[verifier::opaque]
pub open spec fn quick(
    pos: SearchPosition,
    entries: Seq<TTEntry>,
    hash: u64,
    alpha: i32,
    beta: i32,
    ply: u8,
    depth: u8,
    is_nm: bool,
) -> Option<(Move, i32)> {
    let d = extended(pos.pos, depth);
    if d == 0 || ply == MAX_PLY || table_answer(entries, hash, alpha, beta, ply, d) is Some {
        settles(pos, entries, hash, alpha, beta, ply, depth, is_nm)
    } else {
        None
    }
}

/// Whether the node tries to pass the turn.
#[verifier::opaque]
pub open spec fn tries(pos: SearchPosition, alpha: i32, beta: i32, ply: u8, depth: u8, is_nm: bool) -> bool {
    tries_pass(pos, alpha, beta, ply, depth as int, is_nm)
}

/// Whether the node stands on its evaluation.
#[verifier::opaque]
pub open spec fn stands(pos: SearchPosition, alpha: i32, beta: i32, depth: u8) -> bool {
    stands_pat(pos, alpha, beta, depth as int)
}

/// The side to move is in check.
#[verifier::opaque]
pub open spec fn checked(pos: crate::position::Position) -> bool {
    pos.in_check_spec(pos.side)
}

/// The move that the table holds for the node; the null move where it
/// holds none.
#[verifier::opaque]
pub open spec fn hint(entries: Seq<TTEntry>, hash: u64, ply: u8) -> Move {
    probed(TT::found(entries, hash), ply).0
}

/// Whether the node passes over its remaining quiet moves once `m` is
/// searched as its move number `n + 1`: `m` is quiet and hopeless at this
/// depth, or the node has searched enough moves for its depth.
#[verifier::opaque]
pub open spec fn passes_over(pos: SearchPosition, m: Move, node: Node, best: i32, n: int) -> bool {
    let child = next_position(pos, m);
    let futile = calm(m) && node.depth <= FP_DEPTH && child.eval + FP_BASE + FP_MUL * node.depth
        <= node.alpha && best > -CHECKMATE;
    let late = best > -CHECKMATE && !node.pv && !node.in_check && node.depth <= LMP_DEPTH && n + 1
        >= LMP_BASE + LMP_MUL * node.depth;
    futile || late
}

/// The memory with `hash` added to the hashes of the line.
pub open spec fn entered(mem: Memory, hash: u64) -> Memory {
    Memory { repetitions: mem.repetitions.push(hash), ..mem }
}

/// The memory with the last hash of the line taken off.
pub open spec fn left(mem: Memory) -> Memory {
    Memory { repetitions: mem.repetitions.drop_last(), ..mem }
}

/// The memory with `m` as the move of the line at `ply`.
pub open spec fn played(mem: Memory, ply: u8, m: Move) -> Memory {
    Memory { move_stack: mem.move_stack.update(ply as int, m), ..mem }
}

/// What the search of a node gives, and what it remembers afterwards.
pub open spec fn negamax_spec(
    e: Engine,
    mem: Memory,
    pos: SearchPosition,
    alpha: i32,
    beta: i32,
    ply: u8,
    depth: u8,
    is_nm: bool,
) -> ((Move, i32), Memory)
    decreases 255 - ply, 6int, 0int,
{
    let d = depth_of(pos.pos, depth);
    let hash = mem.repetitions.last();
    let at_once = quick(pos, mem.entries, hash, alpha, beta, ply, depth, is_nm);
    if at_once is Some {
        (at_once.unwrap(), mem)
    } else {
        let tried = tries(pos, alpha, beta, ply, d, is_nm);
        let passed = pass_spec(e, mem, pos, beta, ply, d);
        if tried && passed.0.1 >= beta {
            passed
        } else {
            let before = if tried {
                passed.1
            } else {
                mem
            };
            if stands(pos, alpha, beta, d) {
                ((Move::null(), pos.eval), before)
            } else {
                finish_spec(
                    e,
                    before,
                    pos,
                    Node {
                        alpha,
                        beta,
                        ply,
                        depth: d,
                        is_nm,
                        pv: beta - alpha != 1,
                        in_check: checked(pos.pos),
                    },
                    hint(mem.entries, hash, ply),
                )
            }
        }
    }
}

/// What a node gives once its moves are searched, `tt_move` first: the
/// score of mate or of the draw where there is no legal move; else the best
/// move with its score, which then goes into the table.
pub open spec fn finish_spec(e: Engine, mem: Memory, pos: SearchPosition, node: Node, tt_move: Move) -> (
    (Move, i32),
    Memory,
)
    decreases 255 - node.ply, 5int, 0int,
{
    let list = all_moves(pos.pos);
    let found = moves_spec(
        e,
        mem,
        pos,
        node,
        list,
        scores_of(mem, list, pos.pos, tt_move, node.ply),
        false,
        true,
        0,
        Move::null(),
        node.alpha,
    );
    if found.2 == 0 {
        (
            (
                Move::null(),
                if node.in_check {
                    (-CHECKMATE - 255 + node.ply) as i32
                } else {
                    0i32
                },
            ),
            found.3,
        )
    } else {
        ((found.0, found.1), stored(found.3, found.0, found.1, node))
    }
}

/// What passing the turn at a node gives: the turn is passed and the
/// position searched less deeply with a window of width one at `beta`.
pub open spec fn pass_spec(e: Engine, mem: Memory, pos: SearchPosition, beta: i32, ply: u8, depth: u8) -> (
    (Move, i32),
    Memory,
)
    decreases 255 - ply, 1int, 0int,
{
    if ply >= 255 || depth < NMP_REDUCTION {
        ((Move::null(), 0i32), mem)
    } else {
        let inside = played(
            entered(mem, hash_after(e, mem.repetitions.last(), pos.pos, Move::null())),
            ply,
            Move::null(),
        );
        let below = negamax_spec(
            e,
            inside,
            moved(pos, Move::null()),
            (-beta) as i32,
            (-beta + 1) as i32,
            (ply + 1) as u8,
            (depth - NMP_REDUCTION) as u8,
            true,
        );
        ((Move::null(), (-below.0.1) as i32), left(below.1))
    }
}

/// What the search of the moves of a node gives once `n_moves` legal moves
/// have been searched with `best_move` and `best` as the best so far, and
/// `moves` with their `scores` are left: the best move, its score, the
/// number of legal moves that were searched, and the memory afterwards.
pub open spec fn moves_spec(
    e: Engine,
    mem: Memory,
    pos: SearchPosition,
    node: Node,
    moves: Seq<Move>,
    scores: Seq<i32>,
    skip_quiets: bool,
    search_pv: bool,
    n_moves: int,
    best_move: Move,
    best: i32,
) -> (Move, i32, int, Memory)
    decreases 255 - node.ply, 4int, moves.len(),
{
    if moves.len() == 0 || scores.len() != moves.len() {
        (best_move, best, n_moves, mem)
    } else {
        let idx = pick(scores);
        let m = moves[idx];
        let rest = moves.remove(idx);
        let rest_scores = scores.remove(idx);
        if calm(m) && skip_quiets && !killer_in(mem.killers, m, node.ply) {
            moves_spec(e, mem, pos, node, rest, rest_scores, skip_quiets, search_pv, n_moves, best_move, best)
        } else if exposes(pos.pos, m) {
            moves_spec(e, mem, pos, node, rest, rest_scores, skip_quiets, search_pv, n_moves, best_move, best)
        } else {
            let tried = try_spec(e, mem, pos, m, node, best, n_moves, search_pv);
            let skip = skip_quiets || passes_over(pos, m, node, best, n_moves);
            if tried.0 > best {
                if tried.0 >= node.beta {
                    (m, tried.0, n_moves + 1, reward_spec(tried.1, m, pos.pos.side, node.ply, node.depth))
                } else {
                    moves_spec(e, tried.1, pos, node, rest, rest_scores, skip, false, n_moves + 1, m, tried.0)
                }
            } else {
                moves_spec(e, tried.1, pos, node, rest, rest_scores, skip, false, n_moves + 1, best_move, best)
            }
        }
    }
}

/// What the legal move `m` of a node scores for the side that plays it,
/// and the memory afterwards.
pub open spec fn try_spec(
    e: Engine,
    mem: Memory,
    pos: SearchPosition,
    m: Move,
    node: Node,
    best: i32,
    n_moves: int,
    search_pv: bool,
) -> (i32, Memory)
    decreases 255 - node.ply, 3int, 0int,
{
    let below = child_spec(
        e,
        entered(mem, hash_after(e, mem.repetitions.last(), pos.pos, m)),
        moved(pos, m),
        m,
        best,
        node.alpha,
        node.beta,
        node.ply,
        node.depth,
        node.is_nm,
        search_pv,
        n_moves + 1,
    );
    ((-below.0.1) as i32, left(below.1))
}

/// What the search of the position that `m` has led to gives, for the side
/// to move there: 0 for a drawn position; for the first move of a node the
/// search with the window from `best` to `beta`; for a later move the search
/// with a window of width one at a reduced depth, and the search with the
/// whole window if that looks better than `best`.
pub open spec fn child_spec(
    e: Engine,
    mem: Memory,
    child: SearchPosition,
    m: Move,
    best: i32,
    alpha: i32,
    beta: i32,
    ply: u8,
    depth: u8,
    is_nm: bool,
    search_pv: bool,
    n_moves: int,
) -> ((Move, i32), Memory)
    decreases 255 - ply, 2int, 0int,
{
    if ply >= 255 || depth < 1 || drawn(child.pos, mem.repetitions) {
        ((Move::null(), 0i32), mem)
    } else {
        let inside = played(mem, ply, m);
        if search_pv {
            negamax_spec(e, inside, child, (-beta) as i32, (-best) as i32, (ply + 1) as u8, (depth - 1) as u8, is_nm)
        } else {
            let red = reduced(e.reductions, m, alpha, beta, n_moves, depth);
            let first = negamax_spec(
                e,
                inside,
                child,
                (-best - 1) as i32,
                (-best) as i32,
                (ply + 1) as u8,
                (depth - red) as u8,
                is_nm,
            );
            if -first.0.1 > best {
                negamax_spec(
                    e,
                    first.1,
                    child,
                    (-beta) as i32,
                    (-best) as i32,
                    (ply + 1) as u8,
                    (depth - 1) as u8,
                    is_nm,
                )
            } else {
                first
            }
        }
    }
}

/// What the tries of one depth give: the search of the root with the
/// window from `alpha` to `beta`, and, as long as its score falls outside
/// the window and the window can grow, the search with the window widened.
pub open spec fn aspire_spec(
    e: Engine,
    mem: Memory,
    root: SearchPosition,
    alpha: i32,
    beta: i32,
    window: i32,
    depth: u8,
) -> ((Move, i32), Memory)
    decreases 2 * INF - window,
{
    let tried = negamax_spec(e, mem, root, alpha, beta, 0, depth, false);
    if (tried.0.1 <= alpha || tried.0.1 >= beta) && ASP_WINDOW <= window <= INF {
        let next = widened(alpha, beta, window, tried.0.1);
        aspire_spec(e, tried.1, root, next.0 as i32, next.1 as i32, next.2 as i32, depth)
    } else {
        tried
    }
}

/// What the depths above `depth` up to `limit` give, one after the other,
/// where `best_move` with the score `best` is what the depths so far gave:
/// from `ASP_DEPTH` on each depth begins with a window around the score of
/// the depth before.
pub open spec fn deepen_spec(
    e: Engine,
    mem: Memory,
    root: SearchPosition,
    depth: u8,
    limit: u8,
    best_move: Move,
    best: i32,
) -> (Move, i32, Memory)
    decreases limit - depth,
{
    if depth >= limit {
        (best_move, best, mem)
    } else {
        let found = depth_spec(e, mem, root, depth, best);
        deepen_spec(e, found.1, root, (depth + 1) as u8, limit, found.0.0, found.0.1)
    }
}

/// What the depth after `depth` gives, where the depths so far gave the
/// score `best`: from `ASP_DEPTH` on it begins with a window around that
/// score, before that with the whole range.
pub open spec fn depth_spec(e: Engine, mem: Memory, root: SearchPosition, depth: u8, best: i32) -> (
    (Move, i32),
    Memory,
) {
    let d = (depth + 1) as u8;
    if d >= ASP_DEPTH {
        aspire_spec(e, mem, root, (best - ASP_WINDOW) as i32, (best + ASP_WINDOW) as i32, ASP_WINDOW, d)
    } else {
        aspire_spec(e, mem, root, (-INF) as i32, INF, ASP_WINDOW, d)
    }
}

/// The position with its evaluation from scratch.
#[verifier::opaque]
pub open spec fn root_of(pos: crate::position::Position) -> SearchPosition {
    let mg = mg_sum(pos, pos.side, 64);
    let eg = eg_sum(pos, pos.side, 64);
    let total = phase_sum(pos, 64);
    SearchPosition {
        pos,
        eval: tapered_spec(mg, eg, phase_cut(total)) as i32,
        mg_eval: mg as i32,
        eg_eval: eg as i32,
        phase: phase_cut(total) as i32,
        material: total as i32,
    }
}

/// What a search remembers when it begins: the hashes of the game, no
/// killers, no history, and the table as it is handed over.
pub open spec fn fresh(repetitions: Seq<u64>, entries: Seq<TTEntry>, age: u16) -> Memory {
    Memory {
        repetitions,
        killers: Seq::new(512, |i: int| Move::null()),
        history: Seq::new(768, |i: int| 0i32),
        continuations: Seq::new(589824, |i: int| 0i32),
        move_stack: Seq::new(256, |i: int| Move::null()),
        entries,
        tt_age: age,
    }
}

/// What a search without a limit on its clock gives: the best move and the
/// score of the deepest of its depths, and what it remembers afterwards.
#[verifier::opaque]
pub open spec fn search_spec(
    e: Engine,
    pos: crate::position::Position,
    repetitions: Seq<u64>,
    entries: Seq<TTEntry>,
    age: u16,
    limit: u8,
) -> (Move, i32, Memory) {
    deepen_spec(e, fresh(repetitions, entries, age), root_of(pos), 0, limit, Move::null(), (-INF) as i32)
}

/// The search gave `expected`: the result and the memory afterwards.
pub open spec fn gives(r: Option<(Move, i32)>, after: Memory, expected: ((Move, i32), Memory)) -> bool {
    r == Some(expected.0) && after == expected.1
}

/// The context scores the moves of a list as its memory does.
pub proof fn lemma_scores(
    ctx: SearchContext,
    tt: TT,
    list: Seq<Move>,
    scores: Seq<i32>,
    pos: crate::position::Position,
    pv: Move,
    ply: u8,
)
    requires
        scores.len() == list.len(),
        forall|i: int| 0 <= i < list.len() ==> #[trigger] scores[i] == ctx.move_score_spec(list[i], pos, pv, ply),
    ensures
        scores == scores_of(memory(ctx, tt), list, pos, pv, ply),
{
    reveal(scores_of);
    assert(scores =~= scores_of(memory(ctx, tt), list, pos, pv, ply));
}

/// The picker's next place is the only one that `is_pick` allows.
pub proof fn lemma_pick(scores: Seq<i32>, idx: int)
    requires
        is_pick(scores, idx),
    ensures
        pick(scores) == idx,
{
    let other = choose|other: int| is_pick(scores, other);
    if other < idx {
        assert(scores[other] < scores[idx]);
    } else if idx < other {
        assert(scores[idx] < scores[other]);
    }
}

} // verus!
