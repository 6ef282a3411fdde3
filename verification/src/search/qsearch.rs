//! The quiescence search: captures only, until the position is quiet.
use vstd::prelude::*;
use crate::movegen::{movegen, movegen_spec};
use crate::position::{Move, Position};
use crate::search::consts::{INF, MAX_PLY, SCORE_LIMIT};
use crate::movegen::laws::lemma_movegen_admitted;
use crate::search::ordering::{lemma_without, lemma_without_all, without};
use crate::search::{next_position, within, Engine, SearchContext, SearchPosition};

verus! {

/// A capture that the machine can play on `pos`.
pub open spec fn capture_of(pos: crate::position::Position, m: Move) -> bool {
    pos.admits(m) && m != Move::null() && m.is_capture()
}

/// The captures of the side to move, in the order in which they are generated.
#[verifier::opaque]
pub open spec fn captures(pos: Position) -> Seq<Move> {
    movegen_spec(pos, false)
}

/// The move leaves the king of the side that plays it in check.
#[verifier::opaque]
pub open spec fn exposes(pos: Position, m: Move) -> bool {
    pos.make_move_spec(m).in_check_spec(pos.side)
}

/// The position after the capture `m`, with its evaluation kept up.
#[verifier::opaque]
pub open spec fn after_capture(pos: SearchPosition, m: Move) -> SearchPosition {
    next_position(pos, m)
}

/// A capture of the side to move that does not leave its king in check.
pub open spec fn legal_capture(pos: Position, m: Move) -> bool {
    captures(pos).contains(m) && !exposes(pos, m)
}

/// The position has a legal capture.
pub open spec fn has_capture(pos: Position) -> bool {
    exists|m: Move| legal_capture(pos, m)
}

/// The best of the evaluation of `pos` and of what the legal ones among its
/// first `n` captures lead to, each valued by the quiet value of the
/// position after it, for the side that played it. At the last ply no
/// capture is looked at.
pub open spec fn best_capture(pos: SearchPosition, plies: int, n: int) -> int
    decreases 255 - plies, n,
{
    let list = captures(pos.pos);
    if plies >= 255 || n <= 0 || n > list.len() {
        pos.eval as int
    } else {
        let rest = best_capture(pos, plies, n - 1);
        let next = after_capture(pos, list[n - 1]);
        if exposes(pos.pos, list[n - 1]) {
            rest
        } else {
            let reply = -best_capture(next, plies + 1, captures(next.pos).len() as int);
            if reply > rest {
                reply
            } else {
                rest
            }
        }
    }
}

/// The quiet value of `pos`, `plies` from the root, for the side to move:
/// its evaluation, or what its best legal capture leads to where that is
/// more. At the last ply it is the evaluation.
pub open spec fn quiet_value(pos: SearchPosition, plies: int) -> int {
    best_capture(pos, plies, captures(pos.pos).len() as int)
}

/// What the capture `m` leads to, for the side that plays it.
pub open spec fn reply_to(pos: SearchPosition, plies: int, m: Move) -> int {
    -quiet_value(after_capture(pos, m), plies + 1)
}

/// The value `v` as a search with the window from `alpha` to `beta` gives
/// it: `beta` where it reaches `beta`, `alpha` where it does not exceed
/// `alpha`.
pub open spec fn cut(v: int, alpha: int, beta: int) -> int {
    if v >= beta {
        beta
    } else if v <= alpha {
        alpha
    } else {
        v
    }
}

/// Every legal capture of `list` that is no longer among `left` leads to no
/// more than `best`.
pub open spec fn settled(pos: SearchPosition, plies: int, list: Seq<Move>, left: Seq<Move>, best: int) -> bool {
    forall|x: Move|
        #[trigger] list.contains(x) && !left.contains(x) && !exposes(pos.pos, x) ==> reply_to(pos, plies, x)
            <= best
}

/// Every capture of `list` that is no longer among `left` leaves the king
/// in check.
pub open spec fn none_so_far(pos: Position, list: Seq<Move>, left: Seq<Move>) -> bool {
    forall|x: Move| #[trigger] list.contains(x) && !left.contains(x) ==> exposes(pos, x)
}

/// The best of the first `n` captures is no less than the evaluation and
/// than what each legal one of them leads to, and it is one of these.
pub proof fn lemma_best_capture(pos: SearchPosition, plies: int, n: int)
    requires
        plies < 255,
        0 <= n <= captures(pos.pos).len(),
    ensures
        best_capture(pos, plies, n) >= pos.eval,
        forall|i: int|
            0 <= i < n && !exposes(pos.pos, #[trigger] captures(pos.pos)[i]) ==> reply_to(
                pos,
                plies,
                captures(pos.pos)[i],
            ) <= best_capture(pos, plies, n),
        best_capture(pos, plies, n) == pos.eval || exists|i: int|
            0 <= i < n && !exposes(pos.pos, #[trigger] captures(pos.pos)[i]) && reply_to(
                pos,
                plies,
                captures(pos.pos)[i],
            ) == best_capture(pos, plies, n),
    decreases n,
{
    if n > 0 {
        lemma_best_capture(pos, plies, n - 1);
        let list = captures(pos.pos);
        let rest = best_capture(pos, plies, n - 1);
        if rest != pos.eval {
            let i = choose|i: int|
                0 <= i < n - 1 && !exposes(pos.pos, #[trigger] list[i]) && reply_to(pos, plies, list[i])
                    == rest;
            assert(0 <= i < n);
        }
        if !exposes(pos.pos, list[n - 1]) {
            assert(reply_to(pos, plies, list[n - 1]) <= best_capture(pos, plies, n));
        }
    }
}

/// The quiet value is no less than the evaluation and than what each legal
/// capture leads to, and it is one of these.
pub proof fn lemma_quiet_value(pos: SearchPosition, plies: int)
    requires
        plies < 255,
    ensures
        quiet_value(pos, plies) >= pos.eval,
        forall|x: Move| #[trigger] legal_capture(pos.pos, x) ==> reply_to(pos, plies, x) <= quiet_value(pos, plies),
        quiet_value(pos, plies) == pos.eval || exists|x: Move|
            #[trigger] legal_capture(pos.pos, x) && reply_to(pos, plies, x) == quiet_value(pos, plies),
{
    let list = captures(pos.pos);
    lemma_best_capture(pos, plies, list.len() as int);
    assert forall|x: Move| #[trigger] legal_capture(pos.pos, x) implies reply_to(pos, plies, x) <= quiet_value(
        pos,
        plies,
    ) by {
        let i = choose|i: int| 0 <= i < list.len() && list[i] == x;
        assert(!exposes(pos.pos, list[i]));
    }
    if quiet_value(pos, plies) != pos.eval {
        let i = choose|i: int|
            0 <= i < list.len() && !exposes(pos.pos, #[trigger] list[i]) && reply_to(pos, plies, list[i])
                == quiet_value(pos, plies);
        assert(list.contains(list[i]));
        assert(legal_capture(pos.pos, list[i]));
    }
}

impl SearchContext {
    /// Searches the captures of `pos` and gives its quiet value as the
    /// window from `alpha` to `beta` shows it: `beta` where the evaluation or
    /// a legal capture reaches it, else the best of `alpha`, the evaluation
    /// and what the legal captures lead to. With a window that is turned
    /// round, `alpha` above `beta`, it gives `beta` where the evaluation
    /// reaches it or a legal capture is looked at, else `alpha`.
    pub fn qsearch(&mut self, engine: &Engine, pos: &SearchPosition, plies: u8, alpha: i32, beta: i32) -> (score:
        i32)
        requires
            engine.wf(),
            old(self).wf(),
            pos.bounded(plies as int),
            pos.pos.halfmove < 255,
            -INF <= alpha <= INF,
            -INF <= beta <= INF,
        ensures
            within(alpha, beta, score),
            alpha <= beta ==> alpha <= score <= beta,
            alpha <= beta ==> score == cut(quiet_value(*pos, plies as int), alpha as int, beta as int),
            alpha > beta ==> score == if pos.eval >= beta || (plies < MAX_PLY && has_capture(pos.pos)) {
                beta
            } else {
                alpha
            },
            pos.eval >= beta ==> score == beta,
            pos.eval < beta && alpha <= beta ==> score >= pos.eval,
            pos.eval < beta && (plies == MAX_PLY || !has_capture(pos.pos)) ==> score == if alpha > pos.eval {
                alpha
            } else {
                pos.eval
            },
            final(self).wf(),
            final(self).repetitions@ == old(self).repetitions@,
            final(self).killers == old(self).killers,
            final(self).history == old(self).history,
            final(self).continuations == old(self).continuations,
            final(self).move_stack == old(self).move_stack,
            final(self).tt_age == old(self).tt_age,
            final(self).may_stop == old(self).may_stop,
            final(self).timeman == old(self).timeman,
        decreases 255 - plies,
    {
        let eval: i32 = pos.eval;
        let ghost value = quiet_value(*pos, plies as int);
        let ghost list = captures(pos.pos);
        proof {
            if plies < 255 {
                lemma_quiet_value(*pos, plies as int);
            }
        }
        if eval >= beta {
            return beta;
        }
        let mut best: i32 = if alpha > eval {
            alpha
        } else {
            eval
        };
        if plies == MAX_PLY {
            return best;
        }
        let generated = movegen::<false>(&engine.tables, &pos.pos);
        proof {
            lemma_movegen_admitted(pos.pos, false);
            assert(list == generated@) by {
                reveal(captures);
            }
        }
        let mut picker = self.order_mvvlva(generated, pos);
        loop
            invariant
                engine.wf(),
                self.wf(),
                picker.wf(),
                plies < 255,
                pos.bounded(plies as int),
                -INF <= beta <= INF,
                -INF <= alpha <= INF,
                alpha <= best <= INF,
                alpha <= beta ==> best <= beta,
                -SCORE_LIMIT <= best,
                best <= alpha || best <= SCORE_LIMIT,
                pos.pos.halfmove < 255,
                forall|i: int| 0 <= i < picker.moves@.len() ==> capture_of(pos.pos, #[trigger] picker.moves@[i]),
                forall|i: int| 0 <= i < picker.moves@.len() ==> list.contains(#[trigger] picker.moves@[i]),
                list == captures(pos.pos),
                value == quiet_value(*pos, plies as int),
                pos.eval < beta,
                pos.eval <= best,
                value >= pos.eval,
                forall|x: Move|
                    #[trigger] legal_capture(pos.pos, x) ==> reply_to(*pos, plies as int, x) <= value,
                value == pos.eval || exists|x: Move|
                    #[trigger] legal_capture(pos.pos, x) && reply_to(*pos, plies as int, x) == value,
                alpha <= beta ==> best <= alpha || best <= value,
                alpha <= beta ==> settled(*pos, plies as int, list, picker.moves@, best as int),
                alpha > beta ==> best == alpha,
                alpha > beta ==> none_so_far(pos.pos, list, picker.moves@),
                self.repetitions@ == old(self).repetitions@,
                self.killers == old(self).killers,
                self.history == old(self).history,
                self.continuations == old(self).continuations,
                self.move_stack == old(self).move_stack,
                self.tt_age == old(self).tt_age,
                self.may_stop == old(self).may_stop,
                self.timeman == old(self).timeman,
            ensures
                picker.moves@.len() == 0,
            decreases picker.moves@.len(),
        {
            let ghost before = picker.moves@;
            let m: Move = match picker.next() {
                None => {
                    break ;
                },
                Some(m) => m,
            };
            proof {
                let idx = choose|idx: int|
                    0 <= idx < before.len() && m == before[idx] && picker.moves@ == without(before, idx);
                assert(capture_of(pos.pos, before[idx]));
                lemma_without_all(before, idx, |x: Move| capture_of(pos.pos, x));
                assert(list.contains(before[idx]));
                lemma_without_all(before, idx, |x: Move| list.contains(x));
                assert forall|x: Move| list.contains(x) && !picker.moves@.contains(x) && x
                    != m implies !before.contains(x) by {
                    if before.contains(x) {
                        lemma_without(before, idx, x);
                    }
                }
            }
            let next: SearchPosition = self.update(&engine.keys, pos, m, false);
            let exposed: bool = next.pos.in_check(&engine.tables, pos.pos.side);
            proof {
                assert(next == after_capture(*pos, m)) by {
                    reveal(after_capture);
                }
                assert(exposed == exposes(pos.pos, m)) by {
                    reveal(exposes);
                }
            }
            if !exposed {
                if self.nodes < u64::MAX {
                    self.nodes = self.nodes + 1;
                }
                let r: i32 = self.qsearch(engine, &next, plies + 1, -beta, -best);
                let eval: i32 = -r;
                proof {
                    assert(legal_capture(pos.pos, m));
                    assert(has_capture(pos.pos));
                    assert(alpha <= beta ==> r == cut(-reply_to(*pos, plies as int, m), -beta, -best));
                }
                if eval >= beta {
                    return beta;
                }
                if eval > best {
                    best = eval;
                }
            }
        }
        proof {
            if alpha <= beta && value != pos.eval {
                let x = choose|x: Move|
                    #[trigger] legal_capture(pos.pos, x) && reply_to(*pos, plies as int, x) == value;
                assert(list.contains(x) && !picker.moves@.contains(x));
            }
            if alpha > beta && has_capture(pos.pos) {
                let x = choose|x: Move| legal_capture(pos.pos, x);
                assert(list.contains(x) && !picker.moves@.contains(x));
            }
        }
        best
    }
}

} // verus!
