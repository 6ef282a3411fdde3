//! The order in which the search tries the moves of a position.
use vstd::prelude::*;
use crate::movegen::MoveList;
use crate::position::{find_victim, victim, Move, PieceType, Position};
use crate::search::consts::MVVLVA_LOOKUP;
use crate::search::{
    continuation_index, continuation_slot, history_index, history_slot, indexable, SearchContext,
    SearchPosition,
};

verus! {

/// The moves that are still to be tried, each with its score.
pub struct MovePicker {
    pub moves: MoveList,
    pub scores: Vec<i32>,
}

/// The place that the picker takes next: the first of the highest scores.
pub open spec fn is_pick(scores: Seq<i32>, idx: int) -> bool {
    &&& 0 <= idx < scores.len()
    &&& forall|j: int| 0 <= j < scores.len() ==> scores[j] <= scores[idx]
    &&& forall|j: int| 0 <= j < idx ==> scores[j] < scores[idx]
}

/// A list with the entry at `idx` taken out; the others keep their order.
pub open spec fn without<T>(s: Seq<T>, idx: int) -> Seq<T> {
    s.remove(idx)
}

impl MovePicker {
    /// Every move has its score.
    pub open spec fn wf(self) -> bool {
        self.moves@.len() == self.scores@.len()
    }

    /// The move with the highest score that is left, which then leaves the
    /// picker; of moves with the same score, the one that was generated
    /// first. `None` once no move is left.
    pub fn next(&mut self) -> (r: Option<Move>)
        requires
            old(self).wf(),
        ensures
            final(self).wf(),
            old(self).moves@.len() == 0 ==> r.is_none() && final(self).moves@ == old(self).moves@,
            old(self).moves@.len() > 0 ==> r.is_some() && exists|idx: int|
                is_pick(old(self).scores@, idx) && r.unwrap() == old(self).moves@[idx]
                    && final(self).moves@ == without(old(self).moves@, idx)
                    && final(self).scores@ == without(old(self).scores@, idx),
    {
        let len: usize = self.scores.len();
        if len == 0 {
            return None;
        }
        let mut best: i32 = self.scores[0];
        let mut idx: usize = 0;
        let mut i: usize = 1;
        while i < len
            invariant
                1 <= i <= len,
                len == self.scores@.len(),
                self.scores@ == old(self).scores@,
                self.moves@ == old(self).moves@,
                idx < i,
                best == self.scores@[idx as int],
                forall|j: int| 0 <= j < i ==> self.scores@[j] <= best,
                forall|j: int| 0 <= j < idx ==> self.scores@[j] < best,
            decreases len - i,
        {
            let score: i32 = self.scores[i];
            if score > best {
                idx = i;
                best = score;
            }
            i = i + 1;
        }
        assert(is_pick(self.scores@, idx as int));
        let m: Move = self.moves.moves.remove(idx);
        self.scores.remove(idx);
        Some(m)
    }
}

/// What taking a move out of a list leaves: every other move of the list.
pub proof fn lemma_without(s: Seq<Move>, idx: int, x: Move)
    requires
        0 <= idx < s.len(),
        s.contains(x),
    ensures
        x == s[idx] || without(s, idx).contains(x),
        without(s, idx).len() == s.len() - 1,
        forall|y: Move| without(s, idx).contains(y) ==> s.contains(y),
{
    let w = without(s, idx);
    let j = choose|j: int| 0 <= j < s.len() && s[j] == x;
    if j < idx {
        assert(w[j] == x);
    } else if j > idx {
        assert(w[j - 1] == x);
    }
    assert forall|y: Move| w.contains(y) implies s.contains(y) by {
        let k = choose|k: int| 0 <= k < w.len() && w[k] == y;
        if k < idx {
            assert(s[k] == y);
        } else {
            assert(s[k + 1] == y);
        }
    }
}

/// What holds of every move of a list holds of every move that is left
/// when one is taken out.
pub proof fn lemma_without_all(s: Seq<Move>, idx: int, p: spec_fn(Move) -> bool)
    requires
        0 <= idx < s.len(),
        forall|i: int| 0 <= i < s.len() ==> p(#[trigger] s[i]),
    ensures
        forall|i: int| 0 <= i < without(s, idx).len() ==> p(#[trigger] without(s, idx)[i]),
        without(s, idx).len() == s.len() - 1,
{
    let w = without(s, idx);
    assert forall|i: int| 0 <= i < w.len() implies p(#[trigger] w[i]) by {
        if i < idx {
            assert(w[i] == s[i]);
        } else {
            assert(w[i] == s[i + 1]);
        }
    }
}

/// The value of the capture `m`: by the attacker and the victim; 0 for a move
/// that takes nothing from its target square.
pub open spec fn mvvlva_spec(m: Move, pos: Position) -> int {
    if m.is_capture() && m.flags != 5 && m.piece != PieceType::Empty {
        MVVLVA_LOOKUP[m.piece.idx()][victim(pos.pieces, m.to).idx()] as int
    } else {
        0
    }
}

/// The value of a capture by victim and attacker.
pub fn mvvlva(m: Move, pos: &SearchPosition) -> (score: i32)
    requires
        m.to < 64,
    ensures
        score == mvvlva_spec(m, pos.pos),
        0 <= score <= 17,
{
    if m.capture() && m.flags != 5 && m.piece != PieceType::Empty {
        MVVLVA_LOOKUP[m.piece.index()][find_victim(&pos.pos.pieces, m.to).index()]
    } else {
        0
    }
}

/// The sum of three scores, cut to the range of a score.
pub open spec fn clamped_sum(a: int, b: int, c: int) -> int {
    let sum = a + b + c;
    if sum > i32::MAX {
        i32::MAX as int
    } else if sum < i32::MIN {
        i32::MIN as int
    } else {
        sum
    }
}

impl SearchContext {
    /// Whether `m` is one of the two killer moves of `ply`.
    pub open spec fn is_killer(self, m: Move, ply: u8) -> bool {
        self.killers[2 * ply] == m || self.killers[2 * ply + 1] == m
    }

    /// Whether `m` is one of the two killer moves of `ply`.
    pub fn killer(&self, m: Move, ply: u8) -> (r: bool)
        requires
            self.wf(),
        ensures
            r == self.is_killer(m, ply),
    {
        self.killers[2 * ply as usize] == m || self.killers[2 * ply as usize + 1] == m
    }

    /// The score by which `m` is ordered at `ply`: the move of the
    /// transposition table first; then the captures, by victim and attacker;
    /// then the killers; then the promotions; a quiet move by its history and
    /// its continuation histories after the moves one and two plies before;
    /// every other move 0.
    pub open spec fn move_score_spec(self, m: Move, pos: Position, pv: Move, ply: u8) -> int {
        if m == pv {
            i32::MAX as int
        } else if m.is_capture() && m.flags != 5 {
            i32::MAX - 120 + mvvlva_spec(m, pos)
        } else if self.is_killer(m, ply) {
            i32::MAX - 112
        } else if m.promoted() != PieceType::Empty {
            i32::MAX - 130
        } else if m.flags == 0 {
            clamped_sum(
                self.history[history_index(pos.side, m)] as int,
                if ply > 0 {
                    self.continuations[continuation_index(0, pos.side, m, self.move_stack[ply - 1])] as int
                } else {
                    0
                },
                if ply > 1 {
                    self.continuations[continuation_index(1, pos.side, m, self.move_stack[ply - 2])] as int
                } else {
                    0
                },
            )
        } else {
            0
        }
    }

    /// The score by which `m` is ordered at `ply`.
    pub fn move_score(&self, m: Move, pos: &SearchPosition, pv: Move, ply: u8) -> (score: i32)
        requires
            self.wf(),
            indexable(m),
        ensures
            score == self.move_score_spec(m, pos.pos, pv, ply),
    {
        if m == pv {
            return i32::MAX;
        }
        if m.capture() && m.flags != 5 {
            return i32::MAX - 120 + mvvlva(m, pos);
        }
        if self.killer(m, ply) {
            return i32::MAX - 112;
        }
        if m.promotion() != PieceType::Empty {
            return i32::MAX - 130;
        }
        if m.flags == 0 {
            let h: i64 = self.history[history_slot(pos.pos.side, m)] as i64;
            let c1: i64 = if ply > 0 {
                self.continuations[continuation_slot(0, pos.pos.side, m, self.move_stack[ply as usize - 1])] as i64
            } else {
                0
            };
            let c2: i64 = if ply > 1 {
                self.continuations[continuation_slot(1, pos.pos.side, m, self.move_stack[ply as usize - 2])] as i64
            } else {
                0
            };
            let sum: i64 = h + c1 + c2;
            return if sum > i32::MAX as i64 {
                i32::MAX
            } else if sum < i32::MIN as i64 {
                i32::MIN
            } else {
                sum as i32
            };
        }
        0
    }

    /// A picker over `moves`, each scored for the search at `ply`.
    pub fn movepicker(&self, moves: MoveList, pos: &SearchPosition, pv: Move, ply: u8) -> (picker:
        MovePicker)
        requires
            self.wf(),
            forall|i: int| 0 <= i < moves@.len() ==> indexable(#[trigger] moves@[i]),
        ensures
            picker.wf(),
            picker.moves@ == moves@,
            forall|i: int|
                0 <= i < moves@.len() ==> #[trigger] picker.scores@[i] == self.move_score_spec(
                    moves@[i],
                    pos.pos,
                    pv,
                    ply,
                ),
    {
        let mut scores: Vec<i32> = Vec::with_capacity(moves.len());
        let mut i: usize = 0;
        while i < moves.len()
            invariant
                self.wf(),
                i <= moves@.len(),
                scores@.len() == i,
                forall|k: int| 0 <= k < moves@.len() ==> indexable(#[trigger] moves@[k]),
                forall|k: int|
                    0 <= k < i ==> #[trigger] scores@[k] == self.move_score_spec(
                        moves@[k],
                        pos.pos,
                        pv,
                        ply,
                    ),
            decreases moves@.len() - i,
        {
            scores.push(self.move_score(moves.get(i), pos, pv, ply));
            i = i + 1;
        }
        MovePicker { scores, moves }
    }

    /// A picker over `moves` that gives the captures out by victim and
    /// attacker, the most valuable victim of the least valuable attacker first.
    pub fn order_mvvlva(&self, moves: MoveList, pos: &SearchPosition) -> (picker: MovePicker)
        requires
            forall|i: int| 0 <= i < moves@.len() ==> (#[trigger] moves@[i]).to < 64,
        ensures
            picker.wf(),
            picker.moves@ == moves@,
            forall|i: int|
                0 <= i < moves@.len() ==> #[trigger] picker.scores@[i] == mvvlva_spec(moves@[i], pos.pos),
    {
        let mut scores: Vec<i32> = Vec::with_capacity(moves.len());
        let mut i: usize = 0;
        while i < moves.len()
            invariant
                i <= moves@.len(),
                scores@.len() == i,
                forall|k: int| 0 <= k < moves@.len() ==> (#[trigger] moves@[k]).to < 64,
                forall|k: int| 0 <= k < i ==> #[trigger] scores@[k] == mvvlva_spec(moves@[k], pos.pos),
            decreases moves@.len() - i,
        {
            scores.push(mvvlva(moves.get(i), pos));
            i = i + 1;
        }
        MovePicker { scores, moves }
    }
}

} // verus!
