//! The game at the root: the position on the board and the hashes of the
//! positions that still count for a repetition.
use vstd::prelude::*;
use crate::movegen::{find_move, first_named, movegen_spec};
use crate::position::{Move, Position};
use crate::search::Engine;

verus! {

/// The last `halfmove + 1` entries of `reps`, or all of them where there
/// are no more: the positions since the last capture or pawn move.
pub open spec fn recent(reps: Seq<u64>, halfmove: u8) -> Seq<u64> {
    if reps.len() > halfmove + 1 {
        reps.subrange(reps.len() - halfmove - 1, reps.len() as int)
    } else {
        reps
    }
}

/// Drops from `reps` what is older than the last `halfmove + 1` entries.
pub fn keep_recent(reps: &mut Vec<u64>, halfmove: u8)
    ensures
        final(reps)@ == recent(old(reps)@, halfmove),
{
    let n: usize = reps.len();
    let keep: usize = halfmove as usize + 1;
    if n > keep {
        let from: usize = n - keep;
        let mut kept: Vec<u64> = Vec::with_capacity(keep);
        let mut i: usize = from;
        while i < n
            invariant
                from <= i <= n,
                n == reps@.len(),
                reps@ == old(reps)@,
                kept@ == reps@.subrange(from as int, i as int),
            decreases n - i,
        {
            kept.push(reps[i]);
            assert(kept@ =~= reps@.subrange(from as int, i + 1));
            i = i + 1;
        }
        *reps = kept;
    }
}

/// A game as the protocol sets it up and plays it on.
pub struct Game {
    pub pos: Position,
    /// The hashes of the positions since the last capture or pawn move, that
    /// of `pos` last.
    pub repetitions: Vec<u64>,
}

impl Game {
    /// The list has the hash of the position as its last entry.
    pub open spec fn wf(self, engine: Engine) -> bool {
        self.repetitions@.len() >= 1 && self.repetitions@.last() == engine.keys.zobrist(self.pos)
    }

    /// The game after `m`: the position after the move, and the list with
    /// its hash added and cut to what still counts.
    pub open spec fn after(self, engine: Engine, m: Move) -> (Position, Seq<u64>) {
        let next = self.pos.make_move_spec(m);
        (next, recent(self.repetitions@.push(engine.keys.zobrist(next)), next.halfmove))
    }

    /// A game that begins with `pos`.
    pub fn new(engine: &Engine, pos: Position) -> (game: Game)
        requires
            engine.wf(),
        ensures
            game.pos == pos,
            game.repetitions@ == seq![engine.keys.zobrist(pos)],
            game.wf(*engine),
    {
        let mut repetitions: Vec<u64> = Vec::new();
        repetitions.push(pos.hash(&engine.keys));
        assert(repetitions@ =~= seq![engine.keys.zobrist(pos)]);
        Game { pos, repetitions }
    }

    /// Plays `m`.
    pub fn advance(&mut self, engine: &Engine, m: Move)
        requires
            engine.wf(),
            old(self).pos.admits(m),
        ensures
            final(self).pos == old(self).after(*engine, m).0,
            final(self).repetitions@ == old(self).after(*engine, m).1,
            final(self).wf(*engine),
    {
        self.pos = self.pos.make_move(m);
        self.repetitions.push(self.pos.hash(&engine.keys));
        keep_recent(&mut self.repetitions, self.pos.halfmove);
    }

    /// Plays the generated move that the protocol writes as `text`. A text
    /// that no generated move has changes nothing, nor does any text once
    /// the clock of the position cannot count on.
    pub fn play(&mut self, engine: &Engine, text: &str)
        requires
            engine.wf(),
        ensures
            match (if old(self).pos.halfmove == 255 {
                None
            } else {
                first_named(movegen_spec(old(self).pos, true), text@)
            }) {
                Some(m) => final(self).pos == old(self).after(*engine, m).0 && final(self).repetitions@
                    == old(self).after(*engine, m).1,
                None => final(self).pos == old(self).pos && final(self).repetitions@ == old(
                    self,
                ).repetitions@,
            },
            old(self).wf(*engine) ==> final(self).wf(*engine),
    {
        if self.pos.halfmove == u8::MAX {
            return ;
        }
        match find_move(&engine.tables, &self.pos, text) {
            Some(m) => {
                self.advance(engine, m);
            },
            None => {},
        }
    }
}

} // verus!
