//! The search: iterative deepening over a principal-variation search.
pub mod consts;
pub mod eval;
pub mod laws;
pub mod model;
pub mod ordering;
pub mod qsearch;
pub mod timeman;
pub mod tt;

use vstd::prelude::*;
use crate::movegen::laws::lemma_movegen_admitted;
use crate::movegen::{movegen, Tables};
use crate::search::consts::{
    CHECKMATE, CONTHIST_ADD, CONTHIST_MUL, FP_BASE, FP_DEPTH, FP_MUL, HIST_ADD, HIST_MUL, LMP_BASE,
    LMP_DEPTH, LMP_MUL, LMR_NMOVES, MAX_PLY, NMP_REDUCTION, RFP_DEPTH, RFP_MARGIN,
};
use crate::search::ordering::{is_pick, lemma_without_all, without};
use crate::search::tt::{TTEntry, TTEntryType, TT};
use crate::search::consts::{ASP_DEPTH, ASP_INC_DEN, ASP_INC_NUM, ASP_WINDOW, INF, SCORE_LIMIT};
use crate::SearchOptions;
use crate::position::{
    ep_victim, find_victim, victim, Move, Piece, PieceColor, PieceType, Position,
};
use crate::search::consts::Reductions;
use crate::search::eval::{
    cut_phase, phase_cut, phase_of, phase_value, pst, sums, tapered, tapered_spec, value_of,
};
use crate::search::model::{
    all_moves, aspire_spec, checked, child_spec, deepen_spec, depth_of, depth_spec, fresh, root_of, search_spec, drawn, finish_spec, gives, hash_after, hint, lemma_pick,
    lemma_scores, memory, moved, moves_spec, negamax_spec, pass_spec, passes_over, played, quick,
    reward_spec, scores_of, stands, steady, stored, tries, try_spec,
};
use crate::search::qsearch::exposes;
use crate::search::timeman::TimeManager;
use crate::zobrist::Keys;

verus! {

/// What every search needs and none changes: the attack tables, the hash
/// keys and the table of reductions.
pub struct Engine {
    pub tables: Tables,
    pub keys: Keys,
    pub reductions: Reductions,
}

impl Engine {
    /// The tables, the keys and the reductions are in order.
    pub open spec fn wf(self) -> bool {
        &&& self.tables.wf()
        &&& self.keys.wf()
        &&& self.reductions.wf()
    }

    /// Builds the tables and the keys.
    pub fn new(reductions: Reductions) -> (engine: Engine)
        requires
            reductions.wf(),
        ensures
            engine.wf(),
            engine.reductions == reductions,
    {
        Engine { tables: Tables::new(), keys: Keys::new(), reductions }
    }
}

/// A position with its evaluation, which is kept up move by move.
#[derive(Debug, Clone, Copy, PartialEq, Eq)]
pub struct SearchPosition {
    pub pos: Position,
    /// The tapered score, for the side to move.
    pub eval: i32,
    /// The midgame score, for the side to move.
    pub mg_eval: i32,
    /// The endgame score, for the side to move.
    pub eg_eval: i32,
    /// The game phase: what the pieces count, cut to 24.
    pub phase: i32,
    /// What the pieces count towards the game phase, uncut: the count from
    /// which the phase is kept up.
    pub material: i32,
}

impl SearchPosition {
    /// The scores are no larger than a position `ply` moves from one that was
    /// evaluated from scratch can have them.
    pub open spec fn bounded(self, ply: int) -> bool {
        &&& -(62976 + 2227 * ply) <= self.mg_eval <= 62976 + 2227 * ply
        &&& -(62976 + 2227 * ply) <= self.eg_eval <= 62976 + 2227 * ply
        &&& -(62976 + 2227 * ply) <= self.eval <= 62976 + 2227 * ply
        &&& -(256 + 4 * ply) <= self.phase <= 24
        &&& -(256 + 4 * ply) <= self.material <= 256 + 4 * ply
    }

    /// The scores are those of the position from scratch.
    pub open spec fn exact(self) -> bool {
        &&& self.mg_eval == crate::search::eval::mg_sum(self.pos, self.pos.side, 64)
        &&& self.eg_eval == crate::search::eval::eg_sum(self.pos, self.pos.side, 64)
        &&& self.material == crate::search::eval::phase_sum(self.pos, 64)
        &&& self.phase == phase_cut(self.material as int)
        &&& self.eval == tapered_spec(self.mg_eval as int, self.eg_eval as int, self.phase as int)
    }

    /// The position with its evaluation from scratch.
    pub fn new(pos: &Position) -> (sp: SearchPosition)
        ensures
            sp.pos == *pos,
            sp.exact(),
            sp.bounded(0),
    {
        let (mg, eg, material) = sums(pos);
        let phase: i32 = cut_phase(material);
        SearchPosition { pos: *pos, eval: tapered(mg, eg, phase), mg_eval: mg, eg_eval: eg, phase, material }
    }
}

/// The midgame score `score` of the side to move (with `endgame`, its
/// endgame score) once `m` is played, for the side that then moves: the
/// moving piece leaves its square, the rook of a castling move changes
/// squares, a victim leaves the board, the piece (or what it is promoted to)
/// lands, and the sign turns.
pub open spec fn next_score(endgame: bool, pos: Position, score: int, m: Move) -> int {
    let side = pos.side;
    let them = pos.side.other();
    let lifted = score - value_of(endgame, m.piece, side, m.from);
    let changed = if m.flags == 2 {
        lifted - value_of(endgame, PieceType::Rook, side, (m.to - 2) as u8) + value_of(
            endgame,
            PieceType::Rook,
            side,
            (m.to + 1) as u8,
        )
    } else if m.flags == 3 {
        lifted - value_of(endgame, PieceType::Rook, side, (m.to + 1) as u8) + value_of(
            endgame,
            PieceType::Rook,
            side,
            (m.to - 1) as u8,
        )
    } else if m.flags == 5 {
        lifted + value_of(endgame, PieceType::Pawn, them, ep_victim(pos.en_passant, side))
    } else if m.is_capture() {
        lifted + value_of(endgame, victim(pos.pieces, m.to), them, m.to)
    } else {
        lifted
    };
    let landed = if m.flags == 2 || m.flags == 3 || m.flags == 5 {
        m.piece
    } else {
        m.placed()
    };
    -(changed + value_of(endgame, landed, side, m.to))
}

/// What the pieces count towards the game phase once `m` is played, where
/// they counted `phase` before: less what a victim counted, more what a
/// promotion adds.
pub open spec fn next_phase(pos: Position, phase: int, m: Move) -> int {
    if m.flags == 2 || m.flags == 3 {
        phase
    } else if m.flags == 5 {
        phase - phase_value(PieceType::Pawn)
    } else {
        (if m.is_capture() {
            phase - phase_value(victim(pos.pieces, m.to))
        } else {
            phase
        }) + (if m.is_promotion() {
            phase_value(m.promoted()) - phase_value(PieceType::Pawn)
        } else {
            0
        })
    }
}

/// The keys of what `m` changes on the board, xored: the moving piece on
/// its origin, the rook of a castling move on the square it leaves and on
/// the one it reaches, the victim, and the piece (or what it is promoted to)
/// on its target.
pub open spec fn piece_keys(keys: Keys, pos: Position, m: Move) -> u64 {
    let side = pos.side;
    let them = pos.side.other();
    let plain_capture = m.flags != 2 && m.flags != 3 && m.flags != 5 && m.is_capture();
    let rook_a = if m.flags == 2 {
        keys.piece_key((m.to - 2) as u8, Piece { color: side, ty: PieceType::Rook })
    } else if m.flags == 3 {
        keys.piece_key((m.to + 1) as u8, Piece { color: side, ty: PieceType::Rook })
    } else {
        0
    };
    let rook_b = if m.flags == 2 {
        keys.piece_key((m.to + 1) as u8, Piece { color: side, ty: PieceType::Rook })
    } else if m.flags == 3 {
        keys.piece_key((m.to - 1) as u8, Piece { color: side, ty: PieceType::Rook })
    } else {
        0
    };
    let gone = if m.flags == 5 {
        keys.piece_key(ep_victim(pos.en_passant, side), Piece { color: them, ty: PieceType::Pawn })
    } else if plain_capture {
        keys.piece_key(m.to, Piece { color: them, ty: victim(pos.pieces, m.to) })
    } else {
        0
    };
    let landed = if m.flags == 2 || m.flags == 3 || m.flags == 5 {
        m.piece
    } else {
        m.placed()
    };
    keys.piece_key(m.from, Piece { color: side, ty: m.piece }) ^ rook_a ^ rook_b ^ gone
        ^ keys.piece_key(m.to, Piece { color: side, ty: landed })
}

/// The keys of the castling rights that `m` takes, xored: both of the
/// mover's if its king moves, the one whose rook leaves its square, and the
/// one of the other side whose rook is taken.
pub open spec fn right_keys(keys: Keys, pos: Position, m: Move) -> u64 {
    let s = pos.side.idx();
    let t = pos.side.other().idx();
    let king = m.piece == PieceType::King;
    let own0 = if king || m.from == pos.castling[s][0] {
        keys.right_key(s, 0, pos.castling[s][0])
    } else {
        0
    };
    let own1 = if king || (m.from != pos.castling[s][0] && m.from == pos.castling[s][1]) {
        keys.right_key(s, 1, pos.castling[s][1])
    } else {
        0
    };
    let plain_capture = m.flags != 2 && m.flags != 3 && m.flags != 5 && m.is_capture();
    let their = if plain_capture && victim(pos.pieces, m.to) == PieceType::Rook {
        if m.to == pos.castling[t][0] {
            keys.right_key(t, 0, pos.castling[t][0])
        } else if m.to == pos.castling[t][1] {
            keys.right_key(t, 1, pos.castling[t][1])
        } else {
            0
        }
    } else {
        0
    };
    own0 ^ own1 ^ their
}

/// The key of the en-passant file before `m`, xored with the key of the
/// file after it.
pub open spec fn ep_keys(keys: Keys, pos: Position, m: Move) -> u64 {
    keys.ep_key(pos.en_passant) ^ if m.flags == 1 {
        keys.en_passant[m.to as int % 8]
    } else {
        0
    }
}

/// The hash once `m` is played, from the hash before: the keys of what the
/// move takes from the position and of what it puts there, xored in.
pub open spec fn next_hash(keys: Keys, hash: u64, pos: Position, m: Move) -> u64 {
    hash ^ piece_keys(keys, pos, m) ^ ep_keys(keys, pos, m) ^ right_keys(keys, pos, m) ^ keys.black
}

/// The hash once the turn is passed.
pub open spec fn passed_hash(keys: Keys, hash: u64, pos: Position) -> u64 {
    hash ^ keys.ep_key(pos.en_passant) ^ keys.black
}

/// The hash once `m` is played.
pub fn update_hash(keys: &Keys, hash: u64, pos: &Position, m: Move) -> (r: u64)
    requires
        keys.wf(),
        pos.admits(m),
    ensures
        r == next_hash(*keys, hash, *pos, m),
{
    let side: PieceColor = pos.side;
    let them: PieceColor = pos.side.flip();
    let s: usize = side.index();
    let t: usize = them.index();
    let king: bool = m.piece == PieceType::King;
    let own0: u64 = if king || m.from == pos.castling[s][0] {
        keys.right(side, 0, pos.castling[s][0])
    } else {
        0
    };
    let own1: u64 = if king || (m.from != pos.castling[s][0] && m.from == pos.castling[s][1]) {
        keys.right(side, 1, pos.castling[s][1])
    } else {
        0
    };
    let plain_capture: bool = m.flags != 2 && m.flags != 3 && m.flags != 5 && m.capture();
    let taken: PieceType = find_victim(&pos.pieces, m.to);
    let rook_a: u64 = if m.flags == 2 {
        keys.piece(m.to - 2, side, PieceType::Rook)
    } else if m.flags == 3 {
        keys.piece(m.to + 1, side, PieceType::Rook)
    } else {
        0
    };
    let rook_b: u64 = if m.flags == 2 {
        keys.piece(m.to + 1, side, PieceType::Rook)
    } else if m.flags == 3 {
        keys.piece(m.to - 1, side, PieceType::Rook)
    } else {
        0
    };
    let gone: u64 = if m.flags == 5 {
        let sq: u8 = match side {
            PieceColor::White => pos.en_passant - 8,
            PieceColor::Black => pos.en_passant + 8,
        };
        keys.piece(sq, them, PieceType::Pawn)
    } else if plain_capture {
        keys.piece(m.to, them, taken)
    } else {
        0
    };
    let their: u64 = if plain_capture && taken == PieceType::Rook {
        if m.to == pos.castling[t][0] {
            keys.right(them, 0, pos.castling[t][0])
        } else if m.to == pos.castling[t][1] {
            keys.right(them, 1, pos.castling[t][1])
        } else {
            0
        }
    } else {
        0
    };
    let landed: PieceType = if m.flags == 2 || m.flags == 3 || m.flags == 5 {
        m.piece
    } else {
        m.landing()
    };
    let new_ep: u64 = if m.flags == 1 {
        keys.en_passant[(m.to % 8) as usize]
    } else {
        0
    };
    let pieces: u64 = keys.piece(m.from, side, m.piece) ^ rook_a ^ rook_b ^ gone ^ keys.piece(
        m.to,
        side,
        landed,
    );
    let files: u64 = keys.file(pos.en_passant) ^ new_ep;
    let rights: u64 = own0 ^ own1 ^ their;
    hash ^ pieces ^ files ^ rights ^ keys.black
}

/// The midgame score (with `endgame`, the endgame score) once `m` is played.
pub fn update_score(endgame: bool, pos: &Position, score: i32, m: Move) -> (r: i32)
    requires
        pos.admits(m),
        -1000000 <= score <= 1000000,
    ensures
        r == next_score(endgame, *pos, score as int, m),
        -2227 <= r + score <= 2227,
{
    let side: PieceColor = pos.side;
    let them: PieceColor = pos.side.flip();
    let lifted: i32 = score - pst(endgame, m.piece, side, m.from);
    let changed: i32 = if m.flags == 2 {
        lifted - pst(endgame, PieceType::Rook, side, m.to - 2) + pst(endgame, PieceType::Rook, side, m.to + 1)
    } else if m.flags == 3 {
        lifted - pst(endgame, PieceType::Rook, side, m.to + 1) + pst(endgame, PieceType::Rook, side, m.to - 1)
    } else if m.flags == 5 {
        let sq: u8 = match side {
            PieceColor::White => pos.en_passant - 8,
            PieceColor::Black => pos.en_passant + 8,
        };
        lifted + pst(endgame, PieceType::Pawn, them, sq)
    } else if m.capture() {
        lifted + pst(endgame, find_victim(&pos.pieces, m.to), them, m.to)
    } else {
        lifted
    };
    let landed: PieceType = if m.flags == 2 || m.flags == 3 || m.flags == 5 {
        m.piece
    } else {
        m.landing()
    };
    -(changed + pst(endgame, landed, side, m.to))
}

/// What the pieces count towards the game phase once `m` is played, where
/// they counted `phase` before.
pub fn update_phase(pos: &Position, phase: i32, m: Move) -> (r: i32)
    requires
        pos.admits(m),
        -1000000 <= phase <= 1000000,
    ensures
        r == next_phase(*pos, phase as int, m),
        -4 <= r - phase <= 4,
{
    if m.flags == 2 || m.flags == 3 {
        phase
    } else if m.flags == 5 {
        phase - phase_of(PieceType::Pawn)
    } else {
        let after: i32 = if m.capture() {
            phase - phase_of(find_victim(&pos.pieces, m.to))
        } else {
            phase
        };
        if m.flags & 8 != 0 {
            after + (phase_of(m.promotion()) - phase_of(PieceType::Pawn))
        } else {
            after
        }
    }
}

/// A score that a search with the window from `alpha` to `beta` may give:
/// it is beyond the limit of all scores only where the window itself is, on
/// the side of the bound that it then meets.
pub open spec fn within(alpha: i32, beta: i32, score: i32) -> bool {
    &&& score >= -SCORE_LIMIT || score >= beta
    &&& score <= SCORE_LIMIT || score <= alpha
    &&& -INF <= score <= INF
}

/// A move other than the null move that the machine can play on `pos`.
pub open spec fn real_move(pos: Position, m: Move) -> bool {
    pos.admits(m) && m != Move::null()
}

/// What one search keeps while it runs.
pub struct SearchContext {
    pub timeman: TimeManager,
    /// The positions that the search has reached.
    pub nodes: u64,
    /// The hashes of the positions from the start of the game to the one
    /// that is being searched.
    pub repetitions: Vec<u64>,
    /// Two quiet moves per ply that cut the search off there: those of ply
    /// `p` stand at `2 * p` and `2 * p + 1`.
    pub killers: Vec<Move>,
    /// How well a quiet move of a side, by piece and target, has done: at
    /// `side * 384 + piece * 64 + to`.
    pub history: Vec<i32>,
    /// How well a quiet move has done after the move one ply before (table
    /// 0) and two plies before (table 1), see [`continuation_index`].
    pub continuations: Vec<i32>,
    /// The move that was played at each ply of the line that is being searched.
    pub move_stack: Vec<Move>,
    /// The age with which entries go into the transposition table.
    pub tt_age: u16,
    /// Whether the search may be broken off when the hard limit has passed.
    pub may_stop: bool,
}

/// Where the history of a quiet move stands.
pub open spec fn history_index(side: PieceColor, m: Move) -> int {
    side.idx() * 384 + m.piece.idx() * 64 + m.to
}

/// Where the continuation history of `m` after `prev` stands in table `table`.
pub open spec fn continuation_index(table: int, side: PieceColor, m: Move, prev: Move) -> int {
    ((((table * 2 + side.idx()) * 6 + m.piece.idx()) * 64 + m.to) * 6 + prev.piece.idx()) * 64
        + prev.to
}

/// A move that can index the history tables.
pub open spec fn indexable(m: Move) -> bool {
    m.to < 64 && m.piece != PieceType::Empty
}

/// Where the history of a quiet move stands.
pub fn history_slot(side: PieceColor, m: Move) -> (i: usize)
    requires
        indexable(m),
    ensures
        i == history_index(side, m),
        i < 768,
{
    side.index() * 384 + m.piece.index() * 64 + m.to as usize
}

/// Where the continuation history of `m` after `prev` stands in table `table`.
pub fn continuation_slot(table: usize, side: PieceColor, m: Move, prev: Move) -> (i: usize)
    requires
        table < 2,
        indexable(m),
        indexable(prev),
    ensures
        i == continuation_index(table as int, side, m, prev),
        i < 589824,
{
    let a: usize = table * 2 + side.index();
    let b: usize = a * 6 + m.piece.index();
    let c: usize = b * 64 + m.to as usize;
    let d: usize = c * 6 + prev.piece.index();
    d * 64 + prev.to as usize
}

impl SearchContext {
    /// The tables have their sizes, the line has a move for every ply, and
    /// there is a hash for the position that is being searched.
    pub open spec fn wf(self) -> bool {
        &&& self.repetitions.len() >= 1
        &&& self.killers.len() == 512
        &&& self.history.len() == 768
        &&& self.continuations.len() == 589824
        &&& self.move_stack.len() == 256
        &&& forall|i: int| 0 <= i < 256 ==> indexable(#[trigger] self.move_stack[i])
    }

    /// A fresh context: no nodes, empty tables.
    pub fn new(timeman: TimeManager, repetitions: Vec<u64>, tt_age: u16) -> (ctx: SearchContext)
        requires
            repetitions.len() >= 1,
        ensures
            ctx.wf(),
            ctx.repetitions@ == repetitions@,
            ctx.nodes == 0,
            ctx.tt_age == tt_age,
            ctx.may_stop,
            ctx.timeman == timeman,
            forall|i: int| 0 <= i < 512 ==> ctx.killers[i] == Move::null(),
            forall|i: int| 0 <= i < 768 ==> ctx.history[i] == 0,
            forall|i: int| 0 <= i < 589824 ==> ctx.continuations[i] == 0,
            forall|i: int| 0 <= i < 256 ==> ctx.move_stack[i] == Move::null(),
    {
        SearchContext {
            timeman,
            nodes: 0,
            repetitions,
            killers: filled_moves(512),
            history: zeros(768),
            continuations: zeros(589824),
            move_stack: filled_moves(256),
            tt_age,
            may_stop: true,
        }
    }

    /// The hash of the position that is being searched.
    pub fn hash(&self) -> (h: u64)
        requires
            self.repetitions.len() >= 1,
        ensures
            h == self.repetitions@.last(),
    {
        self.repetitions[self.repetitions.len() - 1]
    }
}

fn zeros(n: usize) -> (v: Vec<i32>)
    ensures
        v.len() == n,
        forall|i: int| 0 <= i < n ==> v[i] == 0,
{
    let mut v: Vec<i32> = Vec::with_capacity(n);
    let mut i: usize = 0;
    while i < n
        invariant
            i <= n,
            v.len() == i,
            forall|j: int| 0 <= j < i ==> v[j] == 0,
        decreases n - i,
    {
        v.push(0);
        i = i + 1;
    }
    v
}

fn filled_moves(n: usize) -> (v: Vec<Move>)
    ensures
        v.len() == n,
        forall|i: int| 0 <= i < n ==> v[i] == Move::null(),
{
    let mut v: Vec<Move> = Vec::with_capacity(n);
    let mut i: usize = 0;
    while i < n
        invariant
            i <= n,
            v.len() == i,
            forall|j: int| 0 <= j < i ==> v[j] == Move::null(),
        decreases n - i,
    {
        v.push(Move::null_move());
        i = i + 1;
    }
    v
}

/// How often the last of `reps` stands among the `window` entries before it.
pub open spec fn repeats(reps: Seq<u64>, window: int) -> int
    decreases window,
{
    if window <= 0 || reps.len() < window + 1 {
        0
    } else {
        repeats(reps, window - 1) + if reps[reps.len() - 1 - window] == reps.last() {
            1int
        } else {
            0int
        }
    }
}

/// The number of earlier positions that count for a repetition: those since
/// the last capture or pawn move, as far as the list goes back.
pub open spec fn window_of(pos: Position, reps: Seq<u64>) -> int {
    if reps.len() == 0 {
        0
    } else if pos.halfmove < reps.len() - 1 {
        pos.halfmove as int
    } else {
        reps.len() - 1
    }
}

/// A position is drawn once its clock has reached a hundred, or once it has
/// stood on the board twice before since the last capture or pawn move.
pub open spec fn is_draw_spec(pos: Position, reps: Seq<u64>) -> bool {
    pos.halfmove >= 100 || repeats(reps, window_of(pos, reps)) >= 2
}

/// Whether `pos`, whose hash is the last of `reps`, is drawn by the
/// fifty-move rule or by repetition.
pub fn is_draw(pos: &Position, reps: &Vec<u64>) -> (r: bool)
    ensures
        r == is_draw_spec(*pos, reps@),
{
    if pos.halfmove >= 100 {
        return true;
    }
    let len: usize = reps.len();
    if len == 0 {
        return false;
    }
    let window: usize = if (pos.halfmove as usize) < len - 1 {
        pos.halfmove as usize
    } else {
        len - 1
    };
    let last: u64 = reps[len - 1];
    let mut n: usize = 0;
    let mut d: usize = 0;
    while d < window
        invariant
            d <= window <= len - 1,
            len == reps@.len(),
            last == reps@.last(),
            n == repeats(reps@, d as int),
            n <= d,
        decreases window - d,
    {
        d = d + 1;
        if reps[len - 1 - d] == last {
            n = n + 1;
        }
    }
    n >= 2
}

impl SearchContext {
    /// Whether `pos`, which is being searched, is drawn.
    pub fn is_draw(&self, pos: &Position) -> (r: bool)
        ensures
            r == is_draw_spec(*pos, self.repetitions@),
    {
        is_draw(pos, &self.repetitions)
    }

    /// The position after `m`, with its evaluation kept up; with
    /// `update_hash` its hash goes onto the list of positions. The null move
    /// passes the turn.
    pub fn update(&mut self, keys: &Keys, pos: &SearchPosition, m: Move, update_hash: bool) -> (next:
        SearchPosition)
        requires
            keys.wf(),
            old(self).wf(),
            m != Move::null() ==> pos.pos.admits(m),
            -1000000 <= pos.mg_eval <= 1000000,
            -1000000 <= pos.eg_eval <= 1000000,
            -1000000 <= pos.eval <= 1000000,
            -1000000 <= pos.material <= 1000000,
        ensures
            next == next_position(*pos, m),
            final(self).repetitions@ == if update_hash {
                old(self).repetitions@.push(
                    if m == Move::null() {
                        passed_hash(*keys, old(self).repetitions@.last(), pos.pos)
                    } else {
                        next_hash(*keys, old(self).repetitions@.last(), pos.pos, m)
                    },
                )
            } else {
                old(self).repetitions@
            },
            final(self).wf(),
            final(self).nodes == old(self).nodes,
            final(self).killers == old(self).killers,
            final(self).history == old(self).history,
            final(self).continuations == old(self).continuations,
            final(self).move_stack == old(self).move_stack,
            final(self).tt_age == old(self).tt_age,
            final(self).may_stop == old(self).may_stop,
            final(self).timeman == old(self).timeman,
            forall|ply: int| pos.bounded(ply) ==> next.bounded(ply + 1),
    {
        let hash: u64 = self.hash();
        if m == Move::null_move() {
            if update_hash {
                self.repetitions.push(hash ^ keys.file(pos.pos.en_passant) ^ keys.black);
            }
            return SearchPosition {
                pos: pos.pos.pass(),
                eval: -pos.eval,
                mg_eval: -pos.mg_eval,
                eg_eval: -pos.eg_eval,
                phase: pos.phase,
                material: pos.material,
            };
        }
        if update_hash {
            let next_hash: u64 = update_hash_of(keys, hash, &pos.pos, m);
            self.repetitions.push(next_hash);
        }
        let mg: i32 = update_score(false, &pos.pos, pos.mg_eval, m);
        let eg: i32 = update_score(true, &pos.pos, pos.eg_eval, m);
        let material: i32 = update_phase(&pos.pos, pos.material, m);
        let phase: i32 = cut_phase(material);
        SearchPosition {
            pos: pos.pos.make_move(m),
            eval: tapered(mg, eg, phase),
            mg_eval: mg,
            eg_eval: eg,
            phase,
            material,
        }
    }
}

/// The position after `m` with its evaluation kept up. The null move
/// passes the turn and turns the signs.
pub open spec fn next_position(pos: SearchPosition, m: Move) -> SearchPosition {
    if m == Move::null() {
        SearchPosition {
            pos: pos.pos.pass_spec(),
            eval: (-pos.eval) as i32,
            mg_eval: (-pos.mg_eval) as i32,
            eg_eval: (-pos.eg_eval) as i32,
            phase: pos.phase,
            material: pos.material,
        }
    } else {
        let mg = next_score(false, pos.pos, pos.mg_eval as int, m);
        let eg = next_score(true, pos.pos, pos.eg_eval as int, m);
        let material = next_phase(pos.pos, pos.material as int, m);
        let phase = phase_cut(material);
        SearchPosition {
            pos: pos.pos.make_move_spec(m),
            eval: tapered_spec(mg, eg, phase) as i32,
            mg_eval: mg as i32,
            eg_eval: eg as i32,
            phase: phase as i32,
            material: material as i32,
        }
    }
}

/// The hash once `m` is played.
fn update_hash_of(keys: &Keys, hash: u64, pos: &Position, m: Move) -> (r: u64)
    requires
        keys.wf(),
        pos.admits(m),
    ensures
        r == next_hash(*keys, hash, *pos, m),
{
    update_hash(keys, hash, pos, m)
}

/// A score with a mate in it as it goes into the transposition table: the
/// plies from the root are taken out.
pub open spec fn fold_mate_spec(score: i32, ply: u8) -> int {
    if score >= CHECKMATE {
        score - ply
    } else if score <= -CHECKMATE {
        score + ply
    } else {
        score as int
    }
}

/// A score as it goes into the transposition table.
pub fn fold_mate(score: i32, ply: u8) -> (r: i32)
    requires
        -INF <= score <= INF,
    ensures
        r == fold_mate_spec(score, ply),
{
    if score >= CHECKMATE {
        score - ply as i32
    } else if score <= -CHECKMATE {
        score + ply as i32
    } else {
        score
    }
}

/// A score with a mate in it as it comes out of the transposition table: the
/// plies from the root are put in.
pub open spec fn unfold_mate_spec(score: i32, ply: u8) -> int {
    if score >= CHECKMATE {
        score + ply
    } else if score <= -CHECKMATE {
        score - ply
    } else {
        score as int
    }
}

/// A score as it comes out of the transposition table.
pub fn unfold_mate(score: i32, ply: u8) -> (r: i32)
    requires
        -2000000 <= score <= 2000000,
    ensures
        r == unfold_mate_spec(score, ply),
{
    if score >= CHECKMATE {
        score + ply as i32
    } else if score <= -CHECKMATE {
        score - ply as i32
    } else {
        score
    }
}

/// A score that is beyond the mate threshold by more than the deepest ply
/// comes out of the table as it went in, as long as it is read at the ply at
/// which it was stored; so does every score that is no mate.
pub proof fn lemma_fold_unfold(score: i32, ply: u8)
    requires
        -INF <= score <= INF,
        score >= CHECKMATE + 255 || score <= -CHECKMATE - 255 || -CHECKMATE < score < CHECKMATE,
    ensures
        unfold_mate_spec(fold_mate_spec(score, ply) as i32, ply) == score,
{
}

/// Whether a stored entry settles a node: it was searched at least as
/// deeply, its bound holds on the right side of the window, and the window
/// is of width one.
pub open spec fn tt_cuts(
    stored_depth: u8,
    ty: TTEntryType,
    stored: i32,
    depth: u8,
    alpha: i32,
    beta: i32,
) -> bool {
    &&& stored_depth >= depth
    &&& ty == TTEntryType::Exact || (ty == TTEntryType::Lower && stored >= beta) || (ty
        == TTEntryType::Upper && alpha >= stored)
    &&& alpha + 1 == beta
}

/// Whether a stored entry settles a node.
pub fn tt_cutoff(stored_depth: u8, ty: TTEntryType, stored: i32, depth: u8, alpha: i32, beta: i32) -> (r:
    bool)
    requires
        -INF <= alpha <= INF,
    ensures
        r == tt_cuts(stored_depth, ty, stored, depth, alpha, beta),
{
    stored_depth >= depth && (ty == TTEntryType::Exact || (ty == TTEntryType::Lower && stored >= beta)
        || (ty == TTEntryType::Upper && alpha >= stored)) && alpha + 1 == beta
}

/// How a score that was searched with the window from `alpha` to `beta`
/// bounds the true one.
pub open spec fn bound_spec(best: i32, alpha: i32, beta: i32) -> TTEntryType {
    if best >= beta {
        TTEntryType::Lower
    } else if best <= alpha {
        TTEntryType::Upper
    } else {
        TTEntryType::Exact
    }
}

/// How a score bounds the true one.
pub fn bound_type(best: i32, alpha: i32, beta: i32) -> (ty: TTEntryType)
    ensures
        ty == bound_spec(best, alpha, beta),
{
    if best >= beta {
        TTEntryType::Lower
    } else if best <= alpha {
        TTEntryType::Upper
    } else {
        TTEntryType::Exact
    }
}

/// A reduction cut to the range from one ply to all plies but one.
pub open spec fn reduction_spec(read: u8, depth: u8) -> int {
    if read < 1 {
        1
    } else if read > depth - 1 {
        depth - 1
    } else {
        read as int
    }
}

/// By how many plies move number `n_moves` is searched less deeply at
/// `depth`: a quiet move at a node with a window of width one, from the
/// fifth move on and at a depth above one, by what the table says, cut to
/// leave a ply; every other move by one ply.
pub fn reduction(reductions: &Reductions, m: Move, alpha: i32, beta: i32, n_moves: usize, depth: u8) -> (red:
    u8)
    requires
        reductions.wf(),
        depth >= 1,
        -INF <= alpha <= INF,
        -INF <= beta <= INF,
    ensures
        1 <= red <= depth,
        red == if !m.is_capture() && beta - alpha == 1 && n_moves >= LMR_NMOVES && depth > 1 {
            reduction_spec(
                reductions.entry(depth, if n_moves > 65535 { 65535u16 } else { n_moves as u16 }),
                depth,
            )
        } else {
            1
        },
{
    if !m.capture() && beta - alpha == 1 && n_moves >= LMR_NMOVES as usize && depth > 1 {
        let n: u16 = if n_moves > 65535 {
            65535
        } else {
            n_moves as u16
        };
        let read: u8 = reductions.get(depth, n);
        if read < 1 {
            1
        } else if read > depth - 1 {
            depth - 1
        } else {
            read
        }
    } else {
        1
    }
}

/// A table entry raised by `by`, cut to the range of a score.
pub open spec fn bumped(v: i32, by: i32) -> i32 {
    if v + by > i32::MAX {
        i32::MAX
    } else if v + by < i32::MIN {
        i32::MIN
    } else {
        (v + by) as i32
    }
}

fn bump(v: i32, by: i32) -> (r: i32)
    ensures
        r == bumped(v, by),
{
    let sum: i64 = v as i64 + by as i64;
    if sum > i32::MAX as i64 {
        i32::MAX
    } else if sum < i32::MIN as i64 {
        i32::MIN
    } else {
        sum as i32
    }
}

impl SearchContext {
    /// Everything but the nodes, the list of positions and the tables that
    /// the search learns is as in `before`.
    pub open spec fn same_setup(self, before: SearchContext) -> bool {
        &&& self.tt_age == before.tt_age
        &&& self.may_stop == before.may_stop
        &&& self.timeman == before.timeman
    }

    /// Rewards the quiet move `m` of `side` that cut the search off at `ply`:
    /// unless it is the first killer of the ply already, it becomes the first
    /// killer, the first becomes the second, and its history and its
    /// continuation histories rise by a bonus that grows with the depth.
    pub fn reward(&mut self, m: Move, side: PieceColor, ply: u8, depth: u8)
        requires
            old(self).wf(),
            indexable(m),
        ensures
            final(self).wf(),
            final(self).same_setup(*old(self)),
            final(self).repetitions == old(self).repetitions,
            final(self).nodes == old(self).nodes,
            final(self).move_stack == old(self).move_stack,
            !(m.flags == 0 && old(self).killers[2 * ply] != m) ==> final(self).killers == old(self).killers
                && final(self).history == old(self).history && final(self).continuations == old(
                self,
            ).continuations,
            m.flags == 0 && old(self).killers[2 * ply] != m ==> {
                &&& final(self).killers@ == old(self).killers@.update(2 * ply + 1, old(self).killers[2
                    * ply]).update(2 * ply as int, m)
                &&& final(self).history@ == old(self).history@.update(
                    history_index(side, m),
                    bumped(
                        old(self).history[history_index(side, m)],
                        (depth * HIST_MUL + HIST_ADD) as i32,
                    ),
                )
                &&& final(self).continuations@ == rewarded(
                    rewarded(old(self).continuations@, 0, side, m, old(self).move_stack@, ply, depth),
                    1,
                    side,
                    m,
                    old(self).move_stack@,
                    ply,
                    depth,
                )
            },
    {
        let p: usize = ply as usize;
        if m.flags == 0 && self.killers[2 * p] != m {
            let first: Move = self.killers[2 * p];
            self.killers[2 * p + 1] = first;
            self.killers[2 * p] = m;
            let h: usize = history_slot(side, m);
            let old_h: i32 = self.history[h];
            self.history[h] = bump(old_h, depth as i32 * HIST_MUL + HIST_ADD);
            if ply > 0 {
                let c: usize = continuation_slot(0, side, m, self.move_stack[p - 1]);
                let old_c: i32 = self.continuations[c];
                self.continuations[c] = bump(old_c, depth as i32 * CONTHIST_MUL + CONTHIST_ADD);
            }
            if ply > 1 {
                let c: usize = continuation_slot(1, side, m, self.move_stack[p - 2]);
                let old_c: i32 = self.continuations[c];
                self.continuations[c] = bump(old_c, depth as i32 * CONTHIST_MUL + CONTHIST_ADD);
            }
        }
    }
}

/// The continuation histories with the entry of `m` after the move `table +
/// 1` plies before raised; unchanged where the line is not that long.
pub open spec fn rewarded(
    continuations: Seq<i32>,
    table: int,
    side: PieceColor,
    m: Move,
    stack: Seq<Move>,
    ply: u8,
    depth: u8,
) -> Seq<i32> {
    if ply > table {
        let c = continuation_index(table, side, m, stack[ply - 1 - table]);
        continuations.update(c, bumped(continuations[c], (depth * CONTHIST_MUL + CONTHIST_ADD) as i32))
    } else {
        continuations
    }
}

/// A legal move: the generator lists it and it does not leave the mover's
/// king in check.
pub open spec fn legal(pos: Position, m: Move) -> bool {
    crate::movegen::movegen_spec(pos, true).contains(m) && !pos.make_move_spec(m).in_check_spec(
        pos.side,
    )
}

/// The position has a legal move.
pub open spec fn has_legal(pos: Position) -> bool {
    exists|m: Move| legal(pos, m)
}

/// What the best move of a position may be: a legal move if there is one,
/// else the null move.
pub open spec fn best_found(pos: Position, m: Move) -> bool {
    if has_legal(pos) {
        legal(pos, m)
    } else {
        m == Move::null()
    }
}

/// What a search of one node gives: a move with its score, or nothing
/// where the search was broken off, which happens only to a search that may
/// stop and has a hard limit.
pub open spec fn answers(
    before: SearchContext,
    after: SearchContext,
    alpha: i32,
    beta: i32,
    r: Option<(Move, i32)>,
) -> bool {
    &&& after.wf()
    &&& after.same_setup(before)
    &&& before.repetitions@.is_prefix_of(after.repetitions@)
    &&& match r {
        Some((m, score)) => within(alpha, beta, score) && after.repetitions@ == before.repetitions@,
        None => before.may_stop && before.timeman.hard.is_some(),
    }
}

impl SearchContext {
    /// Whether the clock is read at this node: the search may stop, the
    /// number of nodes is a multiple of 2048, and the node is not in the
    /// first ply of a search of depth one.
    pub open spec fn clock_due(self, ply: u8, depth: u8) -> bool {
        self.may_stop && self.nodes % 2048 == 0 && !(ply == 0 && depth == 1)
    }

    /// Whether the clock is read at this node.
    pub fn reads_clock(&self, ply: u8, depth: u8) -> (r: bool)
        ensures
            r == self.clock_due(ply, depth),
    {
        self.may_stop && self.nodes % 2048 == 0 && !(ply == 0 && depth == 1)
    }

    /// Whether the search is to be broken off now: this is one of the nodes
    /// at which the clock is read, and the hard limit has passed. Where the
    /// clock is not read, or there is no hard limit, the search goes on
    /// whatever the time.
    fn out_of_time(&self, ply: u8, depth: u8) -> (r: bool)
        ensures
            !self.clock_due(ply, depth) ==> !r,
            self.timeman.hard.is_none() || self.timeman.hard == Some(u64::MAX) ==> !r,
    {
        self.reads_clock(ply, depth) && self.timeman.hard_stop()
    }

    /// Searches the position that `m` has led to, for the side that played
    /// `m`: a drawn position scores 0. The first move of a node is searched
    /// with the window from `best` to `beta`; a later move first with a window
    /// of width one above `best`, at a reduced depth, and again with the whole
    /// window if it then looks better than `best`. The score is that of the
    /// side to move in `child`.
    fn search_child(
        &mut self,
        engine: &Engine,
        tt: &mut TT,
        child: &SearchPosition,
        m: Move,
        best: i32,
        alpha: i32,
        beta: i32,
        ply: u8,
        depth: u8,
        is_nm: bool,
        search_pv: bool,
        n_moves: usize,
    ) -> (r: Option<(Move, i32)>)
        requires
            engine.wf(),
            old(self).wf(),
            old(tt).wf(),
            child.bounded(ply + 1),
            ply < 255,
            depth >= 1,
            indexable(m),
            -INF <= alpha <= best < beta <= INF,
        ensures
            answers(*old(self), *final(self), (-beta) as i32, (-best) as i32, r),
            final(tt).wf(),
            final(tt).entries.len() == old(tt).entries.len(),
            is_draw_spec(child.pos, old(self).repetitions@) ==> r == Some((Move::null(), 0i32))
                && *final(self) == *old(self) && *final(tt) == *old(tt),
            r.is_some() ==> gives(
                r,
                memory(*final(self), *final(tt)),
                child_spec(
                    *engine,
                    memory(*old(self), *old(tt)),
                    *child,
                    m,
                    best,
                    alpha,
                    beta,
                    ply,
                    depth,
                    is_nm,
                    search_pv,
                    n_moves as int,
                ),
            ),
        decreases 255 - ply, 1nat,
    {
        proof {
            reveal(drawn);
        }
        if self.is_draw(&child.pos) {
            return Some((Move::null_move(), 0));
        }
        self.move_stack[ply as usize] = m;
        assert(memory(*self, *tt) =~= played(memory(*old(self), *old(tt)), ply, m));
        if search_pv {
            self.negamax(engine, tt, child, -beta, -best, ply + 1, depth - 1, is_nm)
        } else {
            let red: u8 = reduction(&engine.reductions, m, alpha, beta, n_moves, depth);
            let first = self.negamax(engine, tt, child, -best - 1, -best, ply + 1, depth - red, is_nm);
            match first {
                Some((_, score)) => {
                    if -score > best {
                        self.negamax(engine, tt, child, -beta, -best, ply + 1, depth - 1, is_nm)
                    } else {
                        first
                    }
                },
                None => None,
            }
        }
    }

    /// What the transposition table holds for the position that is being
    /// searched: the move, the depth, the bound and the score as it reads at
    /// `ply`. An entry whose score is beyond the limit of all scores counts
    /// as absent, as does an empty slot.
    fn probe(&self, tt: &TT, ply: u8) -> (r: (Move, u8, TTEntryType, i32))
        requires
            self.wf(),
            tt.wf(),
        ensures
            r == probed(TT::found(tt.entries@, self.repetitions@.last()), ply),
            -SCORE_LIMIT - 255 <= r.3 <= SCORE_LIMIT + 255,
    {
        match tt.lookup(self.hash()) {
            Some((m, stored, d, ty)) => {
                if -SCORE_LIMIT <= stored && stored <= SCORE_LIMIT {
                    (m, d, ty, unfold_mate(stored, ply))
                } else {
                    (Move::null_move(), 0, TTEntryType::Exact, 0)
                }
            },
            None => (Move::null_move(), 0, TTEntryType::Exact, 0),
        }
    }

    /// Tries a null move at a node with a window of width one: the turn is
    /// passed and the position searched `NMP_REDUCTION` plies less deeply
    /// with a window of width one at `beta`.
    fn null_move(&mut self, engine: &Engine, tt: &mut TT, pos: &SearchPosition, beta: i32, ply: u8, depth: u8) -> (r:
        Option<(Move, i32)>)
        requires
            engine.wf(),
            old(self).wf(),
            old(tt).wf(),
            pos.bounded(ply as int),
            pos.pos.halfmove < 255,
            -INF < beta <= INF,
            ply < 255,
            depth >= NMP_REDUCTION,
        ensures
            answers(*old(self), *final(self), (beta - 1) as i32, beta, r),
            r.is_some() ==> r.unwrap().0 == Move::null(),
            final(tt).wf(),
            final(tt).entries.len() == old(tt).entries.len(),
            r.is_some() ==> gives(
                r,
                memory(*final(self), *final(tt)),
                pass_spec(*engine, memory(*old(self), *old(tt)), *pos, beta, ply, depth),
            ),
        decreases 255 - ply, 1nat,
    {
        proof {
            reveal(hash_after);
            reveal(moved);
        }
        let passed: SearchPosition = self.update(&engine.keys, pos, Move::null_move(), true);
        self.move_stack[ply as usize] = Move::null_move();
        assert(memory(*self, *tt) =~= played(
            crate::search::model::entered(
                memory(*old(self), *old(tt)),
                hash_after(*engine, old(self).repetitions@.last(), pos.pos, Move::null()),
            ),
            ply,
            Move::null(),
        ));
        match self.negamax(engine, tt, &passed, -beta, -beta + 1, ply + 1, depth - NMP_REDUCTION, true) {
            None => None,
            Some((_, score)) => {
                self.repetitions.pop();
                assert(self.repetitions@ =~= old(self).repetitions@);
                Some((Move::null_move(), -score))
            },
        }
    }

    /// Plays `m` and, if it is legal, searches the position it leads to.
    /// `skip_quiets` comes back set where the node is to pass over its
    /// remaining quiet moves.
    fn try_move(
        &mut self,
        engine: &Engine,
        tt: &mut TT,
        pos: &SearchPosition,
        m: Move,
        node: Node,
        best: i32,
        n_moves: usize,
        skip_quiets: bool,
        search_pv: bool,
    ) -> (r: (Outcome, bool))
        requires
            engine.wf(),
            old(self).wf(),
            old(tt).wf(),
            pos.bounded(node.ply as int),
            node.ply < 255,
            node.depth >= 1,
            real_move(pos.pos, m),
            -INF <= node.alpha <= best < node.beta <= INF,
            n_moves < usize::MAX,
        ensures
            final(self).wf(),
            final(self).same_setup(*old(self)),
            old(self).repetitions@.is_prefix_of(final(self).repetitions@),
            final(tt).wf(),
            final(tt).entries.len() == old(tt).entries.len(),
            match r.0 {
                Outcome::Illegal => final(self).repetitions@ == old(self).repetitions@ && r.1
                    == skip_quiets && pos.pos.make_move_spec(m).in_check_spec(pos.pos.side),
                Outcome::Searched(score) => {
                    &&& final(self).repetitions@ == old(self).repetitions@
                    &&& !pos.pos.make_move_spec(m).in_check_spec(pos.pos.side)
                    &&& -INF <= score <= INF
                    &&& score <= SCORE_LIMIT || score <= best
                    &&& score >= -SCORE_LIMIT || score >= node.beta
                },
                Outcome::Cancelled => old(self).may_stop && old(self).timeman.hard.is_some()
                    && !pos.pos.make_move_spec(m).in_check_spec(pos.pos.side),
            },
            match r.0 {
                Outcome::Illegal => memory(*final(self), *final(tt)) == memory(*old(self), *old(tt)),
                Outcome::Searched(score) => {
                    &&& score == try_spec(
                        *engine,
                        memory(*old(self), *old(tt)),
                        *pos,
                        m,
                        node,
                        best,
                        n_moves as int,
                        search_pv,
                    ).0
                    &&& memory(*final(self), *final(tt)) == try_spec(
                        *engine,
                        memory(*old(self), *old(tt)),
                        *pos,
                        m,
                        node,
                        best,
                        n_moves as int,
                        search_pv,
                    ).1
                    &&& r.1 == (skip_quiets || passes_over(*pos, m, node, best, n_moves as int))
                },
                Outcome::Cancelled => !steady(*old(self)),
            },
        decreases 255 - node.ply, 2nat,
    {
        proof {
            reveal(hash_after);
            reveal(moved);
            reveal(passes_over);
        }
        let child: SearchPosition = self.update(&engine.keys, pos, m, true);
        assert(memory(*self, *tt) =~= crate::search::model::entered(
            memory(*old(self), *old(tt)),
            hash_after(*engine, old(self).repetitions@.last(), pos.pos, m),
        ));
        if child.pos.in_check(&engine.tables, pos.pos.side) {
            self.repetitions.pop();
            assert(self.repetitions@ =~= old(self).repetitions@);
            return (Outcome::Illegal, skip_quiets);
        }
        if self.nodes < u64::MAX {
            self.nodes = self.nodes + 1;
        }
        if self.out_of_time(node.ply, node.depth) {
            return (Outcome::Cancelled, skip_quiets);
        }
        let quiet: bool = !m.capture() && m.promotion() == PieceType::Empty;
        let futile: bool = quiet && node.depth <= FP_DEPTH && child.eval + FP_BASE + FP_MUL
            * node.depth as i32 <= node.alpha && best > -CHECKMATE;
        let late: bool = best > -CHECKMATE && !node.pv && !node.in_check && node.depth <= LMP_DEPTH
            && n_moves + 1 >= (LMP_BASE + LMP_MUL * node.depth as u16) as usize;
        let res = self.search_child(
            engine,
            tt,
            &child,
            m,
            best,
            node.alpha,
            node.beta,
            node.ply,
            node.depth,
            node.is_nm,
            search_pv,
            n_moves + 1,
        );
        match res {
            Some((_, score)) => {
                self.repetitions.pop();
                assert(self.repetitions@ =~= old(self).repetitions@);
                (Outcome::Searched(-score), skip_quiets || futile || late)
            },
            None => (Outcome::Cancelled, skip_quiets),
        }
    }

    /// Searches the moves of `pos` in the order of the picker and gives the
    /// best move with its score and the number of legal moves that were
    /// searched. A move that reaches `beta` ends the search of the node and
    /// is rewarded.
    fn search_moves(&mut self, engine: &Engine, tt: &mut TT, pos: &SearchPosition, node: Node, tt_move: Move) -> (r:
        Option<(Move, i32, usize)>)
        requires
            engine.wf(),
            old(self).wf(),
            old(tt).wf(),
            pos.bounded(node.ply as int),
            pos.pos.halfmove < 255,
            node.ply < 255,
            node.depth >= 1,
            -INF <= node.alpha < node.beta <= INF,
        ensures
            final(self).wf(),
            final(self).same_setup(*old(self)),
            old(self).repetitions@.is_prefix_of(final(self).repetitions@),
            final(tt).wf(),
            final(tt).entries.len() == old(tt).entries.len(),
            match r {
                Some((m, score, n)) => {
                    &&& final(self).repetitions@ == old(self).repetitions@
                    &&& node.alpha <= score <= INF
                    &&& score <= SCORE_LIMIT || score <= node.alpha
                    &&& n > 0 ==> score >= -SCORE_LIMIT || score >= node.beta
                    &&& n == 0 ==> score == node.alpha && m == Move::null() && !has_legal(pos.pos)
                    &&& score > node.alpha ==> legal(pos.pos, m)
                },
                None => old(self).may_stop && old(self).timeman.hard.is_some() && has_legal(pos.pos),
            },
            !has_legal(pos.pos) ==> r.is_some() && r.unwrap().2 == 0,
            steady(*old(self)) ==> r.is_some(),
            r.is_some() && (steady(*old(self)) || node.ply > 0 || node.depth <= 1) ==> (
                r.unwrap().0,
                r.unwrap().1,
                r.unwrap().2 as int,
                memory(*final(self), *final(tt)),
            ) == moves_spec(
                *engine,
                memory(*old(self), *old(tt)),
                *pos,
                node,
                all_moves(pos.pos),
                scores_of(memory(*old(self), *old(tt)), all_moves(pos.pos), pos.pos, tt_move, node.ply),
                false,
                true,
                0,
                Move::null(),
                node.alpha,
            ),
        decreases 255 - node.ply, 3nat,
    {
        let moves = movegen::<true>(&engine.tables, &pos.pos);
        proof {
            lemma_movegen_admitted(pos.pos, true);
        }
        let ghost list = moves@;
        let ghost start = memory(*self, *tt);
        proof {
            reveal(all_moves);
        }
        let ghost target = moves_spec(
            *engine,
            start,
            *pos,
            node,
            list,
            scores_of(start, list, pos.pos, tt_move, node.ply),
            false,
            true,
            0,
            Move::null(),
            node.alpha,
        );
        let mut picker = self.movepicker(moves, pos, tt_move, node.ply);
        proof {
            lemma_scores(*self, *tt, list, picker.scores@, pos.pos, tt_move, node.ply);
        }
        let mut skip_quiets: bool = false;
        let mut search_pv: bool = true;
        let mut n_moves: usize = 0;
        let mut best_move: Move = Move::null_move();
        let mut best: i32 = node.alpha;
        let total: usize = picker.moves.len();
        let base: usize = self.repetitions.len();
        loop
            invariant
                engine.wf(),
                self.wf(),
                tt.wf(),
                tt.entries.len() == old(tt).entries.len(),
                picker.wf(),
                base == old(self).repetitions@.len(),
                pos.bounded(node.ply as int),
                node.ply < 255,
                node.depth >= 1,
                -INF <= node.alpha <= best < node.beta <= INF,
                best <= node.alpha || best <= SCORE_LIMIT,
                n_moves > 0 ==> best >= -SCORE_LIMIT,
                n_moves == 0 ==> best == node.alpha && best_move == Move::null(),
                n_moves == 0 ==> !skip_quiets,
                n_moves > 0 ==> has_legal(pos.pos),
                n_moves == 0 ==> forall|x: Move|
                    list.contains(x) ==> picker.moves@.contains(x) || pos.pos.make_move_spec(
                        x,
                    ).in_check_spec(pos.pos.side),
                list == crate::movegen::movegen_spec(pos.pos, true),
                forall|i: int| 0 <= i < picker.moves@.len() ==> list.contains(#[trigger] picker.moves@[i]),
                best > node.alpha ==> legal(pos.pos, best_move),
                n_moves + picker.moves@.len() <= total <= usize::MAX,
                pos.pos.halfmove < 255,
                forall|i: int| 0 <= i < picker.moves@.len() ==> real_move(pos.pos, #[trigger] picker.moves@[i]),
                self.repetitions@ == old(self).repetitions@,
                self.same_setup(*old(self)),
                moves_spec(
                    *engine,
                    memory(*self, *tt),
                    *pos,
                    node,
                    picker.moves@,
                    picker.scores@,
                    skip_quiets,
                    search_pv,
                    n_moves as int,
                    best_move,
                    best,
                ) == target,
                target == moves_spec(
                    *engine,
                    memory(*old(self), *old(tt)),
                    *pos,
                    node,
                    all_moves(pos.pos),
                    scores_of(memory(*old(self), *old(tt)), all_moves(pos.pos), pos.pos, tt_move, node.ply),
                    false,
                    true,
                    0,
                    Move::null(),
                    node.alpha,
                ),
            ensures
                picker.moves@.len() == 0,
            decreases picker.moves@.len(),
        {
            let ghost before = picker.moves@;
            let ghost before_scores = picker.scores@;
            let m: Move = match picker.next() {
                None => {
                    break ;
                },
                Some(m) => m,
            };
            proof {
                let idx = choose|idx: int|
                    is_pick(before_scores, idx) && m == before[idx] && picker.moves@ == without(before, idx)
                        && picker.scores@ == without(before_scores, idx);
                lemma_pick(before_scores, idx);
                assert(exposes(pos.pos, m) == pos.pos.make_move_spec(m).in_check_spec(pos.pos.side)) by {
                    reveal(exposes);
                }
                assert(real_move(pos.pos, before[idx]));
                lemma_without_all(before, idx, |x: Move| real_move(pos.pos, x));
                assert(list.contains(before[idx]));
                lemma_without_all(before, idx, |x: Move| list.contains(x));
                assert forall|x: Move| list.contains(x) && !picker.moves@.contains(x) && x
                    != m implies !before.contains(x) by {
                    if before.contains(x) {
                        crate::search::ordering::lemma_without(before, idx, x);
                    }
                }
            }
            if !m.capture() && m.promotion() == PieceType::Empty && skip_quiets && !self.killer(m, node.ply) {
                continue ;
            }
            let (outcome, skip) = self.try_move(
                engine,
                tt,
                pos,
                m,
                node,
                best,
                n_moves,
                skip_quiets,
                search_pv,
            );
            skip_quiets = skip;
            match outcome {
                Outcome::Illegal => {},
                Outcome::Searched(score) => {
                    assert(legal(pos.pos, m));
                    n_moves = n_moves + 1;
                    search_pv = false;
                    if score > best {
                        best_move = m;
                        best = score;
                        if score >= node.beta {
                            let ghost tried = memory(*self, *tt);
                            self.reward(m, pos.pos.side, node.ply, node.depth);
                            assert(memory(*self, *tt) =~= reward_spec(
                                tried,
                                m,
                                pos.pos.side,
                                node.ply,
                                node.depth,
                            )) by {
                                reveal(reward_spec);
                            }
                            return Some((m, score, n_moves));
                        }
                    }
                },
                Outcome::Cancelled => {
                    assert(legal(pos.pos, m));
                    if best_move != Move::null_move() && node.ply == 0 && node.depth > 1 {
                        self.repetitions.truncate(base);
                        assert(self.repetitions@ =~= old(self).repetitions@);
                        return Some((best_move, best, n_moves));
                    }
                    return None;
                },
            }
        }
        proof {
            if n_moves == 0 && has_legal(pos.pos) {
                let x = choose|x: Move| legal(pos.pos, x);
                assert(list.contains(x));
                assert(!picker.moves@.contains(x));
            }
        }
        Some((best_move, best, n_moves))
    }

    /// Searches the moves of a node, `tt_move` first, and gives what the
    /// node scores: mate or the draw where there is no legal move; else the
    /// best move with its score, which then goes into the table.
    fn finish(&mut self, engine: &Engine, tt: &mut TT, pos: &SearchPosition, node: Node, tt_move: Move) -> (r:
        Option<(Move, i32)>)
        requires
            engine.wf(),
            old(self).wf(),
            old(tt).wf(),
            pos.bounded(node.ply as int),
            pos.pos.halfmove < 255,
            node.ply < 255,
            node.depth >= 1,
            -INF <= node.alpha < node.beta <= INF,
            node.in_check == pos.pos.in_check_spec(pos.pos.side),
        ensures
            answers(*old(self), *final(self), node.alpha, node.beta, r),
            final(tt).wf(),
            final(tt).entries.len() == old(tt).entries.len(),
            r.is_some() && r.unwrap().1 > node.alpha ==> best_found(pos.pos, r.unwrap().0),
            !has_legal(pos.pos) ==> r == Some((Move::null(), no_move_score(pos.pos, node.ply) as i32)),
            steady(*old(self)) ==> r.is_some(),
            r.is_some() && (steady(*old(self)) || node.ply > 0 || node.depth <= 1) ==> gives(
                r,
                memory(*final(self), *final(tt)),
                finish_spec(*engine, memory(*old(self), *old(tt)), *pos, node, tt_move),
            ),
        decreases 255 - node.ply, 4nat,
    {
        match self.search_moves(engine, tt, pos, node, tt_move) {
            None => None,
            Some((best_move, best, n_moves)) => {
                if n_moves == 0 {
                    if node.in_check {
                        Some((Move::null_move(), -CHECKMATE - 255 + node.ply as i32))
                    } else {
                        Some((Move::null_move(), 0))
                    }
                } else {
                    let ty: TTEntryType = bound_type(best, node.alpha, node.beta);
                    let ghost found = memory(*self, *tt);
                    let entry = TTEntry::new(
                        self.hash(),
                        fold_mate(best, node.ply),
                        best_move,
                        node.depth,
                        self.tt_age,
                        ty,
                    );
                    tt.insert(entry);
                    assert(memory(*self, *tt) =~= stored(found, best_move, best, node)) by {
                        reveal(stored);
                    }
                    Some((best_move, best))
                }
            },
        }
    }

    /// Searches `pos` to `depth` plies for the side to move, with the window
    /// from `alpha` to `beta`, and gives the best move with its score; nothing
    /// where the search was broken off. Where the node is settled without
    /// a search of its moves, the result is what `settles` says. A result
    /// below the root is what `negamax_spec` says, whatever the clock said
    /// on the way; so is one at the root where the clock cannot break the
    /// search off. At the root a search that is broken off may give the best
    /// of the moves that it has searched.
    pub fn negamax(
        &mut self,
        engine: &Engine,
        tt: &mut TT,
        pos: &SearchPosition,
        alpha: i32,
        beta: i32,
        ply: u8,
        depth: u8,
        is_nm: bool,
    ) -> (r: Option<(Move, i32)>)
        requires
            engine.wf(),
            old(self).wf(),
            old(tt).wf(),
            pos.bounded(ply as int),
            pos.pos.halfmove < 255,
            -INF <= alpha < beta <= INF,
        ensures
            answers(*old(self), *final(self), alpha, beta, r),
            final(tt).wf(),
            final(tt).entries.len() == old(tt).entries.len(),
            ply == 0 && depth >= 1 && beta - alpha != 1 && r.is_some() && r.unwrap().1 > alpha
                ==> best_found(pos.pos, r.unwrap().0),
            settles(*pos, old(tt).entries@, old(self).repetitions@.last(), alpha, beta, ply, depth, is_nm)
                is Some ==> r == settles(
                *pos,
                old(tt).entries@,
                old(self).repetitions@.last(),
                alpha,
                beta,
                ply,
                depth,
                is_nm,
            ),
            r.is_some() && (steady(*old(self)) || ply > 0) ==> gives(
                r,
                memory(*final(self), *final(tt)),
                negamax_spec(*engine, memory(*old(self), *old(tt)), *pos, alpha, beta, ply, depth, is_nm),
            ),
        decreases 255 - ply, 5nat,
    {
        proof {
            reveal(quick);
            reveal(depth_of);
            reveal(tries);
            reveal(stands);
            reveal(checked);
            reveal(hint);
        }
        let pv_node: bool = beta - alpha != 1;
        let in_check: bool = pos.pos.in_check(&engine.tables, pos.pos.side);
        let depth: u8 = if in_check && depth < 3 {
            depth + 1
        } else {
            depth
        };
        if depth == 0 {
            let score: i32 = self.qsearch(engine, pos, ply, alpha, beta);
            return Some((Move::null_move(), score));
        }
        if ply == MAX_PLY {
            return Some((Move::null_move(), pos.eval));
        }
        let (tt_move, tt_depth, tt_ty, tt_eval) = self.probe(tt, ply);
        if -SCORE_LIMIT <= tt_eval && tt_eval <= SCORE_LIMIT && tt_cutoff(
            tt_depth,
            tt_ty,
            tt_eval,
            depth,
            alpha,
            beta,
        ) {
            return Some((tt_move, tt_eval));
        }
        if !pv_node && !is_nm && !in_check && depth >= NMP_REDUCTION && pos.eval >= beta && ply > 0
            && pos.pos.pieces[0] & pos.pos.colors[pos.pos.side.index()] != 0 {
            match self.null_move(engine, tt, pos, beta, ply, depth) {
                None => {
                    return None;
                },
                Some((m, score)) => {
                    if score >= beta {
                        return Some((m, score));
                    }
                },
            }
        }
        if !pv_node && !in_check && depth <= RFP_DEPTH && pos.eval - RFP_MARGIN * depth as i32 > beta {
            return Some((Move::null_move(), pos.eval));
        }
        let node = Node { alpha, beta, ply, depth, is_nm, pv: pv_node, in_check };
        self.finish(engine, tt, pos, node, tt_move)
    }
}

/// The depth to which a node is searched: one more than asked for where the
/// side to move is in check and fewer than three plies were asked for.
pub open spec fn extended(pos: Position, depth: u8) -> int {
    if pos.in_check_spec(pos.side) && depth < 3 {
        depth + 1
    } else {
        depth as int
    }
}

/// What the table answers for a node with a window of width one, where it
/// holds an entry for `hash` that was searched deeply enough and bounds the
/// score on the right side; `None` where it does not settle the node.
pub open spec fn table_answer(entries: Seq<TTEntry>, hash: u64, alpha: i32, beta: i32, ply: u8, depth: int) -> Option<
    (Move, i32),
> {
    let (m, stored_depth, ty, score) = probed(TT::found(entries, hash), ply);
    if -SCORE_LIMIT <= score <= SCORE_LIMIT && stored_depth >= depth && (ty == TTEntryType::Exact || (ty
        == TTEntryType::Lower && score >= beta) || (ty == TTEntryType::Upper && alpha >= score)) && alpha + 1
        == beta {
        Some((m, score))
    } else {
        None
    }
}

/// Whether a node tries to pass the turn: its window is of width one, no
/// turn was passed on the way to it, the side to move is not in check and
/// has a pawn, the depth allows it, the evaluation reaches `beta`, and the
/// node is not the root.
pub open spec fn tries_pass(pos: SearchPosition, alpha: i32, beta: i32, ply: u8, depth: int, is_nm: bool) -> bool {
    &&& beta - alpha == 1
    &&& !is_nm
    &&& !pos.pos.in_check_spec(pos.pos.side)
    &&& depth >= NMP_REDUCTION
    &&& pos.eval >= beta
    &&& ply > 0
    &&& pos.pos.pieces[0] & pos.pos.colors[pos.pos.side.idx()] != 0
}

/// Whether a node stands on its evaluation: its window is of width one,
/// the side to move is not in check, the depth is small, and the evaluation
/// is above `beta` by more than the margin of that depth.
pub open spec fn stands_pat(pos: SearchPosition, alpha: i32, beta: i32, depth: int) -> bool {
    &&& beta - alpha == 1
    &&& !pos.pos.in_check_spec(pos.pos.side)
    &&& depth <= RFP_DEPTH
    &&& pos.eval - RFP_MARGIN * depth > beta
}

/// The score of a node whose side to move has no legal move, `ply` plies
/// from the root: mated where it is in check, else drawn.
pub open spec fn no_move_score(pos: Position, ply: u8) -> int {
    if pos.in_check_spec(pos.side) {
        -CHECKMATE - 255 + ply
    } else {
        0
    }
}

/// What a node gives without a search of its moves, where that settles it.
/// With no depth left it is the quiet value of the position as the window
/// shows it; at the last ply, the evaluation; with a table entry that
/// answers, that answer; where the node does not try to pass the turn and
/// stands on its evaluation, the evaluation; and where it does not try to
/// pass and has no legal move, the score of mate or of the draw. `None`
/// where the moves are searched or the turn is passed.
pub open spec fn settles(
    pos: SearchPosition,
    entries: Seq<TTEntry>,
    hash: u64,
    alpha: i32,
    beta: i32,
    ply: u8,
    depth: u8,
    is_nm: bool,
) -> Option<(Move, i32)> {
    let d = extended(pos.pos, depth);
    if d == 0 {
        Some((Move::null(), crate::search::qsearch::cut(
            crate::search::qsearch::quiet_value(pos, ply as int),
            alpha as int,
            beta as int,
        ) as i32))
    } else if ply == MAX_PLY {
        Some((Move::null(), pos.eval))
    } else if table_answer(entries, hash, alpha, beta, ply, d) is Some {
        table_answer(entries, hash, alpha, beta, ply, d)
    } else if tries_pass(pos, alpha, beta, ply, d, is_nm) {
        None
    } else if stands_pat(pos, alpha, beta, d) {
        Some((Move::null(), pos.eval))
    } else if !has_legal(pos.pos) {
        Some((Move::null(), no_move_score(pos.pos, ply) as i32))
    } else {
        None
    }
}

/// What a node of the search was called with, and what it found out about itself.
#[derive(Clone, Copy)]
pub struct Node {
    pub alpha: i32,
    pub beta: i32,
    pub ply: u8,
    /// The depth, with the extension for a check.
    pub depth: u8,
    /// Whether a null move was played on the way to the node.
    pub is_nm: bool,
    /// Whether the window is wider than one.
    pub pv: bool,
    pub in_check: bool,
}

/// What trying one move gave.
pub enum Outcome {
    /// The move leaves the own king in check.
    Illegal,
    /// The score of the move, for the side that played it.
    Searched(i32),
    /// The search was broken off.
    Cancelled,
}

/// What a lookup gives the search at `ply`; an absent entry, or one whose
/// score is beyond the limit of all scores, gives the null move at depth 0.
pub open spec fn probed(found: Option<(Move, i32, u8, TTEntryType)>, ply: u8) -> (Move, u8, TTEntryType, i32) {
    match found {
        Some((m, stored, d, ty)) => if -SCORE_LIMIT <= stored <= SCORE_LIMIT {
            (m, d, ty, unfold_mate_spec(stored, ply) as i32)
        } else {
            (Move::null(), 0u8, TTEntryType::Exact, 0i32)
        },
        None => (Move::null(), 0u8, TTEntryType::Exact, 0i32),
    }
}

/// What one iteration of the search found.
#[derive(Debug, Clone, Copy, PartialEq, Eq)]
pub struct Iteration {
    pub depth: u8,
    /// The score of the best move so far, in centipawns.
    pub score: i32,
    /// The nodes searched since the search began.
    pub nodes: u64,
    /// The milliseconds since the search began.
    pub elapsed: u64,
    /// The best move so far.
    pub best: Move,
}

/// What a search found.
pub struct SearchResult {
    pub best: Move,
    pub score: i32,
    pub nodes: u64,
    /// The milliseconds that the search took.
    pub elapsed: u64,
    /// One report per iteration, in the order of the depths.
    pub iterations: Vec<Iteration>,
}

/// The middle of a window, rounded towards zero.
pub open spec fn midpoint_spec(alpha: i32, beta: i32) -> int {
    if alpha + beta >= 0 {
        (alpha + beta) / 2
    } else {
        -((-(alpha + beta)) / 2)
    }
}

/// The middle of a window, rounded towards zero.
pub fn midpoint(alpha: i32, beta: i32) -> (mid: i32)
    requires
        -INF <= alpha < beta <= INF,
    ensures
        mid == midpoint_spec(alpha, beta),
        alpha <= mid <= beta,
        alpha == -INF ==> alpha < mid,
{
    let sum: i32 = alpha + beta;
    if sum >= 0 {
        sum / 2
    } else {
        -((-sum) / 2)
    }
}

/// The window for the next try after a try with the window from `alpha` to
/// `beta` gave `score`, and the half width for the try after that. A score
/// at or below `alpha` halves the window from above and lowers `alpha` by
/// the half width; one at or above `beta` raises `beta` by it. The half
/// width grows by three quarters. Once it is beyond every score, the window
/// is the whole range.
pub open spec fn widened(alpha: i32, beta: i32, window: i32, score: i32) -> (int, int, int) {
    let grown = window + window * 3 / 4;
    let (a, b) = if score <= alpha {
        (alpha - window, midpoint_spec(alpha, beta))
    } else {
        (alpha as int, beta + window)
    };
    if grown > INF {
        (-INF as int, INF as int, grown)
    } else {
        (if a < -INF { -INF as int } else { a }, if b > INF { INF as int } else { b }, grown)
    }
}

/// The window and the half width for the next try after a try that failed.
pub fn widen(alpha: i32, beta: i32, window: i32, score: i32) -> (r: (i32, i32, i32))
    requires
        -INF <= alpha < beta <= INF,
        ASP_WINDOW <= window <= INF,
        score <= alpha || score >= beta,
    ensures
        r.0 == widened(alpha, beta, window, score).0,
        r.1 == widened(alpha, beta, window, score).1,
        r.2 == widened(alpha, beta, window, score).2,
        -INF <= r.0 < r.1 <= INF,
        r.2 >= window + 75,
        r.2 > INF ==> r.0 == -INF && r.1 == INF,
        (alpha > -INF || score > alpha) ==> r.0 < r.1,
{
    let grown: i32 = window + window * ASP_INC_NUM / ASP_INC_DEN;
    let (a, b) = if score <= alpha {
        (alpha - window, midpoint(alpha, beta))
    } else {
        (alpha, beta + window)
    };
    if grown > INF {
        (-INF, INF, grown)
    } else {
        (if a < -INF {
            -INF
        } else {
            a
        }, if b > INF {
            INF
        } else {
            b
        }, grown)
    }
}

/// A search that is taken one depth at a time.
pub struct Deepening {
    pub context: SearchContext,
    /// The position that is searched, with its evaluation.
    pub root: SearchPosition,
    /// The best move of the depths that are done; the null move before the
    /// first.
    pub best: Move,
    /// The score of `best`.
    pub score: i32,
    /// The number of depths that are done.
    pub depth: u8,
    /// The depth with which the search ends.
    pub limit: u8,
}

impl Deepening {
    /// The context is in order, no more depths are done than the search
    /// has, and once a depth is done there is a best move with a score
    /// within the limit of all scores.
    pub open spec fn wf(self) -> bool {
        &&& self.context.wf()
        &&& self.root.bounded(0)
        &&& self.root.pos.halfmove < 255
        &&& self.depth <= self.limit
        &&& self.depth == 0 ==> self.score == -INF && self.best == Move::null()
        &&& self.depth >= 1 ==> -SCORE_LIMIT <= self.score <= SCORE_LIMIT
        &&& self.depth >= 1 ==> best_found(self.root.pos, self.best)
    }

    /// The clock says nothing to this search: it has neither limit.
    pub open spec fn unlimited(self) -> bool {
        self.context.timeman.hard.is_none() && self.context.timeman.soft.is_none()
    }

    /// A search of `pos` that has not begun: the clock starts now.
    pub fn begin(pos: &Position, options: SearchOptions, repetitions: Vec<u64>, age: u16) -> (d: Deepening)
        requires
            repetitions.len() >= 1,
            pos.halfmove < 255,
        ensures
            d.wf(),
            d.depth == 0,
            d.limit == options.depth,
            d.root == root_of(*pos),
            d.root.pos == *pos,
            d.context.nodes == 0,
            d.context.timeman.hard == TimeManager::hard_spec(options, pos.side),
            d.context.timeman.soft == TimeManager::soft_spec(options, pos.side),
            forall|tt: TT| #[trigger] memory(d.context, tt) == fresh(repetitions@, tt.entries@, age),
    {
        let context = SearchContext::new(TimeManager::new(&options, pos.side), repetitions, age);
        let root = SearchPosition::new(pos);
        proof {
            assert(root == root_of(*pos)) by {
                reveal(root_of);
            }
            assert(context.killers@ =~= Seq::new(512, |i: int| Move::null()));
            assert(context.history@ =~= Seq::new(768, |i: int| 0i32));
            assert(context.continuations@ =~= Seq::new(589824, |i: int| 0i32));
            assert(context.move_stack@ =~= Seq::new(256, |i: int| Move::null()));
        }
        Deepening { context, root, best: Move::null_move(), score: -INF, depth: 0, limit: options.depth }
    }

    /// Searches the next depth and gives what it found; `None`, with nothing
    /// changed, once every depth is done or, after the first depth, once
    /// the clock says to stop. From `ASP_DEPTH` on a depth begins with a
    /// window around the score of the depth before and widens it until the
    /// score falls inside. A depth that the clock breaks off keeps the best
    /// move of the depth before. The first depth is never broken off: it
    /// gives what `depth_spec` says, as does every depth of a search
    /// without a hard limit.
    pub fn step(&mut self, engine: &Engine, tt: &mut TT) -> (r: Option<Iteration>)
        requires
            engine.wf(),
            old(self).wf(),
            old(tt).wf(),
        ensures
            final(self).wf(),
            final(tt).wf(),
            final(tt).entries.len() == old(tt).entries.len(),
            final(self).limit == old(self).limit,
            final(self).root == old(self).root,
            final(self).context.timeman == old(self).context.timeman,
            match r {
                Some(it) => {
                    &&& old(self).depth < old(self).limit
                    &&& final(self).depth == old(self).depth + 1
                    &&& it.depth == final(self).depth
                    &&& it.best == final(self).best
                    &&& it.score == final(self).score
                    &&& it.nodes == final(self).context.nodes
                },
                None => {
                    &&& old(self).depth >= old(self).limit || (old(self).depth >= 1 && !old(self).unlimited())
                    &&& final(self).depth == old(self).depth
                    &&& final(self).best == old(self).best
                    &&& final(self).score == old(self).score
                    &&& final(self).context.nodes == old(self).context.nodes
                    &&& memory(final(self).context, *final(tt)) == memory(old(self).context, *old(tt))
                },
            },
            (old(self).context.timeman.hard.is_none() || old(self).depth == 0) && r.is_some() ==> (
                (final(self).best, final(self).score),
                memory(final(self).context, *final(tt)),
            ) == depth_spec(
                *engine,
                memory(old(self).context, *old(tt)),
                old(self).root,
                old(self).depth,
                old(self).score,
            ),
            old(self).context.timeman.hard.is_none() ==> deepen_spec(
                *engine,
                memory(final(self).context, *final(tt)),
                final(self).root,
                final(self).depth,
                final(self).limit,
                final(self).best,
                final(self).score,
            ) == deepen_spec(
                *engine,
                memory(old(self).context, *old(tt)),
                old(self).root,
                old(self).depth,
                old(self).limit,
                old(self).best,
                old(self).score,
            ),
    {
        if self.depth >= self.limit {
            return None;
        }
        if self.depth >= 1 && (self.context.timeman.soft_stop() || self.context.timeman.hard_stop()) {
            return None;
        }
        let ghost unlimited = self.context.timeman.hard.is_none() || self.depth == 0;
        let depth: u8 = self.depth + 1;
        self.context.may_stop = depth > 1;
        let mut best_move: Move = self.best;
        let mut best: i32 = self.score;
        let mut window: i32 = ASP_WINDOW;
        let mut alpha: i32 = -INF;
        let mut beta: i32 = INF;
        if depth >= ASP_DEPTH {
            alpha = best - window;
            beta = best + window;
        }
        let mut done: bool = false;
        let ghost goal = aspire_spec(*engine, memory(self.context, *tt), self.root, alpha, beta, window, depth);
        while !done
            invariant
                unlimited == (self.context.timeman.hard.is_none() || depth == 1),
                unlimited && !done ==> aspire_spec(
                    *engine,
                    memory(self.context, *tt),
                    self.root,
                    alpha,
                    beta,
                    window,
                    depth,
                ) == goal,
                unlimited && done ==> goal == ((best_move, best), memory(self.context, *tt)),
                engine.wf(),
                self.context.wf(),
                tt.wf(),
                tt.entries.len() == old(tt).entries.len(),
                self.root.bounded(0),
                self.root.pos.halfmove < 255,
                self.root == old(self).root,
                self.limit == old(self).limit,
                self.depth == old(self).depth,
                self.context.may_stop == (depth > 1),
                self.context.timeman == old(self).context.timeman,
                depth == self.depth + 1,
                depth <= self.limit,
                -INF <= alpha < beta <= INF,
                ASP_WINDOW <= window,
                window > INF ==> alpha == -INF && beta == INF,
                depth == 1 ==> alpha == -INF && beta == INF,
                done || depth > 1 ==> -SCORE_LIMIT <= best <= SCORE_LIMIT,
                done || depth > 1 ==> best_found(self.root.pos, best_move),
                beta - alpha != 1,
                !done && depth == 1 ==> best == -INF,
            decreases
                    (if done {
                        0int
                    } else if alpha == -INF && beta == INF {
                        1int
                    } else {
                        2 * INF - window
                    }),
        {
            let base: usize = self.context.repetitions.len();
            match self.context.negamax(engine, tt, &self.root, alpha, beta, 0, depth, false) {
                None => {
                    self.context.repetitions.truncate(base);
                    done = true;
                },
                Some((m, score)) => {
                    if score <= alpha || score >= beta {
                        let (a, b, w) = widen(alpha, beta, window, score);
                        alpha = a;
                        beta = b;
                        window = w;
                    } else {
                        best_move = m;
                        best = score;
                        done = true;
                    }
                },
            }
        }
        self.depth = depth;
        self.best = best_move;
        self.score = best;
        Some(
            Iteration {
                depth,
                score: best,
                nodes: self.context.nodes,
                elapsed: self.context.timeman.elapsed(),
                best: best_move,
            },
        )
    }
}

/// Searches `pos` by iterative deepening up to the depth of `options`, or
/// until its clock says to stop, and gives the best move of the last
/// iteration that was finished. Without a limit on the clock every depth
/// is searched, and the result is what `search_spec` says; with one, at
/// least the first. `repetitions` holds the hashes of the game so far, that
/// of `pos` last; `age` is the age with which entries go into the table.
/// The first iteration is never broken off.
pub fn search(
    engine: &Engine,
    pos: &Position,
    options: SearchOptions,
    repetitions: Vec<u64>,
    tt: &mut TT,
    age: u16,
) -> (result: SearchResult)
    requires
        engine.wf(),
        old(tt).wf(),
        repetitions.len() >= 1,
        pos.halfmove < 255,
    ensures
        final(tt).wf(),
        final(tt).entries.len() == old(tt).entries.len(),
        options.depth == 0 ==> result.best == Move::null() && result.score == -INF,
        options.depth >= 1 ==> -SCORE_LIMIT <= result.score <= SCORE_LIMIT,
        options.depth >= 1 ==> best_found(*pos, result.best),
        result.iterations@.len() <= options.depth,
        options.depth >= 1 ==> result.iterations@.len() >= 1,
        TimeManager::hard_spec(options, pos.side).is_none() ==> result.iterations@.len() == options.depth,
        forall|i: int| 0 <= i < result.iterations@.len() ==> (#[trigger] result.iterations@[i]).depth == i + 1,
        result.iterations@.len() >= 1 ==> result.best == result.iterations@.last().best && result.score
            == result.iterations@.last().score && result.nodes == result.iterations@.last().nodes,
        TimeManager::hard_spec(options, pos.side).is_none() ==> {
            let found = search_spec(*engine, *pos, repetitions@, old(tt).entries@, age, options.depth);
            result.best == found.0 && result.score == found.1 && final(tt).entries@ == found.2.entries
        },
        options.depth >= 1 ==> {
            let first = search_spec(*engine, *pos, repetitions@, old(tt).entries@, age, 1);
            result.iterations@[0].best == first.0 && result.iterations@[0].score == first.1
        },
{
    let ghost unlimited = TimeManager::hard_spec(options, pos.side).is_none();
    let ghost whole = search_spec(*engine, *pos, repetitions@, old(tt).entries@, age, options.depth);
    let mut deepening = Deepening::begin(pos, options, repetitions, age);
    let ghost first = search_spec(*engine, *pos, repetitions@, old(tt).entries@, age, 1);
    proof {
        reveal(search_spec);
        assert(memory(deepening.context, *tt) == fresh(repetitions@, old(tt).entries@, age));
        assert(first == {
            let found = depth_spec(
                *engine,
                fresh(repetitions@, old(tt).entries@, age),
                root_of(*pos),
                0,
                (-INF) as i32,
            );
            (found.0.0, found.0.1, found.1)
        }) by {
            reveal_with_fuel(deepen_spec, 2);
        }
    }
    let mut iterations: Vec<Iteration> = Vec::new();
    loop
        invariant
            engine.wf(),
            deepening.wf(),
            tt.wf(),
            tt.entries.len() == old(tt).entries.len(),
            deepening.limit == options.depth,
            deepening.root.pos == *pos,
            deepening.context.timeman.hard == TimeManager::hard_spec(options, pos.side),
            deepening.context.timeman.soft == TimeManager::soft_spec(options, pos.side),
            unlimited == TimeManager::hard_spec(options, pos.side).is_none(),
            unlimited ==> deepen_spec(
                *engine,
                memory(deepening.context, *tt),
                deepening.root,
                deepening.depth,
                options.depth,
                deepening.best,
                deepening.score,
            ) == whole,
            iterations@.len() == deepening.depth,
            deepening.depth == 0 ==> deepening.score == -INF && deepening.root == root_of(*pos) && memory(
                deepening.context,
                *tt,
            ) == fresh(repetitions@, old(tt).entries@, age),
            deepening.depth >= 1 ==> iterations@[0].best == first.0 && iterations@[0].score == first.1,
            first.0 == depth_spec(
                *engine,
                fresh(repetitions@, old(tt).entries@, age),
                root_of(*pos),
                0,
                (-INF) as i32,
            ).0.0,
            first.1 == depth_spec(
                *engine,
                fresh(repetitions@, old(tt).entries@, age),
                root_of(*pos),
                0,
                (-INF) as i32,
            ).0.1,
            forall|i: int| 0 <= i < iterations@.len() ==> (#[trigger] iterations@[i]).depth == i + 1,
            deepening.depth >= 1 ==> iterations@.last().best == deepening.best && iterations@.last().score
                == deepening.score && iterations@.last().nodes == deepening.context.nodes,
        ensures
            deepening.depth >= deepening.limit || (deepening.depth >= 1 && !deepening.unlimited()),
        decreases deepening.limit - deepening.depth,
    {
        match deepening.step(engine, tt) {
            None => {
                break ;
            },
            Some(iteration) => {
                iterations.push(iteration);
            },
        }
    }
    let elapsed: u64 = deepening.context.timeman.elapsed();
    SearchResult {
        best: deepening.best,
        score: deepening.score,
        nodes: deepening.context.nodes,
        elapsed,
        iterations,
    }
}

} // verus!
