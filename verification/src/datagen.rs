//! Self-play for training data: one game at a time, from a random opening.
use vstd::prelude::*;
use crate::marlinformat::{packed, PackedBoard};
use crate::movegen::laws::{lemma_legal_move_keeps_valid, lemma_movegen_admitted, lemma_startpos_valid};
use crate::movegen::{movegen};
use crate::position::{Move, PieceColor, PieceType, Position};
use crate::search::consts::CHECKMATE;
use crate::search::model::search_spec;
use crate::search::tt::{tt_size_spec, TTEntry, DEFAULT_HASH_SIZE, TT};
use crate::search::{has_legal, is_draw, is_draw_spec, legal, search, Engine, SearchResult};
use crate::SearchOptions;

verus! {

/// The plies that a game begins with at random.
pub const OPENING_PLIES: u8 = 8;

/// The score above which a random opening is too one-sided to play on.
pub const OPENING_MARGIN: i32 = 1000;

/// Puts the moves in a random order, by `fastrand::shuffle`, which
/// rearranges a slice by swaps: the list holds the same moves afterwards,
/// each as often as before.
#[verifier::external_body]
fn shuffle(moves: &mut Vec<Move>)
    ensures
        final(moves)@.to_multiset() == old(moves)@.to_multiset(),
{
    fastrand::shuffle(moves.as_mut_slice());
}

/// The first move of `moves` that does not leave the mover's king in check.
pub fn first_legal(engine: &Engine, pos: &Position, moves: &Vec<Move>) -> (r: Option<Move>)
    requires
        engine.wf(),
        forall|i: int| 0 <= i < moves@.len() ==> pos.admits(#[trigger] moves@[i]),
    ensures
        match r {
            Some(m) => exists|i: int|
                0 <= i < moves@.len() && moves@[i] == m && !pos.make_move_spec(m).in_check_spec(pos.side)
                    && forall|j: int|
                    0 <= j < i ==> pos.make_move_spec(#[trigger] moves@[j]).in_check_spec(pos.side),
            None => forall|j: int|
                0 <= j < moves@.len() ==> pos.make_move_spec(#[trigger] moves@[j]).in_check_spec(
                    pos.side,
                ),
        },
{
    let mut i: usize = 0;
    while i < moves.len()
        invariant
            engine.wf(),
            i <= moves@.len(),
            forall|k: int| 0 <= k < moves@.len() ==> pos.admits(#[trigger] moves@[k]),
            forall|j: int| 0 <= j < i ==> pos.make_move_spec(#[trigger] moves@[j]).in_check_spec(pos.side),
        decreases moves@.len() - i,
    {
        let m: Move = moves[i];
        let next: Position = pos.make_move(m);
        if !next.in_check(&engine.tables, pos.side) {
            return Some(m);
        }
        i = i + 1;
    }
    None
}

/// A legal move of `pos` taken at random; `None` where there is none.
pub fn random_move(engine: &Engine, pos: &Position) -> (r: Option<Move>)
    requires
        engine.wf(),
        pos.halfmove < 255,
    ensures
        match r {
            Some(m) => legal(*pos, m),
            None => !has_legal(*pos),
        },
{
    let list = movegen::<true>(&engine.tables, pos);
    let mut moves: Vec<Move> = list.moves;
    let ghost generated = moves@;
    shuffle(&mut moves);
    proof {
        lemma_movegen_admitted(*pos, true);
        generated.to_multiset_ensures();
        moves@.to_multiset_ensures();
        assert forall|i: int| 0 <= i < moves@.len() implies pos.admits(#[trigger] moves@[i]) by {
            assert(moves@.contains(moves@[i]));
            assert(moves@.to_multiset().count(moves@[i]) > 0);
            assert(generated.to_multiset().count(moves@[i]) > 0);
            assert(generated.contains(moves@[i]));
        }
    }
    let r = first_legal(engine, pos, &moves);
    proof {
        match r {
            Some(m) => {
                assert(moves@.contains(m));
                assert(moves@.to_multiset().count(m) > 0);
                assert(generated.to_multiset().count(m) > 0);
                assert(generated.contains(m));
            },
            None => {
                if has_legal(*pos) {
                    let x = choose|x: Move| legal(*pos, x);
                    assert(generated.contains(x));
                    assert(generated.to_multiset().count(x) > 0);
                    assert(moves@.to_multiset().count(x) > 0);
                    assert(moves@.contains(x));
                }
            },
        }
    }
    r
}

/// The position after the moves of `line`, played from the start.
pub open spec fn played(line: Seq<Move>) -> Position
    decreases line.len(),
{
    if line.len() == 0 {
        Position::startpos_spec()
    } else {
        played(line.drop_last()).make_move_spec(line.last())
    }
}

/// Every move of `line` is legal in the position in which it is played.
pub open spec fn legal_line(line: Seq<Move>) -> bool
    decreases line.len(),
{
    line.len() == 0 || (legal_line(line.drop_last()) && legal(played(line.drop_last()), line.last()))
}

/// The hashes of the positions on the way of `line`: that of the start
/// first, that of the position after its last move last.
pub open spec fn hashes_of(engine: Engine, line: Seq<Move>) -> Seq<u64>
    decreases line.len(),
{
    if line.len() == 0 {
        seq![engine.keys.zobrist(Position::startpos_spec())]
    } else {
        hashes_of(engine, line.drop_last()).push(engine.keys.zobrist(played(line)))
    }
}

/// `line` is a line of `plies` legal moves that leads to `pos`, with `reps`
/// the hashes on its way.
pub open spec fn opens(engine: Engine, line: Seq<Move>, plies: u8, pos: Position, reps: Seq<u64>) -> bool {
    legal_line(line) && line.len() == plies && pos == played(line) && reps == hashes_of(engine, line)
}

/// `line` is a line of fewer than `plies` legal moves after which the side
/// to move has no legal move.
pub open spec fn cut_short(line: Seq<Move>, plies: u8) -> bool {
    legal_line(line) && line.len() < plies && !has_legal(played(line))
}

/// A position after `plies` random legal moves from the start, with the
/// hashes of all positions on the way; `None` where the game ended on the
/// way, with no legal move left before `plies` moves were played.
pub fn opening(engine: &Engine, plies: u8) -> (r: Option<(Position, Vec<u64>)>)
    requires
        engine.wf(),
        plies < 100,
    ensures
        r.is_some() ==> exists|line: Seq<Move>| #[trigger]
            opens(*engine, line, plies, r.unwrap().0, r.unwrap().1@),
        r.is_none() ==> exists|line: Seq<Move>| #[trigger] cut_short(line, plies),
        r.is_some() ==> r.unwrap().1@.len() == plies + 1 && r.unwrap().0.halfmove <= plies
            && r.unwrap().1@.last() == engine.keys.zobrist(r.unwrap().0) && r.unwrap().0.valid(),
{
    proof {
        lemma_startpos_valid();
    }
    let mut pos = Position::startpos();
    let mut reps: Vec<u64> = Vec::new();
    reps.push(pos.hash(&engine.keys));
    let ghost mut line: Seq<Move> = Seq::empty();
    assert(reps@ =~= hashes_of(*engine, line));
    let mut i: u8 = 0;
    while i < plies
        invariant
            engine.wf(),
            i <= plies < 100,
            pos.halfmove <= i,
            pos.valid(),
            reps@.len() == i + 1,
            reps@.last() == engine.keys.zobrist(pos),
            opens(*engine, line, i, pos, reps@),
        decreases plies - i,
    {
        match random_move(engine, &pos) {
            None => {
                assert(cut_short(line, plies));
                return None;
            },
            Some(m) => {
                proof {
                    lemma_movegen_admitted(pos, true);
                    lemma_legal_move_keeps_valid(pos, m);
                    assert(line.push(m).drop_last() =~= line);
                    line = line.push(m);
                }
                pos = pos.make_move(m);
                reps.push(pos.hash(&engine.keys));
            },
        }
        i = i + 1;
    }
    let r = Some((pos, reps));
    assert(opens(*engine, line, plies, r.unwrap().0, r.unwrap().1@));
    r
}

/// How a game ended for White, from the score that the side to move sees
/// once one side is mated: 2 for a win, 0 for a loss.
pub open spec fn outcome_spec(score: i32, side: PieceColor) -> u8 {
    if (score > 0 && side == PieceColor::White) || (score < 0 && side == PieceColor::Black) {
        2
    } else {
        0
    }
}

/// How a game ended for White once one side is mated.
pub fn outcome(score: i32, side: PieceColor) -> (wdl: u8)
    ensures
        wdl == outcome_spec(score, side),
{
    if (score > 0 && side == PieceColor::White) || (score < 0 && side == PieceColor::Black) {
        2
    } else {
        0
    }
}

/// The age with which the entries of a search go into the table: the
/// number of positions of the game so far, as far as sixteen bits count.
fn age_of(reps: &Vec<u64>) -> (age: u16)
    ensures
        age == if reps@.len() > 65535 {
            65535
        } else {
            reps@.len() as int
        },
{
    if reps.len() > 65535 {
        65535
    } else {
        reps.len() as u16
    }
}

/// How a game stands for White once the position `pos`, whose hash is the
/// last of `reps`, has been searched with the result `score` and `best`: won
/// or lost where the score tells a mate, drawn where the rules say so or no
/// move is left, and not over otherwise.
pub open spec fn verdict_spec(pos: Position, reps: Seq<u64>, score: i32, best: Move) -> Option<u8> {
    if score >= CHECKMATE || score <= -CHECKMATE {
        Some(outcome_spec(score, pos.side))
    } else if is_draw_spec(pos, reps) || best == Move::null() {
        Some(1u8)
    } else {
        None
    }
}

/// How a game stands for White after the search of `pos`; `None` while it is
/// not over.
pub fn verdict(pos: &Position, reps: &Vec<u64>, score: i32, best: Move) -> (r: Option<u8>)
    ensures
        r == verdict_spec(*pos, reps@, score, best),
{
    if score >= CHECKMATE || score <= -CHECKMATE {
        Some(outcome(score, pos.side))
    } else if is_draw(pos, reps) || best == Move::null_move() {
        Some(1)
    } else {
        None
    }
}

/// The move takes nothing and promotes nothing.
pub open spec fn quiet(m: Move) -> bool {
    !m.is_capture() && m.promoted() == PieceType::Empty
}

/// `rec` is the record of `pos` with the result `wdl`, before the game has
/// counted its moves, whatever the score.
pub open spec fn records(rec: PackedBoard, pos: Position, wdl: u8) -> bool {
    rec == (PackedBoard { eval: rec.eval, ..packed(pos, 0, 0, wdl, 0) })
}

/// `recs` holds, in the order of play, one record for each quiet move that
/// `line` plays after its opening and no other: that of the position in
/// which the move was played, with the result `wdl`.
pub open spec fn tells(recs: Seq<PackedBoard>, line: Seq<Move>, wdl: u8) -> bool
    decreases line.len(),
{
    if line.len() <= OPENING_PLIES {
        recs.len() == 0
    } else if quiet(line.last()) {
        recs.len() > 0 && records(recs.last(), played(line.drop_last()), wdl) && tells(
            recs.drop_last(),
            line.drop_last(),
            wdl,
        )
    } else {
        tells(recs, line.drop_last(), wdl)
    }
}

/// `recs` are the records of a game that `line` plays, with the result
/// `wdl`: a line of legal moves, at most `max_plies` of them after the
/// opening and, where any may be played, at least one. A game that ends
/// drawn before `max_plies` moves ends by the rules of the draw or with no
/// legal move left.
pub open spec fn plays(
    engine: Engine,
    recs: Seq<PackedBoard>,
    line: Seq<Move>,
    wdl: u8,
    max_plies: usize,
) -> bool {
    &&& legal_line(line)
    &&& OPENING_PLIES <= line.len() <= OPENING_PLIES + max_plies
    &&& max_plies > 0 ==> line.len() > OPENING_PLIES
    &&& wdl <= 2
    &&& tells(recs, line, wdl)
    &&& wdl == 1 && line.len() < OPENING_PLIES + max_plies ==> is_draw_spec(
        played(line),
        hashes_of(engine, line),
    ) || !has_legal(played(line))
}

/// `line` is an opening after which no game is played: a line of legal moves
/// that ends before the opening is full only where no legal move is left.
pub open spec fn abandons(line: Seq<Move>) -> bool {
    legal_line(line) && line.len() <= OPENING_PLIES && (line.len() < OPENING_PLIES ==> !has_legal(
        played(line),
    ))
}

/// Records that tell a line still tell it once each has been given the
/// result of the game.
pub proof fn lemma_tells_result(before: Seq<PackedBoard>, after: Seq<PackedBoard>, line: Seq<Move>, wdl: u8)
    requires
        tells(before, line, 0),
        after.len() == before.len(),
        forall|i: int| 0 <= i < before.len() ==> #[trigger] after[i] == (PackedBoard { wdl, ..before[i] }),
    ensures
        tells(after, line, wdl),
    decreases line.len(),
{
    if line.len() <= OPENING_PLIES {
    } else if quiet(line.last()) {
        assert(after.last() == (PackedBoard { wdl, ..before.last() }));
        lemma_tells_result(before.drop_last(), after.drop_last(), line.drop_last(), wdl);
    } else {
        lemma_tells_result(before, after, line.drop_last(), wdl);
    }
}

/// The age with which the entries of a search go into the table in a game
/// of `n` positions so far.
pub open spec fn age_spec(n: nat) -> u16 {
    if n > 65535 {
        65535
    } else {
        n as u16
    }
}

/// The table with which a game begins: every slot empty.
pub open spec fn empty_table() -> Seq<TTEntry> {
    Seq::new(tt_size_spec(DEFAULT_HASH_SIZE) as nat, |i: int| TTEntry::empty())
}

/// The records of the rest of a game, still without its result, and the
/// result: `pos`, whose search gave `best` with `score`, is recorded if
/// `best` is quiet; `best` is played and the next position searched; the
/// game ends where `verdict_spec` says so, and drawn once `left` moves have
/// been played.
#[verifier::opaque]
pub open spec fn play_spec(
    e: Engine,
    pos: Position,
    reps: Seq<u64>,
    entries: Seq<TTEntry>,
    best: Move,
    score: i32,
    depth: u8,
    left: int,
) -> (Seq<PackedBoard>, u8)
    decreases left,
{
    if left <= 0 {
        (Seq::empty(), 1u8)
    } else {
        let record = if quiet(best) {
            seq![packed(pos, 0, score, 0, 0)]
        } else {
            Seq::empty()
        };
        let next = pos.make_move_spec(best);
        let hashes = reps.push(e.keys.zobrist(next));
        let found = search_spec(e, next, hashes, entries, age_spec(hashes.len()), depth);
        match verdict_spec(next, hashes, found.1, found.0) {
            Some(w) => (record, w),
            None => {
                let rest = play_spec(e, next, hashes, found.2.entries, found.0, found.1, depth, left - 1);
                (record + rest.0, rest.1)
            },
        }
    }
}

/// What the rest of a game gives, one move on.
pub proof fn lemma_play_step(
    e: Engine,
    pos: Position,
    reps: Seq<u64>,
    entries: Seq<TTEntry>,
    best: Move,
    score: i32,
    depth: u8,
    left: int,
)
    ensures
        left <= 0 ==> play_spec(e, pos, reps, entries, best, score, depth, left) == (
            Seq::<PackedBoard>::empty(),
            1u8,
        ),
        left > 0 ==> ({
            let record = if quiet(best) {
                seq![packed(pos, 0, score, 0, 0)]
            } else {
                Seq::empty()
            };
            let next = pos.make_move_spec(best);
            let hashes = reps.push(e.keys.zobrist(next));
            let found = search_spec(e, next, hashes, entries, age_spec(hashes.len()), depth);
            play_spec(e, pos, reps, entries, best, score, depth, left) == match verdict_spec(
                next,
                hashes,
                found.1,
                found.0,
            ) {
                Some(w) => (record, w),
                None => {
                    let rest = play_spec(e, next, hashes, found.2.entries, found.0, found.1, depth, left - 1);
                    (record + rest.0, rest.1)
                },
            }
        }),
{
    reveal_with_fuel(play_spec, 2);
}

/// The records with the result of the game.
pub open spec fn with_result(recs: Seq<PackedBoard>, wdl: u8) -> Seq<PackedBoard> {
    Seq::new(recs.len(), |i: int| (PackedBoard { wdl, ..recs[i] }))
}

/// What a game gives that begins with the position `pos` after its
/// opening, with `reps` the hashes on the way: nothing where `pos` has no
/// legal move or its search scores above `OPENING_MARGIN`; else the records
/// of the game with its result.
pub open spec fn game_spec(e: Engine, pos: Position, reps: Seq<u64>, depth: u8, max_plies: usize) -> Option<
    Seq<PackedBoard>,
> {
    let first = search_spec(e, pos, reps, empty_table(), age_spec(reps.len()), depth);
    if !has_legal(pos) || first.1 > OPENING_MARGIN {
        None
    } else {
        let rest = play_spec(e, pos, reps, first.2.entries, first.0, first.1, depth, max_plies as int);
        Some(with_result(rest.0, rest.1))
    }
}

/// The records that a game gave, as a list.
pub open spec fn records_of(r: Option<Vec<PackedBoard>>) -> Option<Seq<PackedBoard>> {
    match r {
        Some(records) => Some(records@),
        None => None,
    }
}

/// `given` is what a game gives whose opening is `line`: nothing where the
/// opening ends early with no legal move left; else what `game_spec` says
/// of the position after the opening.
pub open spec fn game_of(
    e: Engine,
    line: Seq<Move>,
    given: Option<Seq<PackedBoard>>,
    depth: u8,
    max_plies: usize,
) -> bool {
    &&& legal_line(line)
    &&& line.len() <= OPENING_PLIES
    &&& if line.len() < OPENING_PLIES {
        !has_legal(played(line)) && given is None
    } else {
        given == game_spec(e, played(line), hashes_of(e, line), depth, max_plies)
    }
}

/// Plays one game of the engine against itself, each move searched to
/// `depth`, and gives the records of the positions in which the move that
/// was played was quiet, each with the score of the search and the result of
/// the game for White. A game that is not over after `max_plies` moves counts
/// as drawn. `None` where the random opening ended the game or left one side
/// more than `OPENING_MARGIN` ahead: the caller then asks again.
#[verifier::rlimit(60)]
pub fn game(engine: &Engine, depth: u8, max_plies: usize) -> (r: Option<Vec<PackedBoard>>)
    requires
        engine.wf(),
        depth >= 1,
    ensures
        exists|line: Seq<Move>| #[trigger] game_of(*engine, line, records_of(r), depth, max_plies),
        r.is_some() ==> exists|line: Seq<Move>, wdl: u8| #[trigger]
            plays(*engine, r.unwrap()@, line, wdl, max_plies),
        r.is_none() ==> exists|line: Seq<Move>| #[trigger] abandons(line),
        r.is_some() ==> forall|i: int|
            0 <= i < r.unwrap()@.len() ==> (#[trigger] r.unwrap()@[i]).wdl == r.unwrap()@[0].wdl
                && r.unwrap()@[i].wdl <= 2 && r.unwrap()@[i].fullmove == 0 && r.unwrap()@[i].extra == 0,
        r.is_some() ==> r.unwrap()@.len() <= max_plies,
{
    let (start, start_reps) = match opening(engine, OPENING_PLIES) {
        None => {
            proof {
                let cut = choose|line: Seq<Move>| #[trigger] cut_short(line, OPENING_PLIES);
                assert(abandons(cut));
                assert(game_of(*engine, cut, None, depth, max_plies));
            }
            return None;
        },
        Some(x) => x,
    };
    let mut pos: Position = start;
    let mut reps: Vec<u64> = start_reps;
    let ghost mut line: Seq<Move> = choose|line: Seq<Move>| #[trigger]
        opens(*engine, line, OPENING_PLIES, start, start_reps@);
    let ghost opening = line;
    if random_move(engine, &pos).is_none() {
        assert(abandons(line));
        assert(game_of(*engine, opening, None, depth, max_plies));
        return None;
    }
    let options = SearchOptions { depth, info: false, ..SearchOptions::default() };
    let mut tt = TT::new_default();
    assert(tt.entries@ =~= empty_table());
    let mut res: SearchResult = search(engine, &pos, options, reps.clone(), &mut tt, age_of(&reps));
    if res.score > OPENING_MARGIN {
        assert(abandons(line));
        assert(game_of(*engine, opening, None, depth, max_plies));
        return None;
    }
    let ghost rest = play_spec(
        *engine,
        pos,
        reps@,
        tt.entries@,
        res.best,
        res.score,
        depth,
        max_plies as int,
    );
    assert(game_spec(*engine, start, start_reps@, depth, max_plies) == Some(with_result(rest.0, rest.1)));
    let mut positions: Vec<PackedBoard> = Vec::new();
    let mut wdl: u8 = 1;
    let mut plies: usize = 0;
    let mut over: bool = false;
    while !over && plies < max_plies
        invariant
            engine.wf(),
            tt.wf(),
            depth >= 1,
            options.depth == depth,
            reps@.len() >= 1,
            !over ==> pos.halfmove < 100 && pos.valid(),
            wdl <= 2,
            positions@.len() <= plies <= max_plies,
            !over ==> legal(pos, res.best),
            forall|i: int|
                0 <= i < positions@.len() ==> (#[trigger] positions@[i]).fullmove == 0 && positions@[i].extra
                    == 0,
            legal_line(line),
            line.len() == OPENING_PLIES + plies,
            pos == played(line),
            reps@ == hashes_of(*engine, line),
            tells(positions@, line, 0),
            !over ==> wdl == 1,
            over ==> plies > 0,
            over && wdl == 1 ==> is_draw_spec(pos, reps@) || !has_legal(pos),
            options == (SearchOptions { depth, info: false, ..SearchOptions::unlimited() }),
            over ==> positions@ == rest.0 && wdl == rest.1,
            !over ==> positions@ + play_spec(
                *engine,
                pos,
                reps@,
                tt.entries@,
                res.best,
                res.score,
                depth,
                max_plies - plies,
            ).0 == rest.0,
            !over ==> play_spec(
                *engine,
                pos,
                reps@,
                tt.entries@,
                res.best,
                res.score,
                depth,
                max_plies - plies,
            ).1 == rest.1,
        decreases max_plies - plies + (if over { 0int } else { 1int }),
    {
        let best: Move = res.best;
        let ghost line_before = line;
        let ghost recs_before = positions@;
        let ghost ahead = play_spec(
            *engine,
            pos,
            reps@,
            tt.entries@,
            res.best,
            res.score,
            depth,
            max_plies - plies,
        );
        proof {
            lemma_play_step(*engine, pos, reps@, tt.entries@, res.best, res.score, depth, max_plies - plies);
        }
        proof {
            lemma_movegen_admitted(pos, true);
            lemma_legal_move_keeps_valid(pos, best);
            line = line.push(best);
            assert(line.drop_last() =~= line_before);
        }
        if !best.capture() && best.promotion() == PieceType::Empty {
            positions.push(PackedBoard::pack(&pos, 0, res.score, 0, 0));
            assert(positions@.drop_last() =~= recs_before);
        }
        assert(tells(positions@, line, 0));
        pos = pos.make_move(best);
        reps.push(pos.hash(&engine.keys));
        plies = plies + 1;
        res = search(engine, &pos, options, reps.clone(), &mut tt, age_of(&reps));
        match verdict(&pos, &reps, res.score, res.best) {
            Some(w) => {
                proof {
                    if has_legal(pos) && pos.halfmove < 255 {
                        lemma_movegen_admitted(pos, true);
                    }
                    assert(ahead == (positions@.skip(recs_before.len() as int), w));
                    assert(recs_before + positions@.skip(recs_before.len() as int) =~= positions@);
                }
                wdl = w;
                over = true;
            },
            None => {
                proof {
                    if !has_legal(pos) {
                        assert(res.best == Move::null());
                    }
                    let after = play_spec(
                        *engine,
                        pos,
                        reps@,
                        tt.entries@,
                        res.best,
                        res.score,
                        depth,
                        max_plies - plies,
                    );
                    let record = positions@.skip(recs_before.len() as int);
                    assert(ahead == (record + after.0, after.1));
                    assert(recs_before + (record + after.0) =~= positions@ + after.0);
                }
            },
        }
    }
    proof {
        lemma_play_step(*engine, pos, reps@, tt.entries@, res.best, res.score, depth, max_plies - plies);
    }
    let ghost told = positions@;
    let mut i: usize = 0;
    while i < positions.len()
        invariant
            i <= positions@.len(),
            wdl <= 2,
            positions@.len() <= max_plies,
            positions@.len() == told.len(),
            forall|k: int|
                0 <= k < positions@.len() ==> (#[trigger] positions@[k]).fullmove == 0 && positions@[k].extra
                    == 0,
            forall|k: int| 0 <= k < i ==> (#[trigger] positions@[k]).wdl == wdl,
            forall|k: int| 0 <= k < i ==> #[trigger] positions@[k] == (PackedBoard { wdl, ..told[k] }),
            forall|k: int| i <= k < positions@.len() ==> #[trigger] positions@[k] == told[k],
        decreases positions@.len() - i,
    {
        let mut record: PackedBoard = positions[i];
        record.set_wdl(wdl);
        positions[i] = record;
        i = i + 1;
    }
    proof {
        lemma_tells_result(told, positions@, line, wdl);
        assert(told =~= rest.0);
        assert(positions@ =~= with_result(rest.0, rest.1));
    }
    let r = Some(positions);
    assert(plays(*engine, r.unwrap()@, line, wdl, max_plies));
    assert(game_of(*engine, opening, records_of(r), depth, max_plies));
    r
}

} // verus!
