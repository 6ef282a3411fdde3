//! A chess engine: move generation over magic bitboards, a
//! principal-variation search with a transposition table, and the packed
//! records of positions for training data.
use vstd::prelude::*;

pub mod bitboard;
pub mod datagen;
pub mod game;
pub mod marlinformat;
pub mod movegen;
pub mod perft;
pub mod position;
pub mod search;
pub mod uci;
pub mod zobrist;

verus! {

/// What a search is given: the clocks and increments of both sides in
/// milliseconds, the greatest depth, and whether it reports each iteration.
#[derive(Debug, Clone, Copy, PartialEq, Eq, Structural)]
pub struct SearchOptions {
    pub wtime: u64,
    pub btime: u64,
    pub winc: u64,
    pub binc: u64,
    pub depth: u8,
    pub info: bool,
}

impl SearchOptions {
    /// No limits: endless clocks, no increments, depth 255, reports on.
    pub open spec fn unlimited() -> SearchOptions {
        SearchOptions { wtime: u64::MAX, btime: u64::MAX, winc: 0, binc: 0, depth: 255, info: true }
    }
}

impl Default for SearchOptions {
    fn default() -> (options: SearchOptions)
        ensures
            options == SearchOptions::unlimited(),
    {
        SearchOptions { wtime: u64::MAX, btime: u64::MAX, winc: 0, binc: 0, depth: 255, info: true }
    }
}

} // verus!
