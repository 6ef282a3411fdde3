//! The numbers that tune the search.
use vstd::prelude::*;

verus! {

/// The depth from which the root is searched with a narrow window first.
pub const ASP_DEPTH: u8 = 3;

/// The half width of the first narrow window.
pub const ASP_WINDOW: i32 = 101;

/// A window that failed grows by three quarters of its half width.
pub const ASP_INC_NUM: i32 = 3;

/// The divisor of the growth of a failed window.
pub const ASP_INC_DEN: i32 = 4;

/// The depth that a null move takes off, and the least depth at which one is tried.
pub const NMP_REDUCTION: u8 = 3;

/// The number of moves from which later moves are searched less deeply.
pub const LMR_NMOVES: u16 = 5;

/// The depth up to which late quiet moves are passed over.
pub const LMP_DEPTH: u8 = 3;

/// The moves that are always searched before late moves are passed over.
pub const LMP_BASE: u16 = 3;

/// The moves per ply of depth that are searched before late moves are passed over.
pub const LMP_MUL: u16 = 5;

/// The depth up to which a node whose evaluation is far above `beta` is cut.
pub const RFP_DEPTH: u8 = 4;

/// The margin per ply of depth by which the evaluation must be above `beta`.
pub const RFP_MARGIN: i32 = 74;

/// The depth up to which hopeless quiet moves are passed over.
pub const FP_DEPTH: u8 = 4;

/// The margin of a hopeless quiet move at depth 0.
pub const FP_BASE: i32 = 231;

/// The margin per ply of depth of a hopeless quiet move.
pub const FP_MUL: i32 = 504;

/// The history bonus per ply of depth.
pub const HIST_MUL: i32 = 287;

/// The history bonus at depth 0.
pub const HIST_ADD: i32 = -428;

/// The continuation-history bonus per ply of depth.
pub const CONTHIST_MUL: i32 = 414;

/// The continuation-history bonus at depth 0.
pub const CONTHIST_ADD: i32 = -427;

/// The clock that is left after the increment is divided by 3.31 for the
/// hard limit: these are the hundredths.
pub const TIMEMAN_HARDDIV: u64 = 331;

/// The clock that is left after the increment is divided by 53.46 for the
/// soft limit: these are the hundredths.
pub const TIMEMAN_SOFTDIV: u64 = 5346;

/// The milliseconds of the clock that are never planned with.
pub const SAFETY_MARGIN: u64 = 25;

/// No score is beyond this.
pub const INF: i32 = 1000000;

/// A score of this size or more says that a king is lost.
pub const CHECKMATE: i32 = 100000;

/// The deepest ply of any line.
pub const MAX_PLY: u8 = 255;

/// No evaluation, and no score that a search has found, is beyond this.
pub const SCORE_LIMIT: i32 = 630861;

/// The value of capturing `victim` (pawn, knight, bishop, rook, queen) with
/// `attacker` (pawn to king): the more the victim is worth and the less the
/// attacker, the higher.
pub const MVVLVA_LOOKUP: [[i32; 5]; 6] = [
    [9, 11, 11, 13, 17],
    [7, 9, 8, 11, 15],
    [7, 10, 9, 11, 15],
    [5, 7, 7, 9, 13],
    [1, 3, 3, 5, 9],
    [0, 2, 2, 4, 8],
];

/// By how many plies a late move is searched less deeply, for each depth
/// and each number of moves searched before it. The table is given to the
/// engine when it is made; the search cuts what it reads to a reduction that
/// leaves at least one ply.
pub struct Reductions {
    /// The reduction at depth `d` of move number `n` stands at `d * 256 + n`.
    pub table: Vec<u8>,
}

impl Reductions {
    /// The table has 256 rows of 256 entries.
    pub open spec fn wf(self) -> bool {
        self.table.len() == 65536
    }

    /// The entry for `depth` and move number `n`, where numbers from 255 on
    /// share the last entry of their depth.
    pub open spec fn entry(self, depth: u8, n: u16) -> u8 {
        self.table[depth * 256 + (if n > 255 { 255 } else { n as int })]
    }

    /// A table of one reduction for all depths and moves.
    pub fn uniform(r: u8) -> (reductions: Reductions)
        ensures
            reductions.wf(),
            forall|i: int| 0 <= i < 65536 ==> reductions.table[i] == r,
    {
        let mut table: Vec<u8> = Vec::with_capacity(65536);
        let mut i: usize = 0;
        while i < 65536
            invariant
                i <= 65536,
                table.len() == i,
                forall|j: int| 0 <= j < i ==> table[j] == r,
            decreases 65536 - i,
        {
            table.push(r);
            i = i + 1;
        }
        Reductions { table }
    }

    /// The table with the given entries; `None` unless there are 65536 of them.
    pub fn from_values(values: Vec<u8>) -> (r: Option<Reductions>)
        ensures
            values.len() == 65536 ==> r.is_some() && r.unwrap().table@ == values@ && r.unwrap().wf(),
            values.len() != 65536 ==> r.is_none(),
    {
        if values.len() == 65536 {
            Some(Reductions { table: values })
        } else {
            None
        }
    }

    /// The entry for `depth` and move number `n`.
    pub fn get(&self, depth: u8, n: u16) -> (r: u8)
        requires
            self.wf(),
        ensures
            r == self.entry(depth, n),
    {
        let column: usize = if n > 255 {
            255
        } else {
            n as usize
        };
        self.table[depth as usize * 256 + column]
    }
}

} // verus!
