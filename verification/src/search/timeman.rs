//! The time manager: a soft and a hard limit for one search.
use vstd::prelude::*;
use crate::position::PieceColor;
use crate::search::consts::{SAFETY_MARGIN, TIMEMAN_HARDDIV, TIMEMAN_SOFTDIV};
use crate::SearchOptions;

verus! {

/// A moment of the machine's clock, `std::time::Instant`: a value that is
/// carried through and handed back to the clock, never looked into.
#[verifier::external_type_specification]
#[verifier::external_body]
pub struct ExInstant(std::time::Instant);

/// The clock of the side to move, in milliseconds, that says that there is
/// no limit.
pub const NO_LIMIT: u64 = u64::MAX;

/// The limits of one search, counted from its start.
pub struct TimeManager {
    pub start: std::time::Instant,
    /// The milliseconds after which the search is broken off.
    pub hard: Option<u64>,
    /// The milliseconds after which no deeper iteration is begun.
    pub soft: Option<u64>,
}

/// The hundredths `x`, divided by `div` and rounded towards zero.
pub open spec fn share(x: int, div: int) -> int {
    if x >= 0 {
        x * 100 / div
    } else {
        -((-x) * 100 / div)
    }
}

/// The limit for a clock of `t` milliseconds with an increment of `inc`:
/// three quarters of the increment plus the clock less the increment,
/// divided by `div` hundredths. Where the increment is larger than the clock
/// that difference is negative and takes from the limit. The limit is never
/// more than the clock less the safety margin, and never less than nothing.
pub open spec fn limit_spec(t: u64, inc: u64, div: u64) -> int {
    let max = if t > 25 { t - 25 } else { 0 };
    let planned = inc * 3 / 4 + share(t - inc, div as int);
    if planned >= max {
        max
    } else if planned < 0 {
        0
    } else {
        planned
    }
}

/// The limit for a clock of `t` milliseconds with an increment of `inc`.
pub fn limit(t: u64, inc: u64, div: u64) -> (r: u64)
    requires
        div > 0,
    ensures
        r == limit_spec(t, inc, div),
{
    let max: u64 = if t > SAFETY_MARGIN {
        t - SAFETY_MARGIN
    } else {
        0
    };
    let base: u128 = (inc as u128) * 3 / 4;
    if t >= inc {
        let planned: u128 = base + ((t - inc) as u128) * 100 / (div as u128);
        if planned < max as u128 {
            planned as u64
        } else {
            max
        }
    } else {
        let cut: u128 = ((inc - t) as u128) * 100 / (div as u128);
        if cut > base {
            0
        } else if base - cut < max as u128 {
            (base - cut) as u64
        } else {
            max
        }
    }
}

/// Whether a search that has run for `elapsed` milliseconds is beyond `limit`.
pub fn expired(elapsed: u64, limit: Option<u64>) -> (r: bool)
    ensures
        r == (limit.is_some() && elapsed > limit.unwrap()),
{
    match limit {
        Some(l) => elapsed > l,
        None => false,
    }
}

/// The moment of the call, by `std::time::Instant::now`. Nothing is claimed of it.
#[verifier::external_body]
fn now() -> std::time::Instant {
    std::time::Instant::now()
}

/// The time since `start`, by `std::time::Instant::elapsed`. Nothing is
/// claimed of it.
#[verifier::external_body]
fn elapsed_since(start: &std::time::Instant) -> std::time::Duration {
    start.elapsed()
}

/// The whole milliseconds of a span of time, by
/// `std::time::Duration::as_millis`. Nothing is claimed of them.
#[verifier::external_body]
fn whole_millis(span: &std::time::Duration) -> u128 {
    span.as_millis()
}

/// A count of milliseconds as far as 64 bits count: every greater count
/// becomes the greatest that they hold.
pub open spec fn clamped(millis: u128) -> u64 {
    if millis > u64::MAX {
        u64::MAX
    } else {
        millis as u64
    }
}

/// A count of milliseconds as far as 64 bits count.
pub fn clamp_millis(millis: u128) -> (r: u64)
    ensures
        r == clamped(millis),
{
    if millis > u64::MAX as u128 {
        u64::MAX
    } else {
        millis as u64
    }
}

/// The milliseconds since `start`, as far as 64 bits count.
fn elapsed_ms(start: &std::time::Instant) -> u64 {
    let span = elapsed_since(start);
    clamp_millis(whole_millis(&span))
}

impl TimeManager {
    /// The limits for the clock and increment of `color`. A clock of
    /// `NO_LIMIT` gives no limits.
    pub fn new(options: &SearchOptions, color: PieceColor) -> (timeman: TimeManager)
        ensures
            timeman.hard == TimeManager::hard_spec(*options, color),
            timeman.soft == TimeManager::soft_spec(*options, color),
    {
        let (t, inc) = match color {
            PieceColor::White => (options.wtime, options.winc),
            PieceColor::Black => (options.btime, options.binc),
        };
        let (hard, soft) = if t == NO_LIMIT {
            (None, None)
        } else {
            (Some(limit(t, inc, TIMEMAN_HARDDIV)), Some(limit(t, inc, TIMEMAN_SOFTDIV)))
        };
        TimeManager { start: now(), hard, soft }
    }

    /// A manager without limits.
    pub fn unlimited() -> (timeman: TimeManager)
        ensures
            timeman.hard.is_none(),
            timeman.soft.is_none(),
    {
        TimeManager { start: now(), hard: None, soft: None }
    }

    /// The clock and the increment of `color`.
    pub open spec fn clock(options: SearchOptions, color: PieceColor) -> (u64, u64) {
        match color {
            PieceColor::White => (options.wtime, options.winc),
            PieceColor::Black => (options.btime, options.binc),
        }
    }

    /// The hard limit for the clock of `color`.
    pub open spec fn hard_spec(options: SearchOptions, color: PieceColor) -> Option<u64> {
        let (t, inc) = Self::clock(options, color);
        if t == NO_LIMIT {
            None
        } else {
            Some(limit_spec(t, inc, TIMEMAN_HARDDIV) as u64)
        }
    }

    /// The soft limit for the clock of `color`.
    pub open spec fn soft_spec(options: SearchOptions, color: PieceColor) -> Option<u64> {
        let (t, inc) = Self::clock(options, color);
        if t == NO_LIMIT {
            None
        } else {
            Some(limit_spec(t, inc, TIMEMAN_SOFTDIV) as u64)
        }
    }

    /// Whether the hard limit has passed. Without a limit it never has, nor
    /// with the greatest limit that can be written, whatever the clock says.
    pub fn hard_stop(&self) -> (r: bool)
        ensures
            self.hard.is_none() || self.hard == Some(u64::MAX) ==> !r,
    {
        match self.hard {
            None => false,
            Some(_) => expired(elapsed_ms(&self.start), self.hard),
        }
    }

    /// Whether the soft limit has passed. Without a limit it never has, nor
    /// with the greatest limit that can be written, whatever the clock says.
    pub fn soft_stop(&self) -> (r: bool)
        ensures
            self.soft.is_none() || self.soft == Some(u64::MAX) ==> !r,
    {
        match self.soft {
            None => false,
            Some(_) => expired(elapsed_ms(&self.start), self.soft),
        }
    }

    /// The milliseconds since the search began.
    pub fn elapsed(&self) -> u64 {
        elapsed_ms(&self.start)
    }
}

} // verus!
