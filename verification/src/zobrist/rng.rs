//! The stream of numbers from which the hash keys are taken.
use vstd::prelude::*;

verus! {

/// The state from which the stream starts.
pub const SEED: u128 = 0x246C_CB2D_3B40_2853_9918_0A6D_BC3A_F444;

/// A 128-bit xorshift generator.
pub struct XorShiftState(pub u128);

/// The state that follows `state`.
pub open spec fn step(state: u128) -> u128 {
    let a = state ^ (state >> 12);
    let b = a ^ (a << 25);
    b ^ (b >> 27)
}

/// The number that a state gives out: its low half xor its high half.
pub open spec fn output(state: u128) -> u64 {
    (state as u64) ^ ((state >> 64) as u64)
}

/// The state after `n` steps from the seed.
pub open spec fn state_after(n: nat) -> u128
    decreases n,
{
    if n == 0 {
        SEED
    } else {
        step(state_after((n - 1) as nat))
    }
}

/// The `n`-th number of the stream, counted from 0.
pub open spec fn nth_random(n: nat) -> u64 {
    output(state_after(n + 1))
}

impl XorShiftState {
    /// The generator at the start of the stream.
    pub fn new() -> (state: XorShiftState)
        ensures
            state.0 == SEED,
    {
        XorShiftState(SEED)
    }

    /// Steps the generator and gives out the number of the new state.
    pub fn next(&mut self) -> (r: u64)
        ensures
            final(self).0 == step(old(self).0),
            r == output(final(self).0),
    {
        let a: u128 = self.0 ^ (self.0 >> 12);
        let b: u128 = a ^ (a << 25);
        let c: u128 = b ^ (b >> 27);
        self.0 = c;
        (c as u64) ^ ((c >> 64) as u64)
    }
}

} // verus!
