//! Deterministically seeded xorshift64 pseudo-random generator, used by the
//! power-of-two planner and the workload generator. Same seed, same stream.

use vstd::prelude::*;

verus! {

/// One xorshift64 step (shifts 13, 7, 17 on 64-bit words).
pub open spec fn xorshift_step(x: u64) -> u64 {
    let a = x ^ (x << 13u64);
    let b = a ^ (a >> 7u64);
    b ^ (b << 17u64)
}

/// The `k`-th state reached from `s` (`k` steps).
pub open spec fn xorshift_iter(s: u64, k: nat) -> u64
    decreases k,
{
    if k == 0 {
        s
    } else {
        xorshift_step(xorshift_iter(s, (k - 1) as nat))
    }
}

/// Tiny deterministic xorshift64 generator; not cryptographic.
#[derive(Clone, Copy, Debug)]
pub struct Xorshift64 {
    state: u64,
}

impl View for Xorshift64 {
    type V = u64;

    closed spec fn view(&self) -> u64 {
        self.state
    }
}

impl Xorshift64 {
    /// Seeded generator; a zero seed (the fixed point of xorshift) becomes 1.
    pub fn new(seed: u64) -> (r: Self)
        ensures
            r@ == (if seed == 0 {
                1
            } else {
                seed
            }),
    {
        Xorshift64 { state: if seed == 0 { 1 } else { seed } }
    }

    /// Advance the state and return the new state.
    pub fn next(&mut self) -> (r: u64)
        ensures
            r == xorshift_step(old(self)@),
            final(self)@ == r,
    {
        let mut x = self.state;
        x = x ^ (x << 13u64);
        x = x ^ (x >> 7u64);
        x = x ^ (x << 17u64);
        self.state = x;
        x
    }
}

} // verus!
