//! Power-of-two-choices placement.
//!
//! For each work item, sample two machines with a seeded xorshift64
//! generator and place on the one with lower worst-dimension utilization
//! (the first sample on a tie). Same seed, same sequence of decisions.

use std::collections::VecDeque;
use vstd::prelude::*;
use crate::load::{worst_le, worst_le_exec, Fleet, Mass};
use crate::move_kind::Place;
use crate::planner::TypedMove;
use crate::rng::{xorshift_step, Xorshift64};

verus! {

/// Seeded two-choice placer over a queue of work items.
pub struct PowerOfTwo<const N: usize> {
    queue: VecDeque<Mass<N>>,
    rng: Xorshift64,
}

impl<const N: usize> PowerOfTwo<N> {
    /// The work items still queued, front first.
    pub closed spec fn pending(&self) -> Seq<Mass<N>> {
        self.queue@
    }

    /// The generator's current state.
    pub closed spec fn rng_state(&self) -> u64 {
        self.rng@
    }

    /// Construct from work items and a seed (a zero seed becomes 1).
    pub fn new(items: Vec<Mass<N>>, seed: u64) -> (r: Self)
        ensures
            r.pending() == items@,
            r.rng_state() == (if seed == 0 {
                1
            } else {
                seed
            }),
    {
        let mut queue: VecDeque<Mass<N>> = VecDeque::new();
        let mut i: usize = 0;
        while i < items.len()
            invariant
                i <= items@.len(),
                queue@ == items@.take(i as int),
            decreases items@.len() - i,
        {
            queue.push_back(items[i]);
            assert(items@.take(i + 1) =~= items@.take(i as int).push(items@[i as int]));
            i += 1;
        }
        assert(items@.take(i as int) =~= items@);
        PowerOfTwo { queue, rng: Xorshift64::new(seed) }
    }

    /// Number of items remaining in the queue.
    pub fn remaining(&self) -> (r: usize)
        ensures
            r == self.pending().len(),
    {
        self.queue.len()
    }

    /// The next decision: dequeue one item; on an empty fleet stop (the item
    /// consumed, no sample drawn). Otherwise draw `i = next % n` and, when
    /// `n > 1`, `j = next % n`, and place on entry `i` if its worst-dimension
    /// utilization is at most entry `j`'s, else on entry `j`.
    pub fn step_on(&mut self, fleet: &Fleet<N>) -> (r: Option<TypedMove<N>>)
        requires
            fleet.wf(),
        ensures
            old(self).pending().len() == 0 ==> r is None && final(self).pending() == old(
                self,
            ).pending() && final(self).rng_state() == old(self).rng_state(),
            old(self).pending().len() > 0 ==> final(self).pending() == old(
                self,
            ).pending().drop_first(),
            old(self).pending().len() > 0 && fleet.entries().len() == 0 ==> r is None
                && final(self).rng_state() == old(self).rng_state(),
            old(self).pending().len() > 0 && fleet.entries().len() > 0 ==> {
                let e = fleet.entries();
                let n = e.len();
                let x1 = xorshift_step(old(self).rng_state());
                let x2 = if n == 1 {
                    x1
                } else {
                    xorshift_step(x1)
                };
                let i = (x1 as usize) as int % n as int;
                let j = if n == 1 {
                    0
                } else {
                    (x2 as usize) as int % n as int
                };
                let target = if worst_le(e[i].1, e[j].1) {
                    e[i].0
                } else {
                    e[j].0
                };
                &&& final(self).rng_state() == x2
                &&& r == Some(
                    TypedMove::Place(Place { machine: target, mass: old(self).pending()[0] }),
                )
            },
    {
        let mass = match self.queue.pop_front() {
            Some(m) => m,
            None => return None,
        };
        let e = fleet.as_slice();
        let n = e.len();
        if n == 0 {
            return None;
        }
        let i = (self.rng.next() as usize) % n;
        let j = if n == 1 {
            0
        } else {
            (self.rng.next() as usize) % n
        };
        let target = if worst_le_exec(&e[i].1, &e[j].1) {
            e[i].0
        } else {
            e[j].0
        };
        Some(TypedMove::Place(Place::new(target, mass)))
    }
}

} // verus!
