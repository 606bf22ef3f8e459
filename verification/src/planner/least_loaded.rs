//! Least-loaded placement (greedy minimizer of the worst-machine gauge).
//!
//! Each step dequeues one item and places it on the machine with the lowest
//! worst-dimension utilization, the lowest id among equals.

use std::collections::VecDeque;
use vstd::prelude::*;
use crate::load::{lemma_worst_le_total, lemma_worst_le_trans, worst_le, worst_le_exec, Fleet, MachineId, MachineSpec, Mass};
use crate::move_kind::Place;
use crate::planner::TypedMove;

verus! {

/// Entry `i` has the least worst-dimension utilization, and every earlier
/// entry has strictly more.
pub open spec fn is_first_least_loaded<const N: usize>(
    e: Seq<(MachineId, MachineSpec<N>)>,
    i: int,
) -> bool {
    &&& 0 <= i < e.len()
    &&& forall|j: int| 0 <= j < e.len() ==> worst_le(e[i].1, #[trigger] e[j].1)
    &&& forall|j: int| 0 <= j < i ==> !worst_le(#[trigger] e[j].1, e[i].1)
}

/// Index of the first entry of least worst-dimension utilization.
pub fn first_least_loaded<const N: usize>(e: &[(MachineId, MachineSpec<N>)]) -> (i: usize)
    requires
        e@.len() > 0,
    ensures
        is_first_least_loaded(e@, i as int),
{
    let mut best: usize = 0;
    let mut i: usize = 1;
    proof {
        lemma_worst_le_total(e@[0].1, e@[0].1);
    }
    while i < e.len()
        invariant
            1 <= i <= e@.len(),
            best < i,
            forall|j: int| 0 <= j < i ==> worst_le(e@[best as int].1, #[trigger] e@[j].1),
            forall|j: int| 0 <= j < best ==> !worst_le(#[trigger] e@[j].1, e@[best as int].1),
        decreases e@.len() - i,
    {
        if !worst_le_exec(&e[best].1, &e[i].1) {
            proof {
                let b = e@[best as int].1;
                let c = e@[i as int].1;
                lemma_worst_le_total(b, c);
                lemma_worst_le_total(c, c);
                assert forall|j: int| 0 <= j <= i implies worst_le(c, #[trigger] e@[j].1) by {
                    if j < i {
                        lemma_worst_le_trans(c, b, e@[j].1);
                    }
                }
                assert forall|j: int| 0 <= j < i implies !worst_le(#[trigger] e@[j].1, c) by {
                    if worst_le(e@[j].1, c) {
                        lemma_worst_le_trans(b, e@[j].1, c);
                    }
                }
            }
            best = i;
        }
        i += 1;
    }
    best
}

/// Greedy least-loaded placer over a queue of work items.
pub struct LeastLoaded<const N: usize> {
    queue: VecDeque<Mass<N>>,
}

impl<const N: usize> LeastLoaded<N> {
    /// The work items still queued, front first.
    pub closed spec fn pending(&self) -> Seq<Mass<N>> {
        self.queue@
    }

    /// Construct from a list of work items, in the order they are placed.
    pub fn new(items: Vec<Mass<N>>) -> (r: Self)
        ensures
            r.pending() == items@,
    {
        let mut queue: VecDeque<Mass<N>> = VecDeque::new();
        let mut i: usize = 0;
        while i < items.len()
            invariant
                i <= items@.len(),
                queue@ == items@.take(i as int),
            decreases items@.len() - i,
        {
            queue.push_back(items[i]);
            assert(items@.take(i + 1) =~= items@.take(i as int).push(items@[i as int]));
            i += 1;
        }
        assert(items@.take(i as int) =~= items@);
        LeastLoaded { queue }
    }

    /// Number of items remaining in the queue.
    pub fn remaining(&self) -> (r: usize)
        ensures
            r == self.pending().len(),
    {
        self.queue.len()
    }

    /// The next decision: dequeue one item and place it on the first machine
    /// of least worst-dimension utilization. `None` when the queue is empty,
    /// or (the item being consumed) when the fleet has no machine.
    pub fn step_on(&mut self, fleet: &Fleet<N>) -> (r: Option<TypedMove<N>>)
        requires
            fleet.wf(),
        ensures
            old(self).pending().len() == 0 ==> r is None && final(self).pending() == old(
                self,
            ).pending(),
            old(self).pending().len() > 0 ==> final(self).pending() == old(
                self,
            ).pending().drop_first(),
            old(self).pending().len() > 0 && fleet.entries().len() == 0 ==> r is None,
            r is Some <==> old(self).pending().len() > 0 && fleet.entries().len() > 0,
            r matches Some(mv) ==> exists|i: int|
                is_first_least_loaded(fleet.entries(), i) && mv == TypedMove::Place(
                    Place { machine: #[trigger] fleet.entries()[i].0, mass: old(self).pending()[0] },
                ),
    {
        let mass = match self.queue.pop_front() {
            Some(m) => m,
            None => return None,
        };
        let e = fleet.as_slice();
        if e.len() == 0 {
            return None;
        }
        let i = first_least_loaded(e);
        Some(TypedMove::Place(Place::new(e[i].0, mass)))
    }
}

} // verus!
