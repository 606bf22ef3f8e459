//! Best-Fit-Decreasing bin packing.
//!
//! Items are ordered by total mass (sum across dimensions), largest first,
//! equal totals keeping their given order. Each step places the next item on
//! the feasible machine with the smallest remaining headroom in any
//! dimension: the tightest fit, the lowest id among equals.

use std::collections::VecDeque;
use vstd::prelude::*;
use crate::load::{mass_total, sat_sum, Fleet, MachineId, MachineSpec, Mass};
use crate::move_kind::Place;
use crate::planner::TypedMove;

verus! {

/// Index of the first element of `s` whose total is below `t` (`s.len()`
/// when there is none).
pub open spec fn first_below<const N: usize>(s: Seq<Mass<N>>, t: int) -> int
    decreases s.len(),
{
    if s.len() == 0 {
        0
    } else if mass_total(s[0]) < t {
        0
    } else {
        1 + first_below(s.drop_first(), t)
    }
}

/// Insert `x` after every element whose total is at least `x`'s.
pub open spec fn insert_desc<const N: usize>(s: Seq<Mass<N>>, x: Mass<N>) -> Seq<Mass<N>> {
    s.insert(first_below(s, mass_total(x)), x)
}

/// Stable sort by total mass, largest first: each element is inserted after
/// every earlier element whose total is at least its own.
pub open spec fn sort_by_total_desc<const N: usize>(s: Seq<Mass<N>>) -> Seq<Mass<N>>
    decreases s.len(),
{
    if s.len() == 0 {
        s
    } else {
        insert_desc(sort_by_total_desc(s.drop_last()), s.last())
    }
}

/// Totals are non-increasing along `s`.
pub open spec fn sorted_by_total_desc<const N: usize>(s: Seq<Mass<N>>) -> bool {
    forall|i: int, j: int| 0 <= i < j < s.len() ==> mass_total(s[i]) >= mass_total(s[j])
}

proof fn lemma_first_below<const N: usize>(s: Seq<Mass<N>>, t: int, p: int)
    requires
        0 <= p <= s.len(),
        forall|j: int| 0 <= j < p ==> mass_total(#[trigger] s[j]) >= t,
        p < s.len() ==> mass_total(s[p]) < t,
    ensures
        first_below(s, t) == p,
    decreases p,
{
    if p > 0 {
        let u = s.drop_first();
        assert forall|j: int| 0 <= j < p - 1 implies mass_total(#[trigger] u[j]) >= t by {
            assert(u[j] == s[j + 1]);
        }
        if p - 1 < u.len() {
            assert(u[p - 1] == s[p]);
        }
        lemma_first_below(u, t, p - 1);
    }
}

proof fn lemma_first_below_bounds<const N: usize>(s: Seq<Mass<N>>, t: int)
    ensures
        0 <= first_below(s, t) <= s.len(),
        forall|j: int| 0 <= j < first_below(s, t) ==> mass_total(#[trigger] s[j]) >= t,
        first_below(s, t) < s.len() ==> mass_total(s[first_below(s, t)]) < t,
    decreases s.len(),
{
    if s.len() > 0 && mass_total(s[0]) >= t {
        let u = s.drop_first();
        lemma_first_below_bounds(u, t);
        assert forall|j: int| 0 <= j < first_below(s, t) implies mass_total(#[trigger] s[j]) >= t by {
            if j > 0 {
                assert(s[j] == u[j - 1]);
            }
        }
        if first_below(s, t) < s.len() {
            assert(s[first_below(s, t)] == u[first_below(u, t)]);
        }
    }
}

/// Inserting at `first_below` keeps a non-increasing order.
proof fn lemma_insert_desc_sorted<const N: usize>(s: Seq<Mass<N>>, x: Mass<N>)
    requires
        sorted_by_total_desc(s),
    ensures
        sorted_by_total_desc(insert_desc(s, x)),
        insert_desc(s, x).len() == s.len() + 1,
{
    let t = mass_total(x);
    lemma_first_below_bounds(s, t);
    let p = first_below(s, t);
    let r = s.insert(p, x);
    assert forall|i: int, j: int| 0 <= i < j < r.len() implies mass_total(r[i]) >= mass_total(
        r[j],
    ) by {
        if i < p && j == p {
        } else if i < p && j > p {
            assert(r[j] == s[j - 1]);
        } else if i == p && j > p {
            assert(r[j] == s[j - 1]);
            assert(mass_total(s[p]) >= mass_total(s[j - 1]));
        } else if i > p {
            assert(r[i] == s[i - 1]);
            assert(r[j] == s[j - 1]);
        }
    }
}

proof fn lemma_sort_sorted<const N: usize>(s: Seq<Mass<N>>)
    ensures
        sorted_by_total_desc(sort_by_total_desc(s)),
        sort_by_total_desc(s).len() == s.len(),
    decreases s.len(),
{
    if s.len() > 0 {
        lemma_sort_sorted(s.drop_last());
        lemma_insert_desc_sorted(sort_by_total_desc(s.drop_last()), s.last());
    }
}

/// `s` fits `m` in every dimension: `load + mass` (saturating) within capacity.
pub open spec fn fits<const N: usize>(s: MachineSpec<N>, m: Mass<N>) -> bool {
    forall|d: int|
        0 <= d < N ==> #[trigger] sat_sum(s.load.0[d], m.0[d]) <= s.capacity.0[d]
}

/// Smallest per-dimension headroom (saturating `capacity − load`) among the
/// first `k` dimensions; `u64::MAX` when `k == 0`.
pub open spec fn headroom_upto<const N: usize>(s: MachineSpec<N>, k: int) -> int
    decreases k,
{
    if k <= 0 {
        u64::MAX as int
    } else {
        let h = headroom_upto(s, k - 1);
        let room = if s.capacity.0[k - 1] >= s.load.0[k - 1] {
            s.capacity.0[k - 1] - s.load.0[k - 1]
        } else {
            0
        };
        if room < h {
            room
        } else {
            h
        }
    }
}

/// Smallest per-dimension headroom of a machine.
pub open spec fn headroom<const N: usize>(s: MachineSpec<N>) -> int {
    headroom_upto(s, N as int)
}

/// Entry `i` is the first feasible machine of least headroom for `m`.
pub open spec fn is_tightest_fit<const N: usize>(
    e: Seq<(MachineId, MachineSpec<N>)>,
    m: Mass<N>,
    i: int,
) -> bool {
    &&& 0 <= i < e.len()
    &&& fits(e[i].1, m)
    &&& forall|j: int|
        0 <= j < e.len() && fits(#[trigger] e[j].1, m) ==> headroom(e[i].1) <= headroom(e[j].1)
    &&& forall|j: int| 0 <= j < i && fits(#[trigger] e[j].1, m) ==> headroom(e[j].1) > headroom(e[i].1)
}

fn fits_exec<const N: usize>(s: &MachineSpec<N>, m: &Mass<N>) -> (r: bool)
    ensures
        r == fits(*s, *m),
{
    let mut d: usize = 0;
    while d < N
        invariant
            d <= N,
            forall|e: int|
                0 <= e < d ==> #[trigger] sat_sum(s.load.0[e], m.0[e]) <= s.capacity.0[e],
        decreases N - d,
    {
        if s.load.0[d].saturating_add(m.0[d]) > s.capacity.0[d] {
            assert(sat_sum(s.load.0[d as int], m.0[d as int]) > s.capacity.0[d as int]);
            return false;
        }
        d += 1;
    }
    true
}

fn headroom_exec<const N: usize>(s: &MachineSpec<N>) -> (r: u64)
    ensures
        r == headroom(*s),
{
    let mut min_room: u64 = u64::MAX;
    let mut d: usize = 0;
    while d < N
        invariant
            d <= N,
            min_room == headroom_upto(*s, d as int),
        decreases N - d,
    {
        let room = s.capacity.0[d].saturating_sub(s.load.0[d]);
        if room < min_room {
            min_room = room;
        }
        d += 1;
    }
    min_room
}

/// Best-Fit-Decreasing placer over a queue of items.
pub struct BestFitDecreasing<const N: usize> {
    queue: VecDeque<Mass<N>>,
}

impl<const N: usize> BestFitDecreasing<N> {
    /// The items still queued, front first.
    pub closed spec fn pending(&self) -> Seq<Mass<N>> {
        self.queue@
    }

    /// Construct from a list of items, ordered by total mass largest first
    /// (a stable sort). Each item's total must fit in a word.
    pub fn new(items: Vec<Mass<N>>) -> (r: Self)
        requires
            forall|i: int| 0 <= i < items@.len() ==> mass_total(#[trigger] items@[i]) <= u64::MAX,
        ensures
            r.pending() == sort_by_total_desc(items@),
            sorted_by_total_desc(r.pending()),
            r.pending().len() == items@.len(),
    {
        let mut sorted: Vec<Mass<N>> = Vec::new();
        let mut k: usize = 0;
        while k < items.len()
            invariant
                k <= items@.len(),
                forall|i: int| 0 <= i < items@.len() ==> mass_total(#[trigger] items@[i]) <= u64::MAX,
                sorted@ == sort_by_total_desc(items@.take(k as int)),
                forall|i: int| 0 <= i < sorted@.len() ==> mass_total(#[trigger] sorted@[i]) <= u64::MAX,
            decreases items@.len() - k,
        {
            let x = items[k];
            let t = x.total();
            let mut p: usize = 0;
            while p < sorted.len() && sorted[p].total() >= t
                invariant
                    p <= sorted@.len(),
                    t == mass_total(x),
                    forall|i: int| 0 <= i < sorted@.len() ==> mass_total(#[trigger] sorted@[i]) <= u64::MAX,
                    forall|j: int| 0 <= j < p ==> mass_total(#[trigger] sorted@[j]) >= t,
                decreases sorted@.len() - p,
            {
                p += 1;
            }
            proof {
                lemma_first_below(sorted@, t as int, p as int);
                assert(items@.take(k + 1).drop_last() =~= items@.take(k as int));
                assert(items@.take(k + 1).last() == x);
            }
            sorted.insert(p, x);
            k += 1;
        }
        assert(items@.take(k as int) =~= items@);
        proof {
            lemma_sort_sorted(items@);
        }
        let mut queue: VecDeque<Mass<N>> = VecDeque::new();
        let mut i: usize = 0;
        while i < sorted.len()
            invariant
                i <= sorted@.len(),
                queue@ == sorted@.take(i as int),
            decreases sorted@.len() - i,
        {
            queue.push_back(sorted[i]);
            assert(sorted@.take(i + 1) =~= sorted@.take(i as int).push(sorted@[i as int]));
            i += 1;
        }
        assert(sorted@.take(i as int) =~= sorted@);
        BestFitDecreasing { queue }
    }

    /// Number of items remaining in the queue.
    pub fn remaining(&self) -> (r: usize)
        ensures
            r == self.pending().len(),
    {
        self.queue.len()
    }

    /// The next decision: dequeue one item and place it on the first feasible
    /// machine of least headroom; `None` when the queue is empty or (the item
    /// being consumed) when no machine fits it.
    pub fn step_on(&mut self, fleet: &Fleet<N>) -> (r: Option<TypedMove<N>>)
        requires
            fleet.wf(),
        ensures
            old(self).pending().len() == 0 ==> r is None && final(self).pending() == old(
                self,
            ).pending(),
            old(self).pending().len() > 0 ==> final(self).pending() == old(
                self,
            ).pending().drop_first(),
            r is Some <==> old(self).pending().len() > 0 && exists|j: int|
                0 <= j < fleet.entries().len() && fits(
                    #[trigger] fleet.entries()[j].1,
                    old(self).pending()[0],
                ),
            r matches Some(mv) ==> exists|i: int|
                is_tightest_fit(fleet.entries(), old(self).pending()[0], i) && mv
                    == TypedMove::Place(
                    Place { machine: #[trigger] fleet.entries()[i].0, mass: old(self).pending()[0] },
                ),
    {
        let mass = match self.queue.pop_front() {
            Some(m) => m,
            None => return None,
        };
        let e = fleet.as_slice();
        let mut best: Option<usize> = None;
        let mut best_room: u64 = 0;
        let mut i: usize = 0;
        while i < e.len()
            invariant
                i <= e@.len(),
                best is None ==> forall|j: int| 0 <= j < i ==> !fits(#[trigger] e@[j].1, mass),
                best matches Some(b) ==> {
                    &&& b < i
                    &&& best_room == headroom(e@[b as int].1)
                    &&& fits(e@[b as int].1, mass)
                    &&& forall|j: int|
                        0 <= j < i && fits(#[trigger] e@[j].1, mass) ==> best_room <= headroom(e@[j].1)
                    &&& forall|j: int|
                        0 <= j < b && fits(#[trigger] e@[j].1, mass) ==> headroom(e@[j].1) > best_room
                },
            decreases e@.len() - i,
        {
            if fits_exec(&e[i].1, &mass) {
                let room = headroom_exec(&e[i].1);
                match best {
                    None => {
                        best = Some(i);
                        best_room = room;
                    },
                    Some(_) => {
                        if room < best_room {
                            best = Some(i);
                            best_room = room;
                        }
                    },
                }
            }
            i += 1;
        }
        match best {
            None => None,
            Some(b) => Some(TypedMove::Place(Place::new(e[b].0, mass))),
        }
    }
}


proof fn lemma_headroom_upto<const N: usize>(s: MachineSpec<N>, k: int)
    requires
        0 <= k <= N,
    ensures
        k == 0 ==> headroom_upto(s, k) == u64::MAX,
        forall|d: int|
            0 <= d < k ==> headroom_upto(s, k) <= (if s.capacity.0[d] >= s.load.0[d] {
                s.capacity.0[d] - s.load.0[d]
            } else {
                0
            }),
        k > 0 ==> exists|d: int|
            0 <= d < k && headroom_upto(s, k) == (if s.capacity.0[d] >= s.load.0[d] {
                s.capacity.0[d] - s.load.0[d]
            } else {
                0
            }),
    decreases k,
{
    if k > 0 {
        lemma_headroom_upto(s, k - 1);
        let r = if s.capacity.0[k - 1] >= s.load.0[k - 1] {
            s.capacity.0[k - 1] - s.load.0[k - 1]
        } else {
            0
        };
        if k - 1 > 0 {
            let d0 = choose|d: int|
                0 <= d < k - 1 && headroom_upto(s, k - 1) == (if s.capacity.0[d] >= s.load.0[d] {
                    s.capacity.0[d] - s.load.0[d]
                } else {
                    0
                });
            if r >= headroom_upto(s, k - 1) {
                assert(0 <= d0 < k);
            }
        }
        assert(headroom_upto(s, k) == (if r < headroom_upto(s, k - 1) { r } else { headroom_upto(s, k - 1) }));
    }
}

/// The headroom of a machine is its least per-dimension room (saturating
/// `capacity − load`): no more than the room in any dimension, and equal
/// to the room in some dimension; with no dimensions it is `u64::MAX`.
pub proof fn law_headroom_is_least_room<const N: usize>(s: MachineSpec<N>)
    ensures
        forall|d: int|
            0 <= d < N ==> headroom(s) <= (if s.capacity.0[d] >= s.load.0[d] {
                s.capacity.0[d] - s.load.0[d]
            } else {
                0
            }),
        N > 0 ==> exists|d: int|
            0 <= d < N && headroom(s) == (if s.capacity.0[d] >= s.load.0[d] {
                s.capacity.0[d] - s.load.0[d]
            } else {
                0
            }),
        N == 0 ==> headroom(s) == u64::MAX,
{
    lemma_headroom_upto(s, N as int);
}

} // verus!
