//! The integer parts of the cluster digital twin: the seeded workload
//! generator, departures for the churn benchmark, and the outcome counters.
//!
//! Demands are drawn from a seeded xorshift64 stream: dimension `d` of a
//! demand takes the next word modulo `max_mass[d] + 1`. Same seed, same
//! stream.

use vstd::prelude::*;
use crate::load::{Fleet, MachineId, MachineSpec, Mass};
use crate::rng::{xorshift_iter, xorshift_step, Xorshift64};

verus! {

/// `k`-step composition of the generator splits at any point.
pub proof fn lemma_xorshift_iter_add(s: u64, a: nat, b: nat)
    ensures
        xorshift_iter(s, a + b) == xorshift_iter(xorshift_iter(s, a), b),
    decreases b,
{
    if b > 0 {
        lemma_xorshift_iter_add(s, a, (b - 1) as nat);
        assert((a + b - 1) as nat == a + (b - 1) as nat);
    }
}

/// `m` is the demand drawn from generator state `s`: dimension `d` is the
/// `(d + 1)`-th next word modulo `max[d] + 1`.
pub open spec fn is_draw(m: Mass<4>, s: u64, max: [u64; 4]) -> bool {
    forall|d: int|
        0 <= d < 4 ==> #[trigger] m.0[d] == xorshift_iter(s, (d + 1) as nat) % (max[d] + 1) as u64
}

/// Same seed, same stream: a demand is determined by the generator state and
/// the maxima it is drawn from.
pub proof fn law_draw_is_determined(a: Mass<4>, b: Mass<4>, s: u64, max: [u64; 4])
    requires
        is_draw(a, s, max),
        is_draw(b, s, max),
    ensures
        a == b,
{
    assert(a.0 =~= b.0) by {
        assert forall|d: int| 0 <= d < 4 implies a.0[d] == b.0[d] by {
            assert(a.0[d] == xorshift_iter(s, (d + 1) as nat) % (max[d] + 1) as u64);
            assert(b.0[d] == xorshift_iter(s, (d + 1) as nat) % (max[d] + 1) as u64);
        }
    }
}

/// Every per-dimension maximum leaves room for the `+ 1` of the draw.
pub open spec fn max_ok(max: [u64; 4]) -> bool {
    forall|d: int| 0 <= d < 4 ==> #[trigger] max[d] < u64::MAX
}

/// Draw a per-dimension demand uniformly from `0..=max_mass[d]`.
pub fn draw_mass(rng: &mut Xorshift64, max_mass: &[u64; 4]) -> (m: Mass<4>)
    requires
        max_ok(*max_mass),
    ensures
        is_draw(m, old(rng)@, *max_mass),
        final(rng)@ == xorshift_iter(old(rng)@, 4),
{
    let mut m = [0u64; 4];
    let mut d: usize = 0;
    let ghost s0 = rng@;
    while d < 4
        invariant
            d <= 4,
            max_ok(*max_mass),
            rng@ == xorshift_iter(s0, d as nat),
            forall|e: int|
                0 <= e < d ==> #[trigger] m[e] == xorshift_iter(s0, (e + 1) as nat) % (max_mass[e]
                    + 1) as u64,
        decreases 4 - d,
    {
        let x = rng.next();
        assert(max_mass[d as int] < u64::MAX);
        m[d] = x % (max_mass[d] + 1);
        d += 1;
    }
    Mass(m)
}

/// Seeded generator of `Mass<4>` workload demands.
pub struct WorkloadGen {
    rng: Xorshift64,
    max_mass: [u64; 4],
}

impl WorkloadGen {
    /// The generator state.
    pub closed spec fn state(&self) -> u64 {
        self.rng@
    }

    /// The per-dimension maximum demand.
    pub closed spec fn max(&self) -> [u64; 4] {
        self.max_mass
    }

    /// Construct from a seed (a zero seed becomes 1) and per-dimension maxima.
    pub fn new(seed: u64, max_mass: [u64; 4]) -> (g: Self)
        ensures
            g.state() == (if seed == 0 {
                1
            } else {
                seed
            }),
            g.max() == max_mass,
    {
        WorkloadGen { rng: Xorshift64::new(seed), max_mass }
    }

    /// Draw the next demand vector.
    pub fn next(&mut self) -> (m: Mass<4>)
        requires
            max_ok(old(self).max()),
        ensures
            is_draw(m, old(self).state(), old(self).max()),
            final(self).state() == xorshift_iter(old(self).state(), 4),
            final(self).max() == old(self).max(),
    {
        draw_mass(&mut self.rng, &self.max_mass)
    }

    /// Draw `count` demands: the `k`-th is drawn from the state reached after
    /// `4k` words.
    pub fn take(&mut self, count: usize) -> (v: Vec<Mass<4>>)
        requires
            max_ok(old(self).max()),
        ensures
            v@.len() == count,
            forall|k: int|
                0 <= k < count ==> is_draw(
                    #[trigger] v@[k],
                    xorshift_iter(old(self).state(), (4 * k) as nat),
                    old(self).max(),
                ),
            final(self).state() == xorshift_iter(old(self).state(), (4 * count) as nat),
            final(self).max() == old(self).max(),
    {
        let mut v: Vec<Mass<4>> = Vec::new();
        let ghost s0 = self.state();
        let mut k: usize = 0;
        while k < count
            invariant
                k <= count,
                v@.len() == k,
                self.max() == old(self).max(),
                max_ok(self.max()),
                s0 == old(self).state(),
                self.state() == xorshift_iter(s0, (4 * k) as nat),
                forall|j: int|
                    0 <= j < k ==> is_draw(#[trigger] v@[j], xorshift_iter(s0, (4 * j) as nat), self.max()),
            decreases count - k,
        {
            let m = self.next();
            proof {
                lemma_xorshift_iter_add(s0, (4 * k) as nat, 4);
                assert((4 * k) as nat + 4 == (4 * (k + 1)) as nat);
            }
            v.push(m);
            k += 1;
        }
        v
    }
}

/// Outcome counters over a simulation run.
#[derive(Clone, Copy, Debug, Default, PartialEq, Eq)]
pub struct SimStats {
    /// Placements that passed both the budget and the load-gauge recheck.
    pub placed: u64,
    /// Placements rejected because projected fleet power exceeded the budget.
    pub power_rejected: u64,
    /// Placements rejected because the projected load gauge exceeded τ.
    pub load_rejected: u64,
    /// Placements skipped because the move was malformed (unknown machine).
    pub malformed: u64,
    /// Typed-pure moves applied (migrations / removals).
    pub typed_pure_applied: u64,
}

/// Some dimension of `m` is non-zero.
pub open spec fn any_positive(m: Mass<4>) -> bool {
    exists|d: int| 0 <= d < 4 && #[trigger] m.0[d] > 0
}

/// The removal drawn against `load` from state `s`: each dimension is the
/// draw capped at the current load.
pub open spec fn capped_draw(load: Mass<4>, s: u64, max: [u64; 4]) -> Mass<4> {
    let c = |d: int|
        {
            let x = xorshift_iter(s, (d + 1) as nat) % (max[d] + 1) as u64;
            if x < load.0[d] {
                x
            } else {
                load.0[d]
            }
        };
    Mass([c(0), c(1), c(2), c(3)])
}

/// The departure scan from offset `off` of `m` machines starting at `start`
/// with generator state `s`: the slot `(start + off) % m` names machine id
/// `slot + 1`; a known machine with some load gets a capped draw (consuming
/// four words), which is the departure if any dimension is non-zero.
pub open spec fn scan_departure(
    f: Map<MachineId, MachineSpec<4>>,
    m: int,
    start: int,
    off: int,
    s: u64,
    max: [u64; 4],
) -> (Option<(MachineId, Mass<4>)>, u64)
    decreases m - off,
{
    if off >= m || m <= 0 {
        (None, s)
    } else {
        let id = MachineId((((start + off) % m) + 1) as u64);
        if f.contains_key(id) && any_positive(f[id].load) {
            let rm = capped_draw(f[id].load, s, max);
            let s2 = xorshift_iter(s, 4);
            if any_positive(rm) {
                (Some((id, rm)), s2)
            } else {
                scan_departure(f, m, start, off + 1, s2, max)
            }
        } else {
            scan_departure(f, m, start, off + 1, s, max)
        }
    }
}

/// Pick a departure for the churn driver: with `m` machines, draw a start
/// slot `next % m`, then scan the slots in order (machine ids `1..=m`),
/// taking the first known machine with load whose capped draw is non-zero.
/// `None` on an empty fleet or when the scan finds nothing. The removal never
/// exceeds the machine's load.
pub fn pick_departure(fleet: &Fleet<4>, rng: &mut Xorshift64, max_mass: &[u64; 4]) -> (r: Option<
    (MachineId, Mass<4>),
>)
    requires
        fleet.wf(),
        max_ok(*max_mass),
    ensures
        fleet.entries().len() == 0 ==> r is None && final(rng)@ == old(rng)@,
        fleet.entries().len() > 0 ==> {
            let m = fleet.entries().len() as int;
            let x = xorshift_step(old(rng)@);
            let start = ((x % m as u64) as usize) as int;
            (r, final(rng)@) == scan_departure(fleet@, m, start, 0, x, *max_mass)
        },
        r matches Some((id, rm)) ==> fleet@.contains_key(id) && crate::load::mass_le(
            rm,
            fleet@[id].load,
        ) && any_positive(rm),
{
    let m = fleet.len();
    if m == 0 {
        return None;
    }
    let x = rng.next();
    let start = (x % (m as u64)) as usize;
    let ghost mi = m as int;
    let ghost st = start as int;
    assert(xorshift_iter(x, 0) == x);
    let mut off: usize = 0;
    while off < m
        invariant
            fleet.wf(),
            m == fleet.entries().len(),
            m > 0,
            max_ok(*max_mass),
            start < m,
            st == start,
            mi == m,
            x == xorshift_step(old(rng)@),
            st == ((x % (mi as u64)) as usize) as int,
            off <= m,
            scan_departure(fleet@, mi, st, 0, x, *max_mass) == scan_departure(
                fleet@,
                mi,
                st,
                off as int,
                rng@,
                *max_mass,
            ),
        decreases m - off,
    {
        let slot: usize = if off < m - start {
            start + off
        } else {
            off - (m - start)
        };
        assert(slot as int == (st + off) % mi) by (nonlinear_arith)
            requires
                0 <= st < mi,
                0 <= off < mi,
                slot == (if off < mi - st {
                    st + off
                } else {
                    off - (mi - st)
                }),
        ;
        let id = MachineId(slot as u64 + 1);
        match fleet.load(id) {
            Some(load) => {
                if load.0[0] > 0 || load.0[1] > 0 || load.0[2] > 0 || load.0[3] > 0 {
                    let ghost s_before = rng@;
                    let draw = draw_mass(rng, max_mass);
                    let mut rm = [0u64; 4];
                    let mut d: usize = 0;
                    while d < 4
                        invariant
                            d <= 4,
                            forall|e: int|
                                0 <= e < d ==> #[trigger] rm[e] == (if draw.0[e] < load.0[e] {
                                    draw.0[e]
                                } else {
                                    load.0[e]
                                }),
                        decreases 4 - d,
                    {
                        rm[d] = if draw.0[d] < load.0[d] {
                            draw.0[d]
                        } else {
                            load.0[d]
                        };
                        d += 1;
                    }
                    proof {
                        let cd = capped_draw(load, s_before, *max_mass);
                        assert(rm =~= cd.0);
                        assert(any_positive(load)) by {
                            if load.0[0] > 0 {
                                assert(load.0[0] > 0);
                            } else if load.0[1] > 0 {
                                assert(load.0[1] > 0);
                            } else if load.0[2] > 0 {
                                assert(load.0[2] > 0);
                            } else {
                                assert(load.0[3] > 0);
                            }
                        }
                    }
                    if rm[0] > 0 || rm[1] > 0 || rm[2] > 0 || rm[3] > 0 {
                        proof {
                            assert(any_positive(Mass(rm))) by {
                                if rm[0] > 0 {
                                    assert(Mass(rm).0[0] > 0);
                                } else if rm[1] > 0 {
                                    assert(Mass(rm).0[1] > 0);
                                } else if rm[2] > 0 {
                                    assert(Mass(rm).0[2] > 0);
                                } else {
                                    assert(Mass(rm).0[3] > 0);
                                }
                            }
                        }
                        proof {
                            let cd = capped_draw(load, s_before, *max_mass);
                            assert(Mass(rm) == cd);
                            assert(id == MachineId((((st + off) % mi) + 1) as u64));
                            assert(scan_departure(fleet@, mi, st, off as int, s_before, *max_mass)
                                == (Some((id, cd)), rng@));
                        }
                        return Some((id, Mass(rm)));
                    }
                    proof {
                        assert(!any_positive(Mass(rm)));
                    }
                }
            },
            None => {},
        }
        off += 1;
    }
    None
}

} // verus!
