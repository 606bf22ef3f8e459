//! The integer decision of the max-min-fair rebalancer.
//!
//! The planner picks the hottest and the coolest machine (worst-dimension
//! utilization, first among equals), and, once the utilization gap is worth
//! shedding, decides the transfer in the source's worst dimension: blocked
//! by the capacity guard, already balanced in that dimension, a mass that
//! rounds to zero, or a `HotToCold` of half the gap (at least one unit,
//! capped by the source's load). Every transfer this emits is admissible.

use vstd::prelude::*;
use crate::load::{lemma_worst_le_total, lemma_worst_le_trans, worst_le, worst_le_exec, Fleet, MachineId, MachineSpec, Mass};
use crate::move_kind::{dim_pigou_dalton, hot_to_cold_admissible, HotToCold};
use crate::planner::least_loaded::{first_least_loaded, is_first_least_loaded};
use crate::planner::TypedMove;

verus! {

/// Outcome of the integer part of the per-pair policy.
#[derive(Clone, Copy, Debug, PartialEq, Eq)]
pub enum TransferVerdict {
    /// The capacity guard blocks a load-conserving transfer in `worst_d`
    /// (`cap_src > cap_dst`, or a zero capacity).
    GuardBlocked { worst_d: usize, cap_src: u64, cap_dst: u64 },
    /// In `worst_d` the source is already no more utilized than the destination.
    BalancedInDim { worst_d: usize },
    /// The halved-gap mass rounds to zero.
    MassZero { worst_d: usize },
    /// A `HotToCold` of `mass` in dimension `worst_d` is admissible.
    Emit { worst_d: usize, mass: u64 },
}

/// The per-pair transfer decision in the source's worst dimension `wd`:
/// with `gap = load_src · cap_dst − load_dst · cap_src`, the mass is
/// `max(gap / 2, 1) / cap_src` (as a word), capped by the source's load.
pub open spec fn spec_pair_transfer<const N: usize>(
    src: MachineSpec<N>,
    dst: MachineSpec<N>,
) -> TransferVerdict {
    let wd = src.worst_dim();
    let cs = src.capacity.0[wd];
    let cd = dst.capacity.0[wd];
    let ls = src.load.0[wd];
    let ld = dst.load.0[wd];
    if cs == 0 || cd == 0 || cs > cd {
        TransferVerdict::GuardBlocked { worst_d: wd as usize, cap_src: cs, cap_dst: cd }
    } else if ls * cd <= ld * cs {
        TransferVerdict::BalancedInDim { worst_d: wd as usize }
    } else {
        let gap = ls * cd - ld * cs;
        let chosen = if gap / 2 > 1 {
            gap / 2
        } else {
            1
        };
        let q = ((chosen / (cs as int)) as u64) as int;
        let m = if q < ls {
            q
        } else {
            ls as int
        };
        if m == 0 {
            TransferVerdict::MassZero { worst_d: wd as usize }
        } else {
            TransferVerdict::Emit { worst_d: wd as usize, mass: m as u64 }
        }
    }
}

/// Decides [`spec_pair_transfer`] with 128-bit cross products.
pub fn pair_transfer<const N: usize>(src: &MachineSpec<N>, dst: &MachineSpec<N>) -> (v:
    TransferVerdict)
    requires
        N > 0,
    ensures
        v == spec_pair_transfer(*src, *dst),
{
    proof {
        src.lemma_worst_frac();
    }
    let wd = src.worst_dim_exec();
    let cs = src.capacity.0[wd];
    let cd = dst.capacity.0[wd];
    if cs == 0 || cd == 0 || cs > cd {
        return TransferVerdict::GuardBlocked { worst_d: wd, cap_src: cs, cap_dst: cd };
    }
    let ls = src.load.0[wd];
    let ld = dst.load.0[wd];
    assert(ls as u128 * cd as u128 <= u64::MAX * u64::MAX) by (nonlinear_arith)
        requires
            ls <= u64::MAX,
            cd <= u64::MAX,
    ;
    assert(ld as u128 * cs as u128 <= u64::MAX * u64::MAX) by (nonlinear_arith)
        requires
            ld <= u64::MAX,
            cs <= u64::MAX,
    ;
    let a: u128 = ls as u128 * cd as u128;
    let b: u128 = ld as u128 * cs as u128;
    if a <= b {
        return TransferVerdict::BalancedInDim { worst_d: wd };
    }
    let gap: u128 = a - b;
    let half: u128 = gap / 2;
    let chosen: u128 = if half > 1 { half } else { 1 };
    let q: u64 = (chosen / cs as u128) as u64;
    let m: u64 = if q < ls { q } else { ls };
    if m == 0 {
        TransferVerdict::MassZero { worst_d: wd }
    } else {
        TransferVerdict::Emit { worst_d: wd, mass: m }
    }
}

/// `x` carries `m` in dimension `wd` and nothing elsewhere.
pub open spec fn is_unit_mass<const N: usize>(x: Mass<N>, wd: int, m: int) -> bool {
    forall|d: int| 0 <= d < N ==> #[trigger] x.0[d] == (if d == wd {
        m
    } else {
        0
    })
}

/// Every transfer the policy emits is an admissible `HotToCold`: the
/// planner's moves are typed-pure by construction, never by luck.
pub proof fn law_emit_is_admissible<const N: usize>(
    f: Map<MachineId, MachineSpec<N>>,
    src: MachineId,
    dst: MachineId,
    wd: usize,
    m: u64,
    x: Mass<N>,
)
    requires
        N > 0,
        f.contains_key(src),
        f.contains_key(dst),
        src != dst,
        spec_pair_transfer(f[src], f[dst]) == (TransferVerdict::Emit { worst_d: wd, mass: m }),
        is_unit_mass(x, wd as int, m as int),
    ensures
        hot_to_cold_admissible(f, src, dst, x),
{
    let s = f[src];
    let t = f[dst];
    s.lemma_worst_frac();
    let w = s.worst_dim();
    assert(w == wd);
    let cs = s.capacity.0[w] as int;
    let cd = t.capacity.0[w] as int;
    let ls = s.load.0[w] as int;
    let ld = t.load.0[w] as int;
    let gap = ls * cd - ld * cs;
    let chosen = if gap / 2 > 1 {
        gap / 2
    } else {
        1
    };
    assert(0 < chosen <= gap);
    let q = ((chosen / cs) as u64) as int;
    assert(m * cs <= gap) by {
        if chosen / cs <= u64::MAX {
            assert(q == chosen / cs);
            assert(m <= chosen / cs);
            assert(m * cs <= (chosen / cs) * cs) by (nonlinear_arith)
                requires
                    m <= chosen / cs,
                    0 < cs,
            ;
            assert((chosen / cs) * cs <= chosen) by (nonlinear_arith)
                requires
                    0 < cs,
                    0 <= chosen,
            ;
        } else {
            assert(m <= ls);
            assert(ls < chosen / cs);
            assert(m * cs <= gap) by (nonlinear_arith)
                requires
                    m <= ls,
                    ls < chosen / cs,
                    0 < cs,
                    0 < chosen <= gap,
            {
                assert((ls + 1) * cs <= (chosen / cs) * cs);
                assert((chosen / cs) * cs <= chosen);
            }
        }
    }
    assert(x.0[w] == m);
    assert(!x.spec_is_zero());
    assert forall|d: int| 0 <= d < N implies #[trigger] dim_pigou_dalton(s, t, x.0[d] as int, d) by {
        if d != w {
            assert(x.0[d] == 0);
        }
    }
}

/// Build the unit transfer of `mass` in dimension `worst_d` and check it with
/// the `HotToCold` witness.
pub fn transfer_move<const N: usize>(
    fleet: &Fleet<N>,
    src: MachineId,
    dst: MachineId,
    worst_d: usize,
    mass: u64,
) -> (r: Option<TypedMove<N>>)
    requires
        fleet.wf(),
        worst_d < N,
    ensures
        r is Some <==> exists|x: Mass<N>|
            is_unit_mass(x, worst_d as int, mass as int) && #[trigger] hot_to_cold_admissible(
                fleet@,
                src,
                dst,
                x,
            ),
        r matches Some(mv) ==> mv matches TypedMove::HotToCold(h) && h.source == src
            && h.destination == dst && is_unit_mass(h.mass, worst_d as int, mass as int),
{
    let mut arr = [0u64; N];
    arr[worst_d] = mass;
    let x = Mass(arr);
    assert(is_unit_mass(x, worst_d as int, mass as int));
    match HotToCold::witness(src, dst, x, fleet) {
        Some(h) => Some(TypedMove::HotToCold(h)),
        None => {
            assert forall|y: Mass<N>| is_unit_mass(y, worst_d as int, mass as int) implies !hot_to_cold_admissible(
                fleet@,
                src,
                dst,
                y,
            ) by {
                assert(y.0 =~= x.0);
            }
            None
        },
    }
}

/// Entry `i` has the greatest worst-dimension utilization, and every earlier
/// entry has strictly less.
pub open spec fn is_first_most_loaded<const N: usize>(
    e: Seq<(MachineId, MachineSpec<N>)>,
    i: int,
) -> bool {
    &&& 0 <= i < e.len()
    &&& forall|j: int| 0 <= j < e.len() ==> worst_le(#[trigger] e[j].1, e[i].1)
    &&& forall|j: int| 0 <= j < i ==> !worst_le(e[i].1, #[trigger] e[j].1)
}

/// Index of the first entry of greatest worst-dimension utilization.
pub fn first_most_loaded<const N: usize>(e: &[(MachineId, MachineSpec<N>)]) -> (i: usize)
    requires
        e@.len() > 0,
    ensures
        is_first_most_loaded(e@, i as int),
{
    let mut best: usize = 0;
    let mut i: usize = 1;
    proof {
        lemma_worst_le_total(e@[0].1, e@[0].1);
    }
    while i < e.len()
        invariant
            1 <= i <= e@.len(),
            best < i,
            forall|j: int| 0 <= j < i ==> worst_le(#[trigger] e@[j].1, e@[best as int].1),
            forall|j: int| 0 <= j < best ==> !worst_le(e@[best as int].1, #[trigger] e@[j].1),
        decreases e@.len() - i,
    {
        if !worst_le_exec(&e[i].1, &e[best].1) {
            proof {
                let b = e@[best as int].1;
                let c = e@[i as int].1;
                lemma_worst_le_total(b, c);
                lemma_worst_le_total(c, c);
                assert forall|j: int| 0 <= j <= i implies worst_le(#[trigger] e@[j].1, c) by {
                    if j < i {
                        lemma_worst_le_trans(e@[j].1, b, c);
                    }
                }
                assert forall|j: int| 0 <= j < i implies !worst_le(c, #[trigger] e@[j].1) by {
                    if worst_le(c, e@[j].1) {
                        lemma_worst_le_trans(c, e@[j].1, b);
                    }
                }
            }
            best = i;
        }
        i += 1;
    }
    best
}

/// The hottest machine (first of greatest worst-dimension utilization) and
/// the coolest (first of least); `None` on an empty fleet.
pub fn hottest_and_coolest<const N: usize>(fleet: &Fleet<N>) -> (r: Option<(MachineId, MachineId)>)
    requires
        fleet.wf(),
    ensures
        r is None <==> fleet.entries().len() == 0,
        r matches Some((h, c)) ==> (exists|i: int|
            is_first_most_loaded(fleet.entries(), i) && #[trigger] fleet.entries()[i].0 == h) && (
        exists|j: int|
            is_first_least_loaded(fleet.entries(), j) && #[trigger] fleet.entries()[j].0 == c),
{
    let e = fleet.as_slice();
    if e.len() == 0 {
        return None;
    }
    let i = first_most_loaded(e);
    let j = first_least_loaded(e);
    Some((e[i].0, e[j].0))
}

} // verus!
