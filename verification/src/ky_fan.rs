//! The Ky Fan k-norm gauges over exact utilization.
//!
//! `SumTopK<k>` is the sum of the `k` largest per-machine worst-dimension
//! utilizations. Since utilizations are non-negative, it is at most `τ`
//! exactly when any `k` distinct machines have utilizations summing to at
//! most `τ`; that is the bound stated here, over exact fractions.

use vstd::prelude::*;

use crate::laws::{law_hot_to_cold_is_robin_hood, sound_step};
use crate::load::{mass_le, MachineId, MachineSpec, Mass};
use crate::move_kind::{dim_pigou_dalton, hot_to_cold_admissible, removed, transferred};
use crate::util::{
    frac_add, frac_le, frac_ok, lemma_frac_add_comm_assoc, lemma_frac_add_mono, lemma_frac_add_ok,
    lemma_frac_le_total, lemma_frac_le_trans,
};

verus! {

/// Sum of the worst-dimension utilizations of the machines `ids` of `f`.
pub open spec fn util_sum<const N: usize>(
    f: Map<MachineId, MachineSpec<N>>,
    ids: Seq<MachineId>,
) -> (int, int)
    decreases ids.len(),
{
    if ids.len() == 0 {
        (0, 1)
    } else {
        frac_add(util_sum(f, ids.drop_last()), f[ids.last()].worst_frac())
    }
}

/// `ids` names at most `k` distinct machines of `f`.
pub open spec fn is_selection<const N: usize>(
    f: Map<MachineId, MachineSpec<N>>,
    ids: Seq<MachineId>,
    k: int,
) -> bool {
    &&& ids.len() <= k
    &&& ids.no_duplicates()
    &&& forall|i: int| 0 <= i < ids.len() ==> f.contains_key(#[trigger] ids[i])
}

/// The Ky Fan k-norm gauge `SumTopK<k>` of `f` is at most `tn / td`: any
/// `k` distinct machines have worst-dimension utilizations summing to at
/// most the bound.
pub open spec fn within_top_k_bound<const N: usize>(
    f: Map<MachineId, MachineSpec<N>>,
    k: int,
    tn: int,
    td: int,
) -> bool {
    forall|ids: Seq<MachineId>|
        is_selection(f, ids, k) ==> frac_le(#[trigger] util_sum(f, ids), (tn, td))
}

proof fn lemma_util_sum_ok<const N: usize>(f: Map<MachineId, MachineSpec<N>>, ids: Seq<MachineId>)
    ensures
        frac_ok(util_sum(f, ids)),
    decreases ids.len(),
{
    if ids.len() > 0 {
        lemma_util_sum_ok(f, ids.drop_last());
        f[ids.last()].lemma_worst_frac();
        lemma_frac_add_ok(util_sum(f, ids.drop_last()), f[ids.last()].worst_frac());
    }
}

/// Position by position no more utilized, so no larger a sum.
proof fn lemma_util_sum_mono<const N: usize>(
    g: Map<MachineId, MachineSpec<N>>,
    a: Seq<MachineId>,
    f: Map<MachineId, MachineSpec<N>>,
    b: Seq<MachineId>,
)
    requires
        a.len() == b.len(),
        forall|i: int|
            0 <= i < a.len() ==> frac_le(#[trigger] g[a[i]].worst_frac(), f[b[i]].worst_frac()),
    ensures
        frac_le(util_sum(g, a), util_sum(f, b)),
    decreases a.len(),
{
    if a.len() == 0 {
        lemma_frac_le_total((0, 1), (0, 1));
    } else {
        let a2 = a.drop_last();
        let b2 = b.drop_last();
        assert forall|i: int| 0 <= i < a2.len() implies frac_le(
            #[trigger] g[a2[i]].worst_frac(),
            f[b2[i]].worst_frac(),
        ) by {
            assert(a2[i] == a[i] && b2[i] == b[i]);
        }
        lemma_util_sum_mono(g, a2, f, b2);
        lemma_util_sum_ok(g, a2);
        lemma_util_sum_ok(f, b2);
        g[a.last()].lemma_worst_frac();
        f[b.last()].lemma_worst_frac();
        assert(frac_le(g[a[a.len() - 1]].worst_frac(), f[b[b.len() - 1]].worst_frac()));
        lemma_frac_add_mono(
            util_sum(g, a2),
            g[a.last()].worst_frac(),
            util_sum(f, b2),
            f[b.last()].worst_frac(),
        );
    }
}

/// Machines on which `f` and `g` agree contribute the same sum.
proof fn lemma_util_sum_frame<const N: usize>(
    f: Map<MachineId, MachineSpec<N>>,
    g: Map<MachineId, MachineSpec<N>>,
    ids: Seq<MachineId>,
)
    requires
        forall|i: int| 0 <= i < ids.len() ==> f[#[trigger] ids[i]] == g[ids[i]],
    ensures
        util_sum(f, ids) == util_sum(g, ids),
    decreases ids.len(),
{
    if ids.len() > 0 {
        let l = ids.drop_last();
        assert forall|i: int| 0 <= i < l.len() implies f[#[trigger] l[i]] == g[l[i]] by {
            assert(l[i] == ids[i]);
        }
        lemma_util_sum_frame(f, g, l);
        assert(f[ids[ids.len() - 1]] == g[ids[ids.len() - 1]]);
    }
}

/// The sum does not depend on where a machine stands in the selection.
proof fn lemma_util_sum_remove<const N: usize>(
    f: Map<MachineId, MachineSpec<N>>,
    ids: Seq<MachineId>,
    i: int,
)
    requires
        0 <= i < ids.len(),
    ensures
        util_sum(f, ids) == frac_add(util_sum(f, ids.remove(i)), f[ids[i]].worst_frac()),
    decreases ids.len(),
{
    if i == ids.len() - 1 {
        assert(ids.remove(i) =~= ids.drop_last());
    } else {
        let l = ids.drop_last();
        lemma_util_sum_remove(f, l, i);
        assert(ids.remove(i).drop_last() =~= l.remove(i));
        assert(ids.remove(i).last() == ids.last());
        assert(l[i] == ids[i]);
        let x = util_sum(f, l.remove(i));
        let a = f[ids[i]].worst_frac();
        let b = f[ids.last()].worst_frac();
        lemma_util_sum_ok(f, l.remove(i));
        f[ids[i]].lemma_worst_frac();
        f[ids.last()].lemma_worst_frac();
        lemma_frac_add_comm_assoc(x, a, b);
        lemma_frac_add_comm_assoc(x, b, a);
        lemma_frac_add_comm_assoc(a, b, x);
    }
}

/// Lower loads on the same capacities: no higher worst-dimension utilization.
proof fn lemma_worst_frac_of_lower_load<const N: usize>(a: MachineSpec<N>, b: MachineSpec<N>)
    requires
        a.capacity == b.capacity,
        mass_le(a.load, b.load),
    ensures
        frac_le(a.worst_frac(), b.worst_frac()),
{
    a.lemma_worst_frac();
    b.lemma_worst_frac();
    if N == 0 {
        lemma_frac_le_total(a.worst_frac(), a.worst_frac());
    } else {
        let w = a.worst_dim();
        assert(a.load.0[w] <= b.load.0[w]);
        assert(frac_le(a.util_of(w), b.util_of(w))) by {
            let c = b.capacity.0[w] as int;
            if c > 0 {
                assert(a.load.0[w] * c <= b.load.0[w] * c) by (nonlinear_arith)
                    requires
                        a.load.0[w] <= b.load.0[w],
                        0 < c,
                ;
            }
        }
        assert(frac_le(b.util_of(w), b.worst_frac()));
        crate::util::lemma_frac_ok(a.load.0[w] as int, a.capacity.0[w] as int);
        crate::util::lemma_frac_ok(b.load.0[w] as int, b.capacity.0[w] as int);
        lemma_frac_le_trans(a.util_of(w), b.util_of(w), b.worst_frac());
    }
}

/// Mass removal keeps every Ky Fan k-norm bound: removal lowers each
/// machine's worst-dimension utilization or leaves it, so no `k` machines
/// sum to more than before.
pub proof fn law_remove_keeps_top_k_bound<const N: usize>(
    before: Map<MachineId, MachineSpec<N>>,
    after: Map<MachineId, MachineSpec<N>>,
    machine: MachineId,
    mass: Mass<N>,
    k: int,
    tn: int,
    td: int,
)
    requires
        0 <= tn,
        0 < td,
        before.contains_key(machine),
        mass_le(mass, before[machine].load),
        removed(before, after, machine, mass),
        within_top_k_bound(before, k, tn, td),
    ensures
        within_top_k_bound(after, k, tn, td),
{
    assert forall|ids: Seq<MachineId>| is_selection(after, ids, k) implies frac_le(
        #[trigger] util_sum(after, ids),
        (tn, td),
    ) by {
        assert forall|i: int| 0 <= i < ids.len() implies frac_le(
            #[trigger] after[ids[i]].worst_frac(),
            before[ids[i]].worst_frac(),
        ) by {
            let m = ids[i];
            assert(before.contains_key(m));
            if m == machine {
                assert forall|d: int| 0 <= d < N implies #[trigger] after[m].load.0[d]
                    <= before[m].load.0[d] by {
                    assert(after[m].load.0[d] == before[m].load.0[d] - mass.0[d]);
                }
                lemma_worst_frac_of_lower_load(after[m], before[m]);
            } else {
                before[m].lemma_worst_frac();
                lemma_frac_le_total(before[m].worst_frac(), before[m].worst_frac());
            }
        }
        lemma_util_sum_mono(after, ids, before, ids);
        assert(is_selection(before, ids, k));
        assert(frac_le(util_sum(before, ids), (tn, td)));
        lemma_util_sum_ok(after, ids);
        lemma_util_sum_ok(before, ids);
        lemma_frac_le_trans(util_sum(after, ids), util_sum(before, ids), (tn, td));
    }
}

/// For one-dimensional load, an admissible `HotToCold` keeps every Ky Fan
/// k-norm bound: it is a Robin Hood transfer, so any `k` machines sum to no
/// more than some `k` machines did before.
pub proof fn law_hot_to_cold_keeps_top_k_bound(
    before: Map<MachineId, MachineSpec<1>>,
    after: Map<MachineId, MachineSpec<1>>,
    source: MachineId,
    destination: MachineId,
    mass: Mass<1>,
    k: int,
    tn: int,
    td: int,
)
    requires
        0 <= tn,
        0 < td,
        hot_to_cold_admissible(before, source, destination, mass),
        transferred(before, after, source, destination, mass),
        within_top_k_bound(before, k, tn, td),
    ensures
        within_top_k_bound(after, k, tn, td),
{
    let s0 = before[source];
    let d0 = before[destination];
    let s1 = after[source];
    let d1 = after[destination];
    assert(mass.0[0] > 0);
    law_hot_to_cold_is_robin_hood(before, after, source, destination, mass, 0);
    assert(dim_pigou_dalton(s0, d0, mass.0[0] as int, 0));
    let cs = s0.capacity.0[0] as int;
    let cd = d0.capacity.0[0] as int;
    assert(s1.capacity.0[0] == cs && d1.capacity.0[0] == cd);
    assert(s0.worst_frac() == s0.util_of(0) && d0.worst_frac() == d0.util_of(0));
    assert(s1.worst_frac() == s1.util_of(0) && d1.worst_frac() == d1.util_of(0));
    // the pair's sum does not grow
    let ls1 = s1.load.0[0] as int;
    let ld1 = d1.load.0[0] as int;
    let ls0 = s0.load.0[0] as int;
    let ld0 = d0.load.0[0] as int;
    assert(frac_le(frac_add(s1.worst_frac(), d1.worst_frac()), frac_add(s0.worst_frac(), d0.worst_frac()))) by {
        assert(cs * cd > 0) by (nonlinear_arith)
            requires
                0 < cs,
                0 < cd,
        ;
        assert((ls1 * cd + ld1 * cs) * (cs * cd) <= (ls0 * cd + ld0 * cs) * (cs * cd)) by (nonlinear_arith)
            requires
                ls1 * cd + ld1 * cs <= ls0 * cd + ld0 * cs,
                cs * cd > 0,
        ;
    }
    s0.lemma_worst_frac();
    d0.lemma_worst_frac();
    s1.lemma_worst_frac();
    d1.lemma_worst_frac();
    assert forall|ids: Seq<MachineId>| is_selection(after, ids, k) implies frac_le(
        #[trigger] util_sum(after, ids),
        (tn, td),
    ) by {
        lemma_util_sum_ok(after, ids);
        if !ids.contains(destination) {
            // position by position against the same machines before
            assert forall|i: int| 0 <= i < ids.len() implies frac_le(
                #[trigger] after[ids[i]].worst_frac(),
                before[ids[i]].worst_frac(),
            ) by {
                let m = ids[i];
                assert(before.contains_key(m));
                before[m].lemma_worst_frac();
                if m != source {
                    assert(m != destination);
                    lemma_frac_le_total(before[m].worst_frac(), before[m].worst_frac());
                }
            }
            lemma_util_sum_mono(after, ids, before, ids);
            assert(is_selection(before, ids, k));
            lemma_util_sum_ok(before, ids);
            lemma_frac_le_trans(util_sum(after, ids), util_sum(before, ids), (tn, td));
        } else if !ids.contains(source) {
            // the destination's slot is matched by the source before
            let j = choose|j: int| 0 <= j < ids.len() && ids[j] == destination;
            let sel = ids.update(j, source);
            assert forall|i: int| 0 <= i < ids.len() implies frac_le(
                #[trigger] after[ids[i]].worst_frac(),
                before[sel[i]].worst_frac(),
            ) by {
                let m = ids[i];
                assert(before.contains_key(m));
                before[m].lemma_worst_frac();
                if i != j {
                    assert(m != destination);
                    assert(m != source);
                    assert(sel[i] == m);
                    lemma_frac_le_total(before[m].worst_frac(), before[m].worst_frac());
                }
            }
            lemma_util_sum_mono(after, ids, before, sel);
            assert(is_selection(before, sel, k)) by {
                assert forall|a: int, b: int| 0 <= a < sel.len() && 0 <= b < sel.len() && a != b implies sel[a] != sel[b] by {
                    if a != j && b != j {
                        assert(ids[a] != ids[b]);
                    } else if a == j {
                        assert(sel[b] == ids[b]);
                    } else {
                        assert(sel[a] == ids[a]);
                    }
                }
            }
            lemma_util_sum_ok(before, sel);
            lemma_frac_le_trans(util_sum(after, ids), util_sum(before, sel), (tn, td));
        } else {
            // both ends are selected: compare the pair's sum
            let i = choose|i: int| 0 <= i < ids.len() && ids[i] == source;
            let j = choose|j: int| 0 <= j < ids.len() && ids[j] == destination;
            assert(i != j);
            let r = ids.remove(i);
            let jr = if j < i {
                j
            } else {
                j - 1
            };
            assert(r[jr] == destination);
            let r2 = r.remove(jr);
            assert forall|t: int| 0 <= t < r2.len() implies after[#[trigger] r2[t]] == before[r2[t]] by {
                let t1 = if t < jr {
                    t
                } else {
                    t + 1
                };
                assert(r2[t] == r[t1]);
                let t0 = if t1 < i {
                    t1
                } else {
                    t1 + 1
                };
                assert(r[t1] == ids[t0]);
                assert(t0 != i && t0 != j);
                assert(ids[t0] != source && ids[t0] != destination);
                assert(before.contains_key(ids[t0]));
            }
            lemma_util_sum_frame(after, before, r2);
            lemma_util_sum_remove(after, ids, i);
            lemma_util_sum_remove(after, r, jr);
            lemma_util_sum_remove(before, ids, i);
            lemma_util_sum_remove(before, r, jr);
            let x = util_sum(before, r2);
            lemma_util_sum_ok(before, r2);
            lemma_frac_add_comm_assoc(x, d1.worst_frac(), s1.worst_frac());
            lemma_frac_add_comm_assoc(x, d0.worst_frac(), s0.worst_frac());
            lemma_frac_add_comm_assoc(d1.worst_frac(), s1.worst_frac(), x);
            lemma_frac_add_comm_assoc(d0.worst_frac(), s0.worst_frac(), x);
            lemma_frac_le_total(x, x);
            lemma_frac_add_ok(s1.worst_frac(), d1.worst_frac());
            lemma_frac_add_ok(s0.worst_frac(), d0.worst_frac());
            lemma_frac_add_mono(
                x,
                frac_add(s1.worst_frac(), d1.worst_frac()),
                x,
                frac_add(s0.worst_frac(), d0.worst_frac()),
            );
            assert(frac_le(util_sum(after, ids), util_sum(before, ids)));
            assert(is_selection(before, ids, k));
            lemma_util_sum_ok(before, ids);
            lemma_frac_le_trans(util_sum(after, ids), util_sum(before, ids), (tn, td));
        }
    }
}


/// `Linfty = SumTopK<1>`: the Ky Fan 1-norm bound is the worst-machine,
/// worst-dimension bound of [`crate::laws::within_bound`].
pub proof fn law_top_one_is_worst_bound<const N: usize>(
    f: Map<MachineId, MachineSpec<N>>,
    tn: int,
    td: int,
)
    requires
        0 <= tn,
        0 < td,
    ensures
        within_top_k_bound(f, 1, tn, td) <==> crate::laws::within_bound(f, tn, td),
{
    assert forall|m: MachineId| #[trigger] f.contains_key(m) implies util_sum(f, seq![m])
        == f[m].worst_frac() by {
        let e = Seq::<MachineId>::empty();
        assert(seq![m].drop_last() =~= e);
        assert(seq![m].last() == m);
        assert(util_sum(f, e) == (0int, 1int));
        f[m].lemma_worst_frac();
        let w = f[m].worst_frac();
        assert(frac_add((0, 1), w) == w) by (nonlinear_arith)
            requires
                frac_ok(w),
        ;
    }
    if within_top_k_bound(f, 1, tn, td) {
        assert forall|m: MachineId, d: int| f.contains_key(m) && 0 <= d < N implies frac_le(
            #[trigger] f[m].util_of(d),
            (tn, td),
        ) by {
            let ids = seq![m];
            assert(is_selection(f, ids, 1)) by {
                assert(ids[0] == m);
            }
            assert(frac_le(util_sum(f, ids), (tn, td)));
            f[m].lemma_worst_frac();
            crate::util::lemma_frac_ok(f[m].load.0[d] as int, f[m].capacity.0[d] as int);
            lemma_frac_le_trans(f[m].util_of(d), f[m].worst_frac(), (tn, td));
        }
    }
    if crate::laws::within_bound(f, tn, td) {
        assert forall|ids: Seq<MachineId>| is_selection(f, ids, 1) implies frac_le(
            #[trigger] util_sum(f, ids),
            (tn, td),
        ) by {
            if ids.len() == 0 {
                assert(util_sum(f, ids) == (0int, 1int));
                assert(0 * td <= tn * 1) by (nonlinear_arith)
                    requires
                        0 <= tn,
                        0 < td,
                ;
                assert(frac_le((0int, 1int), (tn, td)));
            } else {
                let m = ids[0];
                assert(f.contains_key(m));
                assert(ids =~= seq![m]);
                assert(util_sum(f, ids) == f[m].worst_frac());
                f[m].lemma_worst_frac();
                if N > 0 {
                    let w = f[m].worst_dim();
                    assert(0 <= w < N);
                    assert(frac_le(f[m].util_of(w), (tn, td)));
                    assert(f[m].worst_frac() == f[m].util_of(w));
                    assert(frac_le(f[m].worst_frac(), (tn, td)));
                } else {
                    assert(f[m].worst_frac() == (0int, 1int));
                    assert(frac_le(f[m].worst_frac(), (tn, td)));
                }
                assert(frac_le(util_sum(f, ids), (tn, td)));
            }
        }
    }
}


/// The composition guarantee for the Ky Fan gauges, one-dimensional load: a
/// chain of admissible `HotToCold` transfers and removals keeps every
/// `SumTopK<k>` bound the first fleet met.
pub proof fn law_sound_chain_keeps_top_k_bound(
    fs: Seq<Map<MachineId, MachineSpec<1>>>,
    k: int,
    tn: int,
    td: int,
)
    requires
        0 <= tn,
        0 < td,
        fs.len() > 0,
        forall|i: int| 0 <= i < fs.len() - 1 ==> sound_step(#[trigger] fs[i], fs[i + 1]),
        within_top_k_bound(fs[0], k, tn, td),
    ensures
        within_top_k_bound(fs.last(), k, tn, td),
    decreases fs.len(),
{
    if fs.len() > 1 {
        let p = fs.drop_last();
        assert forall|i: int| 0 <= i < p.len() - 1 implies sound_step(#[trigger] p[i], p[i + 1]) by {
            assert(p[i] == fs[i] && p[i + 1] == fs[i + 1]);
        }
        law_sound_chain_keeps_top_k_bound(p, k, tn, td);
        let a = fs[fs.len() - 2];
        let b = fs.last();
        assert(sound_step(a, b));
        if exists|s: MachineId, d: MachineId, m: Mass<1>|
            #[trigger] hot_to_cold_admissible(a, s, d, m) && transferred(a, b, s, d, m) {
            let (s, d, m) = choose|s: MachineId, d: MachineId, m: Mass<1>|
                #[trigger] hot_to_cold_admissible(a, s, d, m) && transferred(a, b, s, d, m);
            law_hot_to_cold_keeps_top_k_bound(a, b, s, d, m, k, tn, td);
        } else {
            let (x, m) = choose|x: MachineId, m: Mass<1>|
                a.contains_key(x) && mass_le(m, a[x].load) && #[trigger] removed(a, b, x, m);
            law_remove_keeps_top_k_bound(a, b, x, m, k, tn, td);
        }
    }
}

} // verus!
