//! Laws of the move algebra over exact utilization.
//!
//! The safety bound `g(fleet) ≤ τ` is stated here for the worst-machine,
//! worst-dimension gauge over exact utilization: every dimension of every
//! machine has utilization at most `τ = tn / td`. The typed-pure moves that
//! are sound for it keep it without any recheck.

use vstd::prelude::*;
use crate::load::{mass_le, saturating_added, subtracted, MachineId, MachineSpec, Mass};
use crate::move_kind::{dim_pigou_dalton, hot_to_cold_admissible, removed, transferred};
use crate::util::{frac, frac_le};

verus! {

/// Every dimension of every machine of `f` has exact utilization at most
/// `tn / td` (the bound of the worst-machine, worst-dimension gauge).
pub open spec fn within_bound<const N: usize>(
    f: Map<MachineId, MachineSpec<N>>,
    tn: int,
    td: int,
) -> bool {
    forall|k: MachineId, d: int|
        f.contains_key(k) && 0 <= d < N ==> frac_le(#[trigger] f[k].util_of(d), (tn, td))
}

/// A smaller load on the same capacity keeps a utilization bound.
proof fn lemma_smaller_load_keeps_bound(x: int, y: int, c: int, tn: int, td: int)
    requires
        0 <= x <= y,
        0 <= c,
        0 <= tn,
        0 < td,
        frac_le(frac(y, c), (tn, td)),
    ensures
        frac_le(frac(x, c), (tn, td)),
{
    if c > 0 {
        assert(x * td <= tn * c) by (nonlinear_arith)
            requires
                x <= y,
                y * td <= tn * c,
                0 < td,
        ;
    }
}

/// The destination of an admissible transfer dimension ends no more
/// utilized than the source was: `(ld + m) / cd ≤ ls / cs ≤ τ`.
proof fn lemma_destination_bound(ls: int, cs: int, ld: int, cd: int, m: int, x: int, tn: int, td: int)
    requires
        0 < cs <= cd,
        0 <= ld,
        0 < m <= ls,
        m * cs <= ls * cd - ld * cs,
        0 <= x <= ld + m,
        0 <= tn,
        0 < td,
        ls * td <= tn * cs,
    ensures
        x * td <= tn * cd,
{
    assert(x * cs <= ls * cd) by (nonlinear_arith)
        requires
            x <= ld + m,
            m * cs <= ls * cd - ld * cs,
            0 < cs,
    ;
    assert(x * td <= tn * cd) by (nonlinear_arith)
        requires
            x * cs <= ls * cd,
            ls * td <= tn * cs,
            0 < cs,
            0 < cd,
            0 < td,
            0 <= x,
    ;
}

/// Pigou-Dalton soundness for the worst-machine gauge: applying an
/// admissible `HotToCold` never lifts any machine's utilization above a
/// bound the fleet already met, so the bound needs no recheck.
pub proof fn law_hot_to_cold_keeps_bound<const N: usize>(
    before: Map<MachineId, MachineSpec<N>>,
    after: Map<MachineId, MachineSpec<N>>,
    source: MachineId,
    destination: MachineId,
    mass: Mass<N>,
    tn: int,
    td: int,
)
    requires
        0 <= tn,
        0 < td,
        hot_to_cold_admissible(before, source, destination, mass),
        transferred(before, after, source, destination, mass),
        within_bound(before, tn, td),
    ensures
        within_bound(after, tn, td),
{
    assert forall|k: MachineId, d: int| after.contains_key(k) && 0 <= d < N implies frac_le(
        #[trigger] after[k].util_of(d),
        (tn, td),
    ) by {
        assert(before.contains_key(k));
        let s = before[source];
        let t = before[destination];
        let m = mass.0[d] as int;
        assert(dim_pigou_dalton(s, t, m, d));
        assert(frac_le(before[k].util_of(d), (tn, td)));
        if k == source {
            assert(after[k].load.0[d] == s.load.0[d] - m);
            lemma_smaller_load_keeps_bound(
                after[k].load.0[d] as int,
                s.load.0[d] as int,
                s.capacity.0[d] as int,
                tn,
                td,
            );
        } else if k == destination {
            assert(frac_le(s.util_of(d), (tn, td)));
            if m == 0 {
                assert(after[k].load.0[d] == t.load.0[d]);
            } else {
                lemma_destination_bound(
                    s.load.0[d] as int,
                    s.capacity.0[d] as int,
                    t.load.0[d] as int,
                    t.capacity.0[d] as int,
                    m,
                    after[k].load.0[d] as int,
                    tn,
                    td,
                );
            }
        }
    }
}

/// Mass removal never lifts any machine's utilization, so a bound the fleet
/// met before still holds after.
pub proof fn law_remove_keeps_bound<const N: usize>(
    before: Map<MachineId, MachineSpec<N>>,
    after: Map<MachineId, MachineSpec<N>>,
    machine: MachineId,
    mass: Mass<N>,
    tn: int,
    td: int,
)
    requires
        0 <= tn,
        0 < td,
        mass_le(mass, before[machine].load),
        before.contains_key(machine),
        removed(before, after, machine, mass),
        within_bound(before, tn, td),
    ensures
        within_bound(after, tn, td),
{
    assert forall|k: MachineId, d: int| after.contains_key(k) && 0 <= d < N implies frac_le(
        #[trigger] after[k].util_of(d),
        (tn, td),
    ) by {
        assert(before.contains_key(k));
        assert(frac_le(before[k].util_of(d), (tn, td)));
        if k == machine {
            lemma_smaller_load_keeps_bound(
                after[k].load.0[d] as int,
                before[k].load.0[d] as int,
                before[k].capacity.0[d] as int,
                tn,
                td,
            );
        }
    }
}

/// Under equal capacity in a dimension, the Pigou-Dalton condition for a
/// non-zero mass is the uniform-capacity rule `mass ≤ load(src) − load(dst)`.
pub proof fn law_pigou_dalton_uniform_capacity<const N: usize>(
    src: MachineSpec<N>,
    dst: MachineSpec<N>,
    m: int,
    d: int,
)
    requires
        0 <= d < N,
        0 < m,
        src.capacity.0[d] == dst.capacity.0[d],
        0 < src.capacity.0[d],
    ensures
        dim_pigou_dalton(src, dst, m, d) <==> m <= src.load.0[d] - dst.load.0[d],
{
    let c = src.capacity.0[d] as int;
    let ls = src.load.0[d] as int;
    let ld = dst.load.0[d] as int;
    assert(m * c <= ls * c - ld * c <==> m <= ls - ld) by (nonlinear_arith)
        requires
            0 < c,
    ;
}

/// A transfer moves mass without creating or destroying any: where the
/// destination does not saturate, the pair's total load in each dimension is
/// unchanged.
pub proof fn law_transfer_conserves_mass<const N: usize>(
    before: Map<MachineId, MachineSpec<N>>,
    after: Map<MachineId, MachineSpec<N>>,
    source: MachineId,
    destination: MachineId,
    mass: Mass<N>,
    d: int,
)
    requires
        0 <= d < N,
        source != destination,
        transferred(before, after, source, destination, mass),
        before[destination].load.0[d] + mass.0[d] <= u64::MAX,
    ensures
        after[source].load.0[d] + after[destination].load.0[d] == before[source].load.0[d]
            + before[destination].load.0[d],
{
    assert(subtracted(before[source].load, mass, after[source].load));
    assert(saturating_added(before[destination].load, mass, after[destination].load));
    assert(after[source].load.0[d] == before[source].load.0[d] - mass.0[d]);
    assert(after[destination].load.0[d] == before[destination].load.0[d] + mass.0[d]);
}


/// In each dimension where it moves mass, an admissible `HotToCold` is a
/// Robin Hood transfer: afterwards neither end is more utilized there than
/// the source was before, and the two utilizations `ls / cs + ld / cd`
/// (compared over the common denominator `cs · cd`) sum to no more than
/// before. For one-dimensional load these are the conditions under which no
/// Ky Fan k-norm (the sum of the k largest utilizations) can grow.
pub proof fn law_hot_to_cold_is_robin_hood<const N: usize>(
    before: Map<MachineId, MachineSpec<N>>,
    after: Map<MachineId, MachineSpec<N>>,
    source: MachineId,
    destination: MachineId,
    mass: Mass<N>,
    d: int,
)
    requires
        0 <= d < N,
        mass.0[d] > 0,
        hot_to_cold_admissible(before, source, destination, mass),
        transferred(before, after, source, destination, mass),
    ensures
        frac_le(after[source].util_of(d), before[source].util_of(d)),
        frac_le(after[destination].util_of(d), before[source].util_of(d)),
        after[source].load.0[d] * before[destination].capacity.0[d] + after[destination].load.0[d]
            * before[source].capacity.0[d] <= before[source].load.0[d]
            * before[destination].capacity.0[d] + before[destination].load.0[d]
            * before[source].capacity.0[d],
{
    let s = before[source];
    let t = before[destination];
    let m = mass.0[d] as int;
    assert(dim_pigou_dalton(s, t, m, d));
    let cs = s.capacity.0[d] as int;
    let cd = t.capacity.0[d] as int;
    let ls = s.load.0[d] as int;
    let ld = t.load.0[d] as int;
    let ls2 = after[source].load.0[d] as int;
    let ld2 = after[destination].load.0[d] as int;
    assert(ls2 == ls - m);
    assert(0 <= ld2 <= ld + m);
    assert(after[source].capacity.0[d] == cs);
    assert(after[destination].capacity.0[d] == cd);
    assert(ls2 * cs <= ls * cs) by (nonlinear_arith)
        requires
            ls2 <= ls,
            0 < cs,
    ;
    assert(ld2 * cs <= ls * cd) by (nonlinear_arith)
        requires
            ld2 <= ld + m,
            m * cs <= ls * cd - ld * cs,
            0 < cs,
    ;
    assert(ls2 * cd + ld2 * cs <= ls * cd + ld * cs) by (nonlinear_arith)
        requires
            ls2 == ls - m,
            ld2 <= ld + m,
            0 < m,
            0 < cs <= cd,
    ;
}


/// `f1` is `f0` with the load of `id` replaced and its capacity kept.
pub open spec fn load_replaced<const N: usize>(
    f0: Map<MachineId, MachineSpec<N>>,
    f1: Map<MachineId, MachineSpec<N>>,
    id: MachineId,
) -> bool {
    f1 == f0.insert(id, MachineSpec { load: f1[id].load, capacity: f0[id].capacity })
}

/// Removing what was just added restores the fleet: where no dimension
/// saturates, `remove_load(id, m)` after `add_load(id, m)` gives back the
/// fleet `add_load` started from.
pub proof fn law_remove_undoes_add<const N: usize>(
    f0: Map<MachineId, MachineSpec<N>>,
    f1: Map<MachineId, MachineSpec<N>>,
    f2: Map<MachineId, MachineSpec<N>>,
    id: MachineId,
    m: Mass<N>,
)
    requires
        f0.contains_key(id),
        forall|d: int| 0 <= d < N ==> #[trigger] f0[id].load.0[d] + m.0[d] <= u64::MAX,
        load_replaced(f0, f1, id),
        saturating_added(f0[id].load, m, f1[id].load),
        load_replaced(f1, f2, id),
        subtracted(f1[id].load, m, f2[id].load),
    ensures
        f2 == f0,
{
    assert(f2[id].load.0 =~= f0[id].load.0) by {
        assert forall|d: int| 0 <= d < N implies f2[id].load.0[d] == f0[id].load.0[d] by {
            assert(f0[id].load.0[d] + m.0[d] <= u64::MAX);
        }
    }
    assert(f2 =~= f0);
}

/// Adding back what was just removed restores the fleet: `add_load(id, m)`
/// after a successful `remove_load(id, m)` gives back the fleet
/// `remove_load` started from.
pub proof fn law_add_undoes_remove<const N: usize>(
    f0: Map<MachineId, MachineSpec<N>>,
    f1: Map<MachineId, MachineSpec<N>>,
    f2: Map<MachineId, MachineSpec<N>>,
    id: MachineId,
    m: Mass<N>,
)
    requires
        f0.contains_key(id),
        mass_le(m, f0[id].load),
        load_replaced(f0, f1, id),
        subtracted(f0[id].load, m, f1[id].load),
        load_replaced(f1, f2, id),
        saturating_added(f1[id].load, m, f2[id].load),
    ensures
        f2 == f0,
{
    assert(f2[id].load.0 =~= f0[id].load.0) by {
        assert forall|d: int| 0 <= d < N implies f2[id].load.0[d] == f0[id].load.0[d] by {
            assert(m.0[d] <= f0[id].load.0[d]);
        }
    }
    assert(f2 =~= f0);
}


/// `b` follows from `a` by one typed-pure move that is sound for the bound:
/// an admissible `HotToCold` or a removal the machine can carry.
pub open spec fn sound_step<const N: usize>(
    a: Map<MachineId, MachineSpec<N>>,
    b: Map<MachineId, MachineSpec<N>>,
) -> bool {
    ||| exists|s: MachineId, d: MachineId, m: Mass<N>|
        #[trigger] hot_to_cold_admissible(a, s, d, m) && transferred(a, b, s, d, m)
    ||| exists|k: MachineId, m: Mass<N>|
        a.contains_key(k) && mass_le(m, a[k].load) && #[trigger] removed(a, b, k, m)
}

/// The composition guarantee: a chain of admissible `HotToCold` transfers
/// and removals, of any length, keeps the worst-utilization bound the first
/// fleet met, with no recheck along the way.
pub proof fn law_sound_chain_keeps_bound<const N: usize>(
    fs: Seq<Map<MachineId, MachineSpec<N>>>,
    tn: int,
    td: int,
)
    requires
        0 <= tn,
        0 < td,
        fs.len() > 0,
        forall|i: int| 0 <= i < fs.len() - 1 ==> sound_step(#[trigger] fs[i], fs[i + 1]),
        within_bound(fs[0], tn, td),
    ensures
        within_bound(fs.last(), tn, td),
    decreases fs.len(),
{
    if fs.len() > 1 {
        let p = fs.drop_last();
        assert forall|i: int| 0 <= i < p.len() - 1 implies sound_step(#[trigger] p[i], p[i + 1]) by {
            assert(p[i] == fs[i] && p[i + 1] == fs[i + 1]);
        }
        law_sound_chain_keeps_bound(p, tn, td);
        let a = fs[fs.len() - 2];
        let b = fs.last();
        assert(sound_step(a, b));
        if exists|s: MachineId, d: MachineId, m: Mass<N>|
            #[trigger] hot_to_cold_admissible(a, s, d, m) && transferred(a, b, s, d, m) {
            let (s, d, m) = choose|s: MachineId, d: MachineId, m: Mass<N>|
                #[trigger] hot_to_cold_admissible(a, s, d, m) && transferred(a, b, s, d, m);
            law_hot_to_cold_keeps_bound(a, b, s, d, m, tn, td);
        } else {
            let (k, m) = choose|k: MachineId, m: Mass<N>|
                a.contains_key(k) && mass_le(m, a[k].load) && #[trigger] removed(a, b, k, m);
            law_remove_keeps_bound(a, b, k, m, tn, td);
        }
    }
}

} // verus!
