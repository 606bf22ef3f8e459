//! Move kinds: the alphabet.
//!
//! | Kind        | Effect                                  | apply     |
//! | ----------- | --------------------------------------- | --------- |
//! | `Remove`    | mass-decreasing                         | total     |
//! | `HotToCold` | Pigou-Dalton in every dimension moved   | total     |
//! | `Neutral`   | mass-preserving between equal machines  | total     |
//! | `ColdToHot` | anti-Robin-Hood                         | fallible  |
//! | `Place`     | mass-adding                             | fallible  |
//!
//! `HotToCold` and `Neutral` are witness types: their only constructor is a
//! check against a fleet, and the check is exactly the admissibility
//! predicate stated here. The fleet-level effect of each move is given by
//! `apply_to`, and the laws at the end of this file state what the typed-pure
//! moves do to the exact utilization bound.

use vstd::prelude::*;
use crate::alphabet::{Effect, Primitive};
use crate::load::{
    mass_le, saturating_added, subtracted, Fleet, MachineId, MachineSpec, Mass,
};
use crate::sealed::Sealed;
use crate::util::{frac, frac_le, frac_ok, lemma_frac_le_trans, lemma_frac_ok};

verus! {

/// Mass removal from a single machine.
#[derive(Clone, Copy, Debug)]
pub struct Remove<const N: usize> {
    pub machine: MachineId,
    pub mass: Mass<N>,
}

/// Evidence that a witness check passed. It has no public constructor, so
/// `HotToCold` and `Neutral` values exist only through their witness checks.
#[derive(Clone, Copy, Debug)]
pub struct WitnessToken(());

/// Pigou-Dalton transfer from a hotter source to a cooler destination.
/// Constructed only through [`HotToCold::witness`].
#[derive(Clone, Copy, Debug)]
pub struct HotToCold<const N: usize> {
    pub source: MachineId,
    pub destination: MachineId,
    pub mass: Mass<N>,
    pub witness_token: WitnessToken,
}

/// Mass-preserving migration between machines identical in capacity and
/// load. Constructed only through [`Neutral::witness`].
#[derive(Clone, Copy, Debug)]
pub struct Neutral<const N: usize> {
    pub source: MachineId,
    pub destination: MachineId,
    pub mass: Mass<N>,
    pub witness_token: WitnessToken,
}

/// Anti-Robin-Hood migration: no witness, rechecked at apply time.
#[derive(Clone, Copy, Debug)]
pub struct ColdToHot<const N: usize> {
    pub source: MachineId,
    pub destination: MachineId,
    pub mass: Mass<N>,
}

/// Fresh placement of mass on a machine: rechecked at apply time.
#[derive(Clone, Copy, Debug)]
pub struct Place<const N: usize> {
    pub machine: MachineId,
    pub mass: Mass<N>,
}

/// One dimension of a Pigou-Dalton transfer of `m` from `src` to `dst`:
/// nothing moves, or both capacities are positive with `cap(src) ≤ cap(dst)`,
/// the source holds `m`, and `m · cap(src) ≤ load(src) · cap(dst) −
/// load(dst) · cap(src)` (the destination's new utilization does not exceed
/// the source's old one).
pub open spec fn dim_pigou_dalton<const N: usize>(
    src: MachineSpec<N>,
    dst: MachineSpec<N>,
    m: int,
    d: int,
) -> bool {
    m == 0 || {
        let cs = src.capacity.0[d] as int;
        let cd = dst.capacity.0[d] as int;
        let ls = src.load.0[d] as int;
        let ld = dst.load.0[d] as int;
        &&& 0 < cs
        &&& 0 < cd
        &&& cs <= cd
        &&& m <= ls
        &&& m * cs <= ls * cd - ld * cs
    }
}

/// When a `HotToCold` of `mass` from `source` to `destination` is admissible
/// against the fleet `f`.
pub open spec fn hot_to_cold_admissible<const N: usize>(
    f: Map<MachineId, MachineSpec<N>>,
    source: MachineId,
    destination: MachineId,
    mass: Mass<N>,
) -> bool {
    &&& source != destination
    &&& f.contains_key(source)
    &&& f.contains_key(destination)
    &&& !mass.spec_is_zero()
    &&& forall|d: int|
        0 <= d < N ==> #[trigger] dim_pigou_dalton(f[source], f[destination], mass.0[d] as int, d)
}

/// When a `Neutral` of `mass` from `source` to `destination` is admissible
/// against the fleet `f`: two distinct known machines with equal capacity
/// and equal load in every dimension, the source holding the mass.
pub open spec fn neutral_admissible<const N: usize>(
    f: Map<MachineId, MachineSpec<N>>,
    source: MachineId,
    destination: MachineId,
    mass: Mass<N>,
) -> bool {
    &&& source != destination
    &&& f.contains_key(source)
    &&& f.contains_key(destination)
    &&& f[source] == f[destination]
    &&& mass_le(mass, f[source].load)
}

/// `after` is `before` with `mass` moved from `source` to `destination`
/// (subtracted at the source, added saturating at the destination),
/// capacities and all other machines unchanged.
pub open spec fn transferred<const N: usize>(
    before: Map<MachineId, MachineSpec<N>>,
    after: Map<MachineId, MachineSpec<N>>,
    source: MachineId,
    destination: MachineId,
    mass: Mass<N>,
) -> bool {
    &&& after.dom() == before.dom()
    &&& forall|k: MachineId|
        before.contains_key(k) && k != source && k != destination ==> #[trigger] after[k]
            == before[k]
    &&& after[source].capacity == before[source].capacity
    &&& after[destination].capacity == before[destination].capacity
    &&& subtracted(before[source].load, mass, after[source].load)
    &&& saturating_added(before[destination].load, mass, after[destination].load)
}

/// `after` is `before` with `mass` subtracted from `machine`.
pub open spec fn removed<const N: usize>(
    before: Map<MachineId, MachineSpec<N>>,
    after: Map<MachineId, MachineSpec<N>>,
    machine: MachineId,
    mass: Mass<N>,
) -> bool {
    &&& after.dom() == before.dom()
    &&& forall|k: MachineId|
        before.contains_key(k) && k != machine ==> #[trigger] after[k] == before[k]
    &&& after[machine].capacity == before[machine].capacity
    &&& subtracted(before[machine].load, mass, after[machine].load)
}

/// Decides one dimension of [`dim_pigou_dalton`].
fn dim_pigou_dalton_exec<const N: usize>(
    src: &MachineSpec<N>,
    dst: &MachineSpec<N>,
    m: u64,
    d: usize,
) -> (r: bool)
    requires
        d < N,
    ensures
        r == dim_pigou_dalton(*src, *dst, m as int, d as int),
{
    if m == 0 {
        return true;
    }
    let cs = src.capacity.0[d];
    let cd = dst.capacity.0[d];
    let ls = src.load.0[d];
    let ld = dst.load.0[d];
    if cs == 0 || cd == 0 || cs > cd || m > ls {
        return false;
    }
    assert(ls as u128 * cd as u128 <= u64::MAX * u64::MAX) by (nonlinear_arith)
        requires
            ls <= u64::MAX,
            cd <= u64::MAX,
    ;
    assert(ld as u128 * cs as u128 <= u64::MAX * u64::MAX) by (nonlinear_arith)
        requires
            ld <= u64::MAX,
            cs <= u64::MAX,
    ;
    assert(m as u128 * cs as u128 <= u64::MAX * u64::MAX) by (nonlinear_arith)
        requires
            m <= u64::MAX,
            cs <= u64::MAX,
    ;
    let a: u128 = ls as u128 * cd as u128;
    let b: u128 = ld as u128 * cs as u128;
    let c: u128 = m as u128 * cs as u128;
    a >= b && c <= a - b
}

impl<const N: usize> Remove<N> {
    /// Construct a `Remove`. Always succeeds.
    pub fn new(machine: MachineId, mass: Mass<N>) -> (r: Self)
        ensures
            r.machine == machine,
            r.mass == mass,
    {
        Remove { machine, mass }
    }

    /// The fleet-level effect: subtract the mass from the machine. Fails as
    /// `Fleet::remove_load` does (unknown machine or insufficient load).
    pub fn apply_to(&self, fleet: &mut Fleet<N>) -> (r: Result<(), crate::load::FleetError>)
        requires
            old(fleet).wf(),
        ensures
            final(fleet).wf(),
            r is Ok <==> old(fleet)@.contains_key(self.machine) && mass_le(
                self.mass,
                old(fleet)@[self.machine].load,
            ),
            r is Ok ==> removed(old(fleet)@, final(fleet)@, self.machine, self.mass),
            r is Err ==> final(fleet)@ == old(fleet)@,
            !old(fleet)@.contains_key(self.machine) ==> r == Err::<(), crate::load::FleetError>(
                crate::load::FleetError::UnknownMachine(self.machine),
            ),
            old(fleet)@.contains_key(self.machine) && !mass_le(
                self.mass,
                old(fleet)@[self.machine].load,
            ) ==> r matches Err(crate::load::FleetError::InsufficientLoad { .. }),
    {
        let r = fleet.remove_load(self.machine, self.mass);
        proof {
            if r is Ok {
                assert(fleet@.dom() =~= old(fleet)@.dom());
            }
        }
        r
    }
}

impl<const N: usize> HotToCold<N> {
    /// Construct a `HotToCold` if and only if the transfer is admissible
    /// against `fleet`: distinct known machines, non-zero mass, and in every
    /// dimension where mass moves both capacities positive with
    /// `cap(src) ≤ cap(dst)`, `mass ≤ load(src)` and
    /// `mass · cap(src) ≤ load(src) · cap(dst) − load(dst) · cap(src)`.
    pub fn witness(
        source: MachineId,
        destination: MachineId,
        mass: Mass<N>,
        fleet: &Fleet<N>,
    ) -> (r: Option<Self>)
        requires
            fleet.wf(),
        ensures
            r is Some <==> hot_to_cold_admissible(fleet@, source, destination, mass),
            r matches Some(m) ==> m.source == source && m.destination == destination && m.mass
                == mass,
    {
        if source.0 == destination.0 {
            return None;
        }
        let src = match fleet.spec(source) {
            Some(s) => s,
            None => return None,
        };
        let dst = match fleet.spec(destination) {
            Some(s) => s,
            None => return None,
        };
        if mass.is_zero() {
            return None;
        }
        let mut d: usize = 0;
        while d < N
            invariant
                d <= N,
                *src == fleet@[source],
                *dst == fleet@[destination],
                forall|e: int|
                    0 <= e < d ==> #[trigger] dim_pigou_dalton(*src, *dst, mass.0[e] as int, e),
            decreases N - d,
        {
            if !dim_pigou_dalton_exec(src, dst, mass.0[d], d) {
                return None;
            }
            d += 1;
        }
        Some(HotToCold { source, destination, mass, witness_token: WitnessToken(()) })
    }

    /// The fleet-level effect of an admissible transfer. Total: a transfer
    /// admissible against the fleet always applies.
    pub fn apply_to(&self, fleet: &mut Fleet<N>)
        requires
            old(fleet).wf(),
            hot_to_cold_admissible(old(fleet)@, self.source, self.destination, self.mass),
        ensures
            final(fleet).wf(),
            transferred(old(fleet)@, final(fleet)@, self.source, self.destination, self.mass),
    {
        proof {
            let s = old(fleet)@[self.source];
            let t = old(fleet)@[self.destination];
            assert forall|d: int| 0 <= d < N implies self.mass.0[d] <= #[trigger] s.load.0[d] by {
                assert(dim_pigou_dalton(s, t, self.mass.0[d] as int, d));
            }
        }
        let r1 = fleet.remove_load(self.source, self.mass);
        let ghost mid = fleet@;
        let r2 = fleet.add_load(self.destination, self.mass);
        assert(fleet@.dom() =~= old(fleet)@.dom());
    }
}

impl<const N: usize> Neutral<N> {
    /// Construct a `Neutral` if and only if source and destination are
    /// distinct known machines with equal capacity and equal load in every
    /// dimension, and the source holds the mass.
    pub fn witness(
        source: MachineId,
        destination: MachineId,
        mass: Mass<N>,
        fleet: &Fleet<N>,
    ) -> (r: Option<Self>)
        requires
            fleet.wf(),
        ensures
            r is Some <==> neutral_admissible(fleet@, source, destination, mass),
            r matches Some(m) ==> m.source == source && m.destination == destination && m.mass
                == mass,
    {
        if source.0 == destination.0 {
            return None;
        }
        let src = match fleet.spec(source) {
            Some(s) => s,
            None => return None,
        };
        let dst = match fleet.spec(destination) {
            Some(s) => s,
            None => return None,
        };
        let mut d: usize = 0;
        while d < N
            invariant
                d <= N,
                *src == fleet@[source],
                *dst == fleet@[destination],
                forall|e: int|
                    0 <= e < d ==> #[trigger] src.load.0[e] == dst.load.0[e] && src.capacity.0[e]
                        == dst.capacity.0[e] && mass.0[e] <= src.load.0[e],
            decreases N - d,
        {
            if src.load.0[d] != dst.load.0[d] || src.capacity.0[d] != dst.capacity.0[d]
                || mass.0[d] > src.load.0[d] {
                return None;
            }
            d += 1;
        }
        assert forall|e: int| 0 <= e < N implies src.capacity.0[e] == dst.capacity.0[e]
            && src.load.0[e] == dst.load.0[e] by {
            assert(src.load.0[e] == dst.load.0[e]);
        }
        assert(src.load.0 =~= dst.load.0);
        assert(src.capacity.0 =~= dst.capacity.0);
        Some(Neutral { source, destination, mass, witness_token: WitnessToken(()) })
    }

    /// The fleet-level effect of an admissible neutral migration. Total.
    pub fn apply_to(&self, fleet: &mut Fleet<N>)
        requires
            old(fleet).wf(),
            neutral_admissible(old(fleet)@, self.source, self.destination, self.mass),
        ensures
            final(fleet).wf(),
            transferred(old(fleet)@, final(fleet)@, self.source, self.destination, self.mass),
    {
        let r1 = fleet.remove_load(self.source, self.mass);
        let r2 = fleet.add_load(self.destination, self.mass);
        assert(fleet@.dom() =~= old(fleet)@.dom());
    }
}

impl<const N: usize> ColdToHot<N> {
    /// Construct a `ColdToHot`. Always succeeds.
    pub fn new(source: MachineId, destination: MachineId, mass: Mass<N>) -> (r: Self)
        ensures
            r.source == source,
            r.destination == destination,
            r.mass == mass,
    {
        ColdToHot { source, destination, mass }
    }

    /// The fleet-level effect: subtract at the source, then add at the
    /// destination. The source step fails as `Fleet::remove_load` does and
    /// leaves the fleet unchanged; the destination step fails only on an
    /// unknown destination, after the source has been debited.
    pub fn apply_to(&self, fleet: &mut Fleet<N>) -> (r: Result<(), crate::load::FleetError>)
        requires
            old(fleet).wf(),
        ensures
            final(fleet).wf(),
            r is Ok <==> old(fleet)@.contains_key(self.source) && mass_le(
                self.mass,
                old(fleet)@[self.source].load,
            ) && old(fleet)@.contains_key(self.destination),
            r is Ok && self.source != self.destination ==> transferred(
                old(fleet)@,
                final(fleet)@,
                self.source,
                self.destination,
                self.mass,
            ),
            r is Ok && self.source == self.destination ==> final(fleet)@ == old(fleet)@,
            !(old(fleet)@.contains_key(self.source) && mass_le(
                self.mass,
                old(fleet)@[self.source].load,
            )) ==> final(fleet)@ == old(fleet)@,
            !old(fleet)@.contains_key(self.source) ==> r == Err::<(), crate::load::FleetError>(
                crate::load::FleetError::UnknownMachine(self.source),
            ),
            old(fleet)@.contains_key(self.source) && !mass_le(
                self.mass,
                old(fleet)@[self.source].load,
            ) ==> r matches Err(crate::load::FleetError::InsufficientLoad { .. }),
            r matches Err(
                crate::load::FleetError::InsufficientLoad { machine, dimension, requested, available },
            ) ==> {
                &&& old(fleet)@.contains_key(self.source)
                &&& machine == self.source
                &&& dimension < N
                &&& requested == self.mass.0[dimension as int]
                &&& available == old(fleet)@[self.source].load.0[dimension as int]
                &&& available < requested
                &&& forall|e: int|
                    0 <= e < dimension ==> self.mass.0[e] <= #[trigger] old(
                        fleet,
                    )@[self.source].load.0[e]
            },
            old(fleet)@.contains_key(self.source) && mass_le(
                self.mass,
                old(fleet)@[self.source].load,
            ) && !old(fleet)@.contains_key(self.destination) ==> {
                &&& r == Err::<(), crate::load::FleetError>(
                    crate::load::FleetError::UnknownMachine(self.destination),
                )
                &&& final(fleet)@ == old(fleet)@.insert(
                    self.source,
                    MachineSpec {
                        load: final(fleet)@[self.source].load,
                        capacity: old(fleet)@[self.source].capacity,
                    },
                )
                &&& subtracted(old(fleet)@[self.source].load, self.mass, final(fleet)@[self.source].load)
            },
    {
        match fleet.remove_load(self.source, self.mass) {
            Err(e) => Err(e),
            Ok(()) => {
                let ghost mid = fleet@;
                let r = fleet.add_load(self.destination, self.mass);
                proof {
                    if r is Ok {
                        assert(fleet@.dom() =~= old(fleet)@.dom());
                        if self.source == self.destination {
                            let s = self.source;
                            assert(fleet@[s].load.0 =~= old(fleet)@[s].load.0) by {
                                assert forall|d: int| 0 <= d < N implies fleet@[s].load.0[d]
                                    == old(fleet)@[s].load.0[d] by {
                                    assert(mid[s].load.0[d] == old(fleet)@[s].load.0[d]
                                        - self.mass.0[d]);
                                }
                            }
                            assert(fleet@ =~= old(fleet)@);
                        }
                    }
                }
                r
            },
        }
    }
}

impl<const N: usize> Place<N> {
    /// Construct a `Place`. Always succeeds.
    pub fn new(machine: MachineId, mass: Mass<N>) -> (r: Self)
        ensures
            r.machine == machine,
            r.mass == mass,
    {
        Place { machine, mass }
    }

    /// The fleet-level effect: add the mass (saturating) to the machine.
    /// Fails only on an unknown machine, leaving the fleet unchanged.
    pub fn apply_to(&self, fleet: &mut Fleet<N>) -> (r: Result<(), crate::load::FleetError>)
        requires
            old(fleet).wf(),
        ensures
            final(fleet).wf(),
            r is Ok <==> old(fleet)@.contains_key(self.machine),
            r is Err ==> final(fleet)@ == old(fleet)@,
            r is Ok ==> final(fleet)@.dom() == old(fleet)@.dom() && final(fleet)@[self.machine].capacity
                == old(fleet)@[self.machine].capacity && saturating_added(
                old(fleet)@[self.machine].load,
                self.mass,
                final(fleet)@[self.machine].load,
            ) && forall|k: MachineId|
                old(fleet)@.contains_key(k) && k != self.machine ==> #[trigger] final(fleet)@[k]
                    == old(fleet)@[k],
    {
        let r = fleet.add_load(self.machine, self.mass);
        proof {
            if r is Ok {
                assert(fleet@.dom() =~= old(fleet)@.dom());
            }
        }
        r
    }
}

impl<const N: usize> Sealed for Remove<N> {

}

impl<const N: usize> Primitive for Remove<N> {
    const EFFECT: Effect = Effect::MassDecreasing;
    const THEOREM: &'static str =
        "Marshall-Olkin §3.A: mass-decreasing on non-negative vectors strictly reduces every monotone Schur-convex gauge.";
    const NAME: &'static str = "Remove";
}

impl<const N: usize> Sealed for HotToCold<N> {

}

impl<const N: usize> Primitive for HotToCold<N> {
    const EFFECT: Effect = Effect::PigouDalton;
    const THEOREM: &'static str =
        "Hardy-Littlewood-Pólya 1929; Marshall-Olkin §1.A.1: a Pigou-Dalton transfer, here per dimension with cap(src) ≤ cap(dst) and mass · cap(src) ≤ load(src) · cap(dst) − load(dst) · cap(src), never lifts a machine above the source's prior utilization, so it keeps the worst-machine bound; with one dimension it is majorization-decreasing and keeps every Ky Fan k-norm bound.";
    const NAME: &'static str = "HotToCold";
}

impl<const N: usize> Sealed for Neutral<N> {

}

impl<const N: usize> Primitive for Neutral<N> {
    const EFFECT: Effect = Effect::Permutation;
    const THEOREM: &'static str =
        "Symmetric gauges are invariant under coordinate permutation. A mass-preserving exchange between machines of equal capacity and equal load keeps total mass, but it does not permute the load vector: the destination ends above the shared level, so the worst-machine gauge can rise. No gauge bound is claimed for it.";
    const NAME: &'static str = "Neutral";
}

impl<const N: usize> Sealed for ColdToHot<N> {

}

impl<const N: usize> Primitive for ColdToHot<N> {
    const EFFECT: Effect = Effect::MassPreservingFree;
    const THEOREM: &'static str =
        "Anti-Robin-Hood transfers can produce majorization-incomparable results; Schur-convex gauges may strictly increase. Catch-all: apply re-checks the gauge at runtime.";
    const NAME: &'static str = "ColdToHot";
}

impl<const N: usize> Sealed for Place<N> {

}

impl<const N: usize> Primitive for Place<N> {
    const EFFECT: Effect = Effect::MassIncreasing;
    const THEOREM: &'static str =
        "Mass-increasing operations on non-negative vectors can push any monotone Schur-convex gauge upward (in particular: max utilization increases when mass is added to the most-loaded machine). Catch-all: apply re-checks the gauge at runtime.";
    const NAME: &'static str = "Place";
}

} // verus!
