//! The controller's reconcile decision.
//!
//! One reconcile pass fetches each node's observed state and compares the
//! set of workloads the desired placement assigns to the node with the set
//! the node reports as running. Equal sets: the node has converged.
//! Otherwise it has diverged (a crash, a miss) and its intent is re-asserted.

use vstd::prelude::*;
use crate::load::MachineId;
use crate::proto::{NodeIntent, NodeReport, WorkloadId, WorkloadPhase, WorkloadSpec, WorkloadStatus};

verus! {

/// Outcome of one reconcile pass, per node.
#[derive(Debug, Default, PartialEq)]
pub struct ReconcileReport {
    /// Nodes whose observed running set already matched desired.
    pub converged: Vec<MachineId>,
    /// Nodes whose observed set diverged from desired.
    pub diverged: Vec<MachineId>,
    /// Nodes whose intent was re-asserted to correct divergence.
    pub republished: Vec<MachineId>,
    /// Nodes whose agent could not be reached this pass.
    pub unreachable: Vec<MachineId>,
}

/// The workloads that `assignments` places on `node`, in order.
pub open spec fn ids_on(s: Seq<(WorkloadId, MachineId)>, node: MachineId) -> Seq<WorkloadId>
    decreases s.len(),
{
    if s.len() == 0 {
        Seq::empty()
    } else if s.last().1 == node {
        ids_on(s.drop_last(), node).push(s.last().0)
    } else {
        ids_on(s.drop_last(), node)
    }
}

/// The workloads `s` reports as running, in order.
pub open spec fn running_of(s: Seq<WorkloadStatus>) -> Seq<WorkloadId>
    decreases s.len(),
{
    if s.len() == 0 {
        Seq::empty()
    } else if s.last().phase is Running {
        running_of(s.drop_last()).push(s.last().id)
    } else {
        running_of(s.drop_last())
    }
}

/// The workloads assigned to `node`, in assignment order.
pub fn desired_ids(assignments: &[(WorkloadId, MachineId)], node: MachineId) -> (r: Vec<WorkloadId>)
    ensures
        r@ == ids_on(assignments@, node),
{
    let mut r: Vec<WorkloadId> = Vec::new();
    let mut i: usize = 0;
    while i < assignments.len()
        invariant
            i <= assignments@.len(),
            r@ == ids_on(assignments@.take(i as int), node),
        decreases assignments@.len() - i,
    {
        assert(assignments@.take(i + 1).drop_last() =~= assignments@.take(i as int));
        if assignments[i].1.0 == node.0 {
            r.push(assignments[i].0);
        }
        i += 1;
    }
    assert(assignments@.take(i as int) =~= assignments@);
    r
}

/// The workloads reported as running, in report order.
pub fn running_ids(workloads: &[WorkloadStatus]) -> (r: Vec<WorkloadId>)
    ensures
        r@ == running_of(workloads@),
{
    let mut r: Vec<WorkloadId> = Vec::new();
    let mut i: usize = 0;
    while i < workloads.len()
        invariant
            i <= workloads@.len(),
            r@ == running_of(workloads@.take(i as int)),
        decreases workloads@.len() - i,
    {
        assert(workloads@.take(i + 1).drop_last() =~= workloads@.take(i as int));
        if workloads[i].phase == WorkloadPhase::Running {
            r.push(workloads[i].id);
        }
        i += 1;
    }
    assert(workloads@.take(i as int) =~= workloads@);
    r
}

fn contains_id(s: &[WorkloadId], x: WorkloadId) -> (r: bool)
    ensures
        r == s@.contains(x),
{
    let mut i: usize = 0;
    while i < s.len()
        invariant
            i <= s@.len(),
            forall|j: int| 0 <= j < i ==> s@[j] != x,
        decreases s@.len() - i,
    {
        if s[i].0 == x.0 {
            return true;
        }
        i += 1;
    }
    false
}

/// Whether the two lists hold the same set of workloads.
pub fn same_ids(a: &[WorkloadId], b: &[WorkloadId]) -> (r: bool)
    ensures
        r == (a@.to_set() == b@.to_set()),
{
    let mut i: usize = 0;
    while i < a.len()
        invariant
            i <= a@.len(),
            forall|j: int| 0 <= j < i ==> b@.contains(#[trigger] a@[j]),
        decreases a@.len() - i,
    {
        if !contains_id(b, a[i]) {
            assert(!b@.to_set().contains(a@[i as int]));
            assert(a@.to_set().contains(a@[i as int]));
            return false;
        }
        i += 1;
    }
    let mut k: usize = 0;
    while k < b.len()
        invariant
            k <= b@.len(),
            forall|j: int| 0 <= j < a@.len() ==> b@.contains(#[trigger] a@[j]),
            forall|j: int| 0 <= j < k ==> a@.contains(#[trigger] b@[j]),
        decreases b@.len() - k,
    {
        if !contains_id(a, b[k]) {
            assert(!a@.to_set().contains(b@[k as int]));
            assert(b@.to_set().contains(b@[k as int]));
            return false;
        }
        k += 1;
    }
    assert(a@.to_set() =~= b@.to_set()) by {
        assert forall|x: WorkloadId| a@.to_set().contains(x) <==> b@.to_set().contains(x) by {
            if a@.contains(x) {
                let j = choose|j: int| 0 <= j < a@.len() && a@[j] == x;
                assert(b@.contains(a@[j]));
            }
            if b@.contains(x) {
                let j = choose|j: int| 0 <= j < b@.len() && b@[j] == x;
                assert(a@.contains(b@[j]));
            }
        }
    }
    true
}

/// A node has converged when the workloads assigned to it are exactly the
/// workloads it reports as running.
pub fn node_converged(
    assignments: &[(WorkloadId, MachineId)],
    node: MachineId,
    workloads: &[WorkloadStatus],
) -> (r: bool)
    ensures
        r == (ids_on(assignments@, node).to_set() == running_of(workloads@).to_set()),
{
    let desired = desired_ids(assignments, node);
    let running = running_ids(workloads);
    same_ids(desired.as_slice(), running.as_slice())
}


/// The spec recorded for workload `w`: the last entry of `specs` with that
/// id, if any.
pub open spec fn spec_of<const N: usize>(
    specs: Seq<(WorkloadId, WorkloadSpec<N>)>,
    w: WorkloadId,
) -> Option<WorkloadSpec<N>>
    decreases specs.len(),
{
    if specs.len() == 0 {
        None
    } else if specs.last().0 == w {
        Some(specs.last().1)
    } else {
        spec_of(specs.drop_last(), w)
    }
}

/// The specs of the workloads `assignments` places on `node`, in assignment
/// order; a workload without a recorded spec is left out.
pub open spec fn desired_specs<const N: usize>(
    assignments: Seq<(WorkloadId, MachineId)>,
    specs: Seq<(WorkloadId, WorkloadSpec<N>)>,
    node: MachineId,
) -> Seq<WorkloadSpec<N>>
    decreases assignments.len(),
{
    if assignments.len() == 0 {
        Seq::empty()
    } else {
        let prev = desired_specs(assignments.drop_last(), specs, node);
        let (w, n) = assignments.last();
        if n == node {
            match spec_of(specs, w) {
                Some(sp) => prev.push(sp),
                None => prev,
            }
        } else {
            prev
        }
    }
}

/// A copy of a workload spec.
fn copy_spec<const N: usize>(s: &WorkloadSpec<N>) -> (r: WorkloadSpec<N>)
    ensures
        r == *s,
{
    WorkloadSpec { id: s.id, image: s.image.clone(), request: s.request }
}

/// Decides [`spec_of`].
fn find_spec<const N: usize>(specs: &[(WorkloadId, WorkloadSpec<N>)], w: WorkloadId) -> (r: Option<
    WorkloadSpec<N>,
>)
    ensures
        r == spec_of(specs@, w),
{
    let mut found: Option<WorkloadSpec<N>> = None;
    let mut i: usize = 0;
    while i < specs.len()
        invariant
            i <= specs@.len(),
            found == spec_of(specs@.take(i as int), w),
        decreases specs@.len() - i,
    {
        assert(specs@.take(i + 1).drop_last() =~= specs@.take(i as int));
        if specs[i].0.0 == w.0 {
            found = Some(copy_spec(&specs[i].1));
        }
        i += 1;
    }
    assert(specs@.take(i as int) =~= specs@);
    found
}

/// The next intent for `node`: epoch `last_epoch + 1`, and the specs of the
/// workloads assigned to it, in assignment order.
pub fn node_intent<const N: usize>(
    assignments: &[(WorkloadId, MachineId)],
    specs: &[(WorkloadId, WorkloadSpec<N>)],
    last_epoch: u64,
    node: MachineId,
) -> (r: NodeIntent<N>)
    requires
        last_epoch < u64::MAX,
    ensures
        r.node == node,
        r.epoch == last_epoch + 1,
        r.desired@ == desired_specs(assignments@, specs@, node),
{
    let mut desired: Vec<WorkloadSpec<N>> = Vec::new();
    let mut i: usize = 0;
    while i < assignments.len()
        invariant
            i <= assignments@.len(),
            desired@ == desired_specs(assignments@.take(i as int), specs@, node),
        decreases assignments@.len() - i,
    {
        assert(assignments@.take(i + 1).drop_last() =~= assignments@.take(i as int));
        if assignments[i].1.0 == node.0 {
            match find_spec(specs, assignments[i].0) {
                Some(sp) => desired.push(sp),
                None => {},
            }
        }
        i += 1;
    }
    assert(assignments@.take(i as int) =~= assignments@);
    NodeIntent { node, epoch: last_epoch + 1, desired }
}

/// What one reconcile pass does with one node.
pub enum NodeStep<const N: usize> {
    /// The node's agent gave no report.
    Unreachable,
    /// The node runs exactly the workloads assigned to it.
    Converged,
    /// The node diverged; this intent re-asserts its desired set.
    Republish(NodeIntent<N>),
}

/// One reconcile step for `node`: `Unreachable` without a report;
/// `Converged` when the assigned set equals the set reported running;
/// otherwise `Republish` of the next intent ([`node_intent`]).
pub fn reconcile_node<const N: usize>(
    assignments: &[(WorkloadId, MachineId)],
    specs: &[(WorkloadId, WorkloadSpec<N>)],
    last_epoch: u64,
    node: MachineId,
    observed: Option<&NodeReport<N>>,
) -> (r: NodeStep<N>)
    requires
        last_epoch < u64::MAX,
    ensures
        r is Unreachable <==> observed is None,
        observed matches Some(rep) ==> (r is Converged <==> ids_on(assignments@, node).to_set()
            == running_of(rep.workloads@).to_set()),
        r matches NodeStep::Republish(i) ==> {
            &&& i.node == node
            &&& i.epoch == last_epoch + 1
            &&& i.desired@ == desired_specs(assignments@, specs@, node)
        },
{
    match observed {
        None => NodeStep::Unreachable,
        Some(rep) => {
            if node_converged(assignments, node, rep.workloads.as_slice()) {
                NodeStep::Converged
            } else {
                NodeStep::Republish(node_intent(assignments, specs, last_epoch, node))
            }
        },
    }
}

} // verus!
