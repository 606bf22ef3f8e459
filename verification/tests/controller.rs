//! The controller's convergence check over assignments and agent reports.

use fulcrum::controller::{node_intent, reconcile_node, NodeStep};
use fulcrum::{Capacity, Mass, NodeReport};
use fulcrum::controller::{desired_ids, node_converged, running_ids, same_ids};
use fulcrum::{MachineId, ReconcileReport, WorkloadId, WorkloadPhase, WorkloadStatus};

fn st(id: u64, phase: WorkloadPhase) -> WorkloadStatus {
    WorkloadStatus { id: WorkloadId(id), phase }
}

#[test]
fn desired_ids_keep_assignment_order_for_the_node() {
    let a = vec![
        (WorkloadId(5), MachineId(1)),
        (WorkloadId(2), MachineId(2)),
        (WorkloadId(9), MachineId(1)),
    ];
    assert_eq!(desired_ids(&a, MachineId(1)), vec![WorkloadId(5), WorkloadId(9)]);
    assert_eq!(desired_ids(&a, MachineId(3)), Vec::<WorkloadId>::new());
}

#[test]
fn running_ids_skip_pending_and_failed() {
    let w = vec![
        st(1, WorkloadPhase::Running),
        st(2, WorkloadPhase::Pending),
        st(3, WorkloadPhase::Failed),
        st(4, WorkloadPhase::Running),
    ];
    assert_eq!(running_ids(&w), vec![WorkloadId(1), WorkloadId(4)]);
}

#[test]
fn same_ids_compares_as_sets() {
    let a = [WorkloadId(1), WorkloadId(2), WorkloadId(2)];
    let b = [WorkloadId(2), WorkloadId(1)];
    assert!(same_ids(&a, &b));
    assert!(!same_ids(&a, &[WorkloadId(1)]));
    assert!(!same_ids(&[WorkloadId(1)], &a));
    assert!(same_ids(&[], &[]));
}

#[test]
fn a_crash_makes_the_node_diverge() {
    let a = vec![(WorkloadId(1), MachineId(1)), (WorkloadId(2), MachineId(1))];
    let healthy = vec![st(2, WorkloadPhase::Running), st(1, WorkloadPhase::Running)];
    let crashed = vec![st(1, WorkloadPhase::Running), st(2, WorkloadPhase::Failed)];
    assert!(node_converged(&a, MachineId(1), &healthy));
    assert!(!node_converged(&a, MachineId(1), &crashed));
    // a node with nothing assigned converges when nothing runs.
    assert!(node_converged(&a, MachineId(2), &[st(3, WorkloadPhase::Pending)]));
    assert!(!node_converged(&a, MachineId(2), &[st(3, WorkloadPhase::Running)]));
}

#[test]
fn empty_report_by_default() {
    let r = ReconcileReport::default();
    assert!(r.converged.is_empty() && r.diverged.is_empty());
    assert!(r.republished.is_empty() && r.unreachable.is_empty());
}

fn spec(id: u64, image: &str) -> (WorkloadId, fulcrum::WorkloadSpec<1>) {
    (
        WorkloadId(id),
        fulcrum::WorkloadSpec { id: WorkloadId(id), image: image.to_string(), request: fulcrum::Mass([id]) },
    )
}

#[test]
fn reconcile_step_decides_unreachable_converged_or_republish() {
    let a = vec![(WorkloadId(1), MachineId(1)), (WorkloadId(2), MachineId(2)), (WorkloadId(3), MachineId(1))];
    let specs = vec![spec(1, "a"), spec(2, "b"), spec(3, "c")];
    let report = |w: Vec<WorkloadStatus>| NodeReport {
        node: MachineId(1),
        epoch: 4,
        capacity: Capacity([10]),
        observed_load: Mass([0]),
        workloads: w,
    };
    assert!(matches!(reconcile_node(&a, &specs, 4, MachineId(1), None), NodeStep::Unreachable));
    let healthy = report(vec![st(3, WorkloadPhase::Running), st(1, WorkloadPhase::Running)]);
    assert!(matches!(reconcile_node(&a, &specs, 4, MachineId(1), Some(&healthy)), NodeStep::Converged));
    let crashed = report(vec![st(1, WorkloadPhase::Running), st(3, WorkloadPhase::Failed)]);
    match reconcile_node(&a, &specs, 4, MachineId(1), Some(&crashed)) {
        NodeStep::Republish(i) => {
            assert_eq!(i.node, MachineId(1));
            assert_eq!(i.epoch, 5);
            assert_eq!(i.desired, vec![specs[0].1.clone(), specs[2].1.clone()]);
        }
        _ => panic!("a crash must republish"),
    }
}

#[test]
fn intent_carries_the_assigned_specs_in_assignment_order() {
    let a = vec![(WorkloadId(9), MachineId(2)), (WorkloadId(4), MachineId(2)), (WorkloadId(5), MachineId(1))];
    // workload 4 has no recorded spec and is left out
    let specs = vec![spec(5, "e"), spec(9, "old"), spec(9, "new")];
    let i = node_intent(&a, &specs, 0, MachineId(2));
    assert_eq!(i.epoch, 1);
    assert_eq!(i.desired.len(), 1);
    assert_eq!(i.desired[0].image, "new");
    assert!(node_intent(&a, &specs, 7, MachineId(3)).desired.is_empty());
}
