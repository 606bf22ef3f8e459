//! The controller↔agent contract round-trips through an in-memory agent.

use fulcrum::{
    AgentError, Capacity, MachineId, Mass, NodeIntent, NodeReport, SledAgent, WorkloadId,
    WorkloadPhase, WorkloadSpec, WorkloadStatus,
};

/// A trivial in-memory agent: it runs exactly the desired set and reports
/// observed load as the sum of requests.
struct MockAgent<const N: usize> {
    node: MachineId,
    capacity: Capacity<N>,
    epoch: u64,
    running: Vec<WorkloadSpec<N>>,
}

impl<const N: usize> SledAgent<N> for MockAgent<N> {
    fn apply_intent(&mut self, intent: &NodeIntent<N>) -> Result<(), AgentError> {
        if intent.node != self.node {
            return Err(AgentError::UnknownNode(intent.node));
        }
        if intent.epoch < self.epoch {
            return Err(AgentError::StaleEpoch { intent: intent.epoch, current: self.epoch });
        }
        self.epoch = intent.epoch;
        self.running = intent.desired.clone();
        Ok(())
    }

    fn report(&self) -> Result<NodeReport<N>, AgentError> {
        let mut observed = [0u64; N];
        for w in &self.running {
            for d in 0..N {
                observed[d] = observed[d].saturating_add(w.request.0[d]);
            }
        }
        let workloads = self
            .running
            .iter()
            .map(|w| WorkloadStatus { id: w.id, phase: WorkloadPhase::Running })
            .collect();
        Ok(NodeReport {
            node: self.node,
            epoch: self.epoch,
            capacity: self.capacity,
            observed_load: Mass(observed),
            workloads,
        })
    }
}

#[test]
fn intent_round_trips_through_the_contract() {
    let mut agent = MockAgent::<2> {
        node: MachineId(1),
        capacity: Capacity([100, 100]),
        epoch: 0,
        running: Vec::new(),
    };

    let intent = NodeIntent {
        node: MachineId(1),
        epoch: 1,
        desired: vec![
            WorkloadSpec { id: WorkloadId(10), image: "nginx".into(), request: Mass([30, 20]) },
            WorkloadSpec { id: WorkloadId(11), image: "redis".into(), request: Mass([10, 40]) },
        ],
    };
    agent.apply_intent(&intent).unwrap();

    let report = agent.report().unwrap();
    assert_eq!(report.epoch, 1);
    assert_eq!(report.observed_load, Mass([40, 60]));
    assert_eq!(report.workloads.len(), 2);
    assert!(report.workloads.iter().all(|w| w.phase == WorkloadPhase::Running));
}

#[test]
fn stale_epoch_is_rejected() {
    let mut agent = MockAgent::<1> {
        node: MachineId(1),
        capacity: Capacity([100]),
        epoch: 5,
        running: Vec::new(),
    };
    let stale = NodeIntent { node: MachineId(1), epoch: 4, desired: Vec::new() };
    assert_eq!(agent.apply_intent(&stale), Err(AgentError::StaleEpoch { intent: 4, current: 5 }),);
}

#[test]
fn wrong_node_is_rejected() {
    let mut agent = MockAgent::<1> {
        node: MachineId(1),
        capacity: Capacity([100]),
        epoch: 0,
        running: Vec::new(),
    };
    let misrouted = NodeIntent { node: MachineId(2), epoch: 1, desired: Vec::new() };
    assert_eq!(agent.apply_intent(&misrouted), Err(AgentError::UnknownNode(MachineId(2))));
}
