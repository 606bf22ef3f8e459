//! The governor protocol: the nouns and the one contract that cross the
//! boundary between the controller (the authority holding the desired
//! placement) and the sled-agents (one per node, each the sole writer of its
//! node's reality).
//!
//! The controller publishes, per node, the complete desired set of workloads
//! as a [`NodeIntent`]; the agent reconciles its reality to it. Reports carry
//! observed state, which may diverge from desired.

use vstd::prelude::*;
use crate::load::{Capacity, MachineId, Mass};

verus! {

/// Stable identity of a managed workload.
#[derive(Clone, Copy, Debug, PartialEq, Eq, PartialOrd, Ord, Hash, Structural)]
pub struct WorkloadId(pub u64);

/// What to run and what it costs: `request` is the mass it adds to its node.
#[derive(Clone, Debug, PartialEq, Eq)]
pub struct WorkloadSpec<const N: usize> {
    pub id: WorkloadId,
    /// Container image reference.
    pub image: String,
    /// Resource footprint.
    pub request: Mass<N>,
}

/// The controller's complete desired workload set for one node, as of `epoch`.
#[derive(Clone, Debug, PartialEq, Eq)]
pub struct NodeIntent<const N: usize> {
    pub node: MachineId,
    /// Monotonic generation counter, against out-of-order delivery.
    pub epoch: u64,
    pub desired: Vec<WorkloadSpec<N>>,
}

/// Where a workload is in its lifecycle, as the agent observes it.
#[derive(Clone, Copy, Debug, PartialEq, Eq, Structural)]
pub enum WorkloadPhase {
    /// Accepted into the desired set; not yet running.
    Pending,
    /// Running and healthy.
    Running,
    /// Exited non-zero or could not be started.
    Failed,
}

/// One workload's observed status on a node.
#[derive(Clone, Copy, Debug, PartialEq, Eq, Structural)]
pub struct WorkloadStatus {
    pub id: WorkloadId,
    pub phase: WorkloadPhase,
}

/// What one node reports: capacity, observed load and per-workload status,
/// tagged with the epoch of the intent it reflects.
#[derive(Clone, Debug, PartialEq, Eq)]
pub struct NodeReport<const N: usize> {
    pub node: MachineId,
    pub epoch: u64,
    pub capacity: Capacity<N>,
    /// Observed, not desired. May exceed capacity.
    pub observed_load: Mass<N>,
    pub workloads: Vec<WorkloadStatus>,
}

/// Errors crossing the controller↔agent boundary.
#[derive(Clone, Debug, PartialEq, Eq)]
pub enum AgentError {
    /// This agent does not manage the node id in the request.
    UnknownNode(MachineId),
    /// The agent could not be reached.
    Unreachable,
    /// The agent has already applied a newer intent.
    StaleEpoch { intent: u64, current: u64 },
    /// Reconciliation failed at the runtime.
    ReconcileFailed(String),
}

/// The controller↔agent contract, implemented by agents (an in-process mock,
/// a network adapter driving a container runtime).
pub trait SledAgent<const N: usize> {
    /// Publish the complete desired set for this node. Idempotent; rejects
    /// intents older than the last applied.
    fn apply_intent(&mut self, intent: &NodeIntent<N>) -> Result<(), AgentError>;

    /// Fetch the node's current observed state.
    fn report(&self) -> Result<NodeReport<N>, AgentError>;
}

} // verus!
