//! # Fulcrum
//!
//! A typed move algebra for load-balancing invariants. A fleet of machines
//! carries an N-dimensional load and capacity per machine; moves of mass
//! between machines are classified by their effect on the utilization
//! vector (load ÷ capacity). Transfers that are Pigou-Dalton in every
//! dimension where mass moves are admitted by a witness check and can be
//! applied without re-evaluating any gauge; everything else is catch-all.
//!
//! This crate holds the integer core of the algebra with its contracts:
//! the fleet, the move kinds and their witnesses, the exact utilization
//! order, the laws that the typed-pure moves keep the worst-machine and Ky
//! Fan gauge bounds, the reference planners' decision logic, the move
//! history, the trace-replay classifier and row reader, the twin's seeded
//! workload stream, and the controller/agent protocol.

pub mod alphabet;
pub mod borg_row;
pub mod cluster;
pub mod controller;
pub mod gauge;
pub mod ky_fan;
pub mod laws;
pub mod load;
pub mod move_kind;
pub mod planner;
pub mod proto;
pub mod replay;
pub mod rng;
mod sealed;
pub mod trace;
pub mod trace_csv;
pub mod twin;
pub mod util;

pub use alphabet::{Derived, Effect, Primitive};
pub use load::{Capacity, Fleet, FleetError, MachineId, MachineSpec, Mass};
pub use move_kind::{ColdToHot, HotToCold, Neutral, Place, Remove};
pub use trace::{MoveHistory, MoveRecord};
pub use cluster::ResourceDim;
pub use controller::ReconcileReport;
pub use gauge::{Linfty, SchurConvex, SumTopK};
pub use planner::{BestFitDecreasing, LeastLoaded, PowerOfTwo, TypedMove};
pub use proto::{
    AgentError, NodeIntent, NodeReport, SledAgent, WorkloadId, WorkloadPhase, WorkloadSpec,
    WorkloadStatus,
};
pub use replay::{Counters, EventKind, ParsedEvent};
pub use twin::{SimStats, WorkloadGen};
