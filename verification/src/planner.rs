//! Typed moves and the reference planners' decision logic.
//!
//! A planner decides which typed move to emit next from the current fleet;
//! the move algebra guarantees each move's correctness. The decision of each
//! reference planner is a function of its own state and the fleet, stated
//! here exactly:
//!
//! | Planner             | Move kind   | Decision                                  |
//! | ------------------- | ----------- | ----------------------------------------- |
//! | `LeastLoaded`       | `Place`     | lowest worst-dimension utilization        |
//! | `PowerOfTwo`        | `Place`     | lesser of two seeded random samples       |
//! | `BestFitDecreasing` | `Place`     | tightest feasible fit, items by size desc |
//! | max-min fair        | `HotToCold` | hottest → coolest, halve the gap          |

pub mod best_fit_decreasing;
pub mod least_loaded;
pub mod max_min_fair;
pub mod power_of_two;

use vstd::prelude::*;
use crate::move_kind::{ColdToHot, HotToCold, Neutral, Place, Remove};
use crate::trace::MoveRecord;

pub use best_fit_decreasing::BestFitDecreasing;
pub use least_loaded::LeastLoaded;
pub use power_of_two::PowerOfTwo;

verus! {

/// A typed move emitted by a planner: one of the five move kinds.
pub enum TypedMove<const N: usize> {
    Remove(Remove<N>),
    HotToCold(HotToCold<N>),
    Neutral(Neutral<N>),
    ColdToHot(ColdToHot<N>),
    Place(Place<N>),
}

impl<const N: usize> TypedMove<N> {
    /// Remove, HotToCold and Neutral are typed-pure.
    pub open spec fn spec_is_typed_pure(&self) -> bool {
        self is Remove || self is HotToCold || self is Neutral
    }

    /// Whether the underlying primitive's apply is total.
    pub fn is_typed_pure(&self) -> (r: bool)
        ensures
            r == self.spec_is_typed_pure(),
    {
        match self {
            TypedMove::Remove(_) | TypedMove::HotToCold(_) | TypedMove::Neutral(_) => true,
            TypedMove::ColdToHot(_) | TypedMove::Place(_) => false,
        }
    }

    /// Human-readable kind name.
    pub fn kind_name(&self) -> (r: &'static str)
        ensures
            r@ == (match self {
                TypedMove::Remove(_) => "Remove"@,
                TypedMove::HotToCold(_) => "HotToCold"@,
                TypedMove::Neutral(_) => "Neutral"@,
                TypedMove::ColdToHot(_) => "ColdToHot"@,
                TypedMove::Place(_) => "Place"@,
            }),
    {
        match self {
            TypedMove::Remove(_) => "Remove",
            TypedMove::HotToCold(_) => "HotToCold",
            TypedMove::Neutral(_) => "Neutral",
            TypedMove::ColdToHot(_) => "ColdToHot",
            TypedMove::Place(_) => "Place",
        }
    }
}

/// The history record of a move: same kind, same machines, same mass.
pub open spec fn spec_record_of<const N: usize>(mv: TypedMove<N>) -> MoveRecord<N> {
    match mv {
        TypedMove::Remove(m) => MoveRecord::Remove { machine: m.machine, mass: m.mass },
        TypedMove::HotToCold(m) => MoveRecord::HotToCold {
            source: m.source,
            destination: m.destination,
            mass: m.mass,
        },
        TypedMove::Neutral(m) => MoveRecord::Neutral {
            source: m.source,
            destination: m.destination,
            mass: m.mass,
        },
        TypedMove::ColdToHot(m) => MoveRecord::ColdToHot {
            source: m.source,
            destination: m.destination,
            mass: m.mass,
        },
        TypedMove::Place(m) => MoveRecord::Place { machine: m.machine, mass: m.mass },
    }
}

/// Reconstruct a `MoveRecord` from a `TypedMove` for the history.
pub fn record_of<const N: usize>(mv: &TypedMove<N>) -> (r: MoveRecord<N>)
    ensures
        r == spec_record_of(*mv),
        r.spec_is_typed_pure() == mv.spec_is_typed_pure(),
{
    match mv {
        TypedMove::Remove(m) => MoveRecord::Remove { machine: m.machine, mass: m.mass },
        TypedMove::HotToCold(m) => MoveRecord::HotToCold {
            source: m.source,
            destination: m.destination,
            mass: m.mass,
        },
        TypedMove::Neutral(m) => MoveRecord::Neutral {
            source: m.source,
            destination: m.destination,
            mass: m.mass,
        },
        TypedMove::ColdToHot(m) => MoveRecord::ColdToHot {
            source: m.source,
            destination: m.destination,
            mass: m.mass,
        },
        TypedMove::Place(m) => MoveRecord::Place { machine: m.machine, mass: m.mass },
    }
}


/// The typed-pure moves are exactly `Remove`, `HotToCold` and `Neutral`,
/// and a move's history record is typed-pure exactly when the move is.
pub proof fn law_typed_move_kinds<const N: usize>(mv: TypedMove<N>)
    ensures
        mv is Remove ==> mv.spec_is_typed_pure(),
        mv is HotToCold ==> mv.spec_is_typed_pure(),
        mv is Neutral ==> mv.spec_is_typed_pure(),
        mv is ColdToHot ==> !mv.spec_is_typed_pure(),
        mv is Place ==> !mv.spec_is_typed_pure(),
        spec_record_of(mv).spec_is_typed_pure() == mv.spec_is_typed_pure(),
{
}

} // verus!
