//! The sealed alphabet of move kinds.
//!
//! Every primitive declares the mathematical effect it has on a load vector.
//! Typed-pure effects (mass-decreasing, Pigou-Dalton, permutation) admit a
//! total `apply`; catch-all effects (mass-increasing, mass-preserving but
//! not majorization-decreasing) require a runtime recheck.

use vstd::prelude::*;

pub use crate::sealed::Sealed;

verus! {

/// The five effect categories an operation on a load vector can have.
#[derive(Clone, Copy, Debug, PartialEq, Eq, Structural)]
pub enum Effect {
    /// Mass strictly decreases.
    MassDecreasing,
    /// Mass-preserving rich → poor transfer within the gap.
    PigouDalton,
    /// Mass-preserving exchange between equally-loaded coordinates.
    Permutation,
    /// Mass strictly increases.
    MassIncreasing,
    /// Mass-preserving but not majorization-decreasing.
    MassPreservingFree,
}

impl Effect {
    /// Typed-pure effects: mass-decreasing, Pigou-Dalton and permutation.
    pub open spec fn spec_is_typed_pure(self) -> bool {
        self is MassDecreasing || self is PigouDalton || self is Permutation
    }

    /// Whether this effect admits a total `apply`.
    pub fn is_typed_pure(self) -> (r: bool)
        ensures
            r == self.spec_is_typed_pure(),
    {
        match self {
            Effect::MassDecreasing | Effect::PigouDalton | Effect::Permutation => true,
            Effect::MassIncreasing | Effect::MassPreservingFree => false,
        }
    }
}

/// A primitive of the move alphabet. Sealed: only the five move kinds of
/// this crate implement it.
pub trait Primitive: Sealed {
    /// The effect this primitive has on a load vector.
    const EFFECT: Effect;
    /// Citation for the totality / well-definedness argument.
    const THEOREM: &'static str;
    /// Human-readable name.
    const NAME: &'static str;
}

/// Marker for convenience moves outside the sealed alphabet; they are meant
/// to decompose into primitive moves.
pub trait Derived {
    /// How this derived move composes from primitives.
    const DECOMPOSITION: &'static str;
}


/// The typed-pure effects are mass-decreasing, Pigou-Dalton and
/// permutation; mass-increasing and free mass-preserving effects are not.
pub proof fn law_typed_pure_effects(e: Effect)
    ensures
        e is MassDecreasing ==> e.spec_is_typed_pure(),
        e is PigouDalton ==> e.spec_is_typed_pure(),
        e is Permutation ==> e.spec_is_typed_pure(),
        e is MassIncreasing ==> !e.spec_is_typed_pure(),
        e is MassPreservingFree ==> !e.spec_is_typed_pure(),
{
}

} // verus!
