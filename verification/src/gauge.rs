//! The Schur-convex gauge family.
//!
//! A gauge is a real-valued function on a fleet snapshot. The gauges that the
//! move algebra is sound for are the Ky Fan k-norms of the per-machine
//! worst-dimension utilization vector and their non-negative combinations.
//! This module holds the sealed marker and the unit gauge types; their
//! floating-point evaluation lives outside the verified core. The bounds
//! they stand for are stated over exact utilizations in `crate::laws` (the
//! ℓ∞ member) and `crate::ky_fan` (every k).

use vstd::prelude::*;

use crate::sealed::Sealed;

verus! {

/// Marker for Schur-convex gauges over `N`-dimensional fleets.
///
/// Sealed: the only member defined here is [`SumTopK`], the Ky Fan k-norm,
/// which by Ky Fan dominance generates the majorization order.
pub trait SchurConvex<const N: usize>: Sealed {}

/// Sum of the `K` largest per-machine worst-dimension utilizations — the
/// Ky Fan k-norm of the fleet's worst-dimension utilization vector.
#[derive(Clone, Copy, Debug, Default)]
pub struct SumTopK<const K: usize, const N: usize>;

impl<const K: usize, const N: usize> Sealed for SumTopK<K, N> {}

impl<const K: usize, const N: usize> SchurConvex<N> for SumTopK<K, N> {}

/// The ℓ∞ gauge: worst machine, worst dimension.
pub type Linfty<const N: usize> = SumTopK<1, N>;

} // verus!
