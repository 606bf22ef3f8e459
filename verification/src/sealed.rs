//! The seal on the primitive alphabet: only this crate can name it.

use vstd::prelude::*;

verus! {

/// Implemented only by the five primitive move kinds.
pub trait Sealed {}

} // verus!
