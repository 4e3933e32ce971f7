//! The seal that keeps the unit traits closed to other crates.
use vstd::prelude::*;

verus! {

/// A trait that cannot be implemented outside this crate.
pub trait Sealed {}

} // verus!
