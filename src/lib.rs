//! Units of measure: a zero-cost `Measure<T, U>` wrapper whose unit `U` is a
//! type-level expression, together with the analysis that decides whether two
//! unit expressions denote the same physical dimension.
//!
//! The analysis sees a unit expression as an element of the free abelian group
//! over its generators (base units and free type parameters): it normalizes
//! each side of every `unify` call to a map from generator to signed exponent
//! and reports the calls whose two sides differ.
use vstd::prelude::*;

pub mod expr;
pub mod laws;
pub mod normal;
pub mod render;
pub mod classify;
pub mod canonical;
pub mod check;
mod private;
pub mod unit;
pub mod si;
pub mod logics;
