//! Unit combinators exposed for writing unit proofs by hand.
use vstd::prelude::*;
use std::marker::PhantomData;
use crate::private::Sealed;
use crate::unit::{RuntimeUnit, Unit};

verus! {

/// The dimensionless unit.
#[derive(Clone, Copy, Debug, PartialEq, Eq, PartialOrd, Ord, Hash, Default)]
pub struct PDimensionless;

impl Sealed for PDimensionless {}

impl Unit for PDimensionless {
    open spec fn occurrences() -> nat {
        0
    }

    open spec fn exponent_by_name(name: Seq<char>) -> int {
        0
    }

    fn add_to_runtime(repr: &mut RuntimeUnit, positive: bool) {
    }
}

/// Type-level product.
#[derive(Debug)]
pub struct PMul<A: Unit, B: Unit> {
    left: PhantomData<A>,
    right: PhantomData<B>,
}

impl<A: Unit, B: Unit> Sealed for PMul<A, B> {}

impl<A: Unit, B: Unit> Unit for PMul<A, B> {
    open spec fn occurrences() -> nat {
        A::occurrences() + B::occurrences()
    }

    open spec fn exponent_by_name(name: Seq<char>) -> int {
        A::exponent_by_name(name) + B::exponent_by_name(name)
    }

    fn add_to_runtime(repr: &mut RuntimeUnit, positive: bool) {
        let ghost n = i64::MAX - A::occurrences() - B::occurrences();
        A::add_to_runtime(repr, positive);
        proof {
            assert(repr.within(n + A::occurrences()));
        }
        B::add_to_runtime(repr, positive);
    }
}

/// Type-level inversion.
#[derive(Debug)]
pub struct PInv<A: Unit> {
    inner: PhantomData<A>,
}

impl<A: Unit> Sealed for PInv<A> {}

impl<A: Unit> Unit for PInv<A> {
    open spec fn occurrences() -> nat {
        A::occurrences()
    }

    open spec fn exponent_by_name(name: Seq<char>) -> int {
        -A::exponent_by_name(name)
    }

    fn add_to_runtime(repr: &mut RuntimeUnit, positive: bool) {
        A::add_to_runtime(repr, !positive);
    }
}

} // verus!
