//! The base units of the international system of units.
use vstd::prelude::*;
use crate::unit::BaseUnit;

verus! {

/// Base unit of time.
#[derive(Clone, Copy, Debug, PartialEq, Eq, PartialOrd, Ord, Hash, Default)]
pub struct Second;

impl BaseUnit for Second {
    const NAME: &'static str = "s";
}

/// Base unit of length.
#[derive(Clone, Copy, Debug, PartialEq, Eq, PartialOrd, Ord, Hash, Default)]
pub struct Meter;

impl BaseUnit for Meter {
    const NAME: &'static str = "m";
}

/// Base unit of mass.
#[derive(Clone, Copy, Debug, PartialEq, Eq, PartialOrd, Ord, Hash, Default)]
pub struct Kg;

impl BaseUnit for Kg {
    const NAME: &'static str = "kg";
}

/// Base unit of electrical current.
#[derive(Clone, Copy, Debug, PartialEq, Eq, PartialOrd, Ord, Hash, Default)]
pub struct Ampere;

impl BaseUnit for Ampere {
    const NAME: &'static str = "A";
}

/// Base unit of temperature.
#[derive(Clone, Copy, Debug, PartialEq, Eq, PartialOrd, Ord, Hash, Default)]
pub struct Kelvin;

impl BaseUnit for Kelvin {
    const NAME: &'static str = "K";
}

/// Base unit of amount of substance.
#[derive(Clone, Copy, Debug, PartialEq, Eq, PartialOrd, Ord, Hash, Default)]
pub struct Mole;

impl BaseUnit for Mole {
    const NAME: &'static str = "mol";
}

/// Base unit of luminous intensity.
#[derive(Clone, Copy, Debug, PartialEq, Eq, PartialOrd, Ord, Hash, Default)]
pub struct Candela;

impl BaseUnit for Candela {
    const NAME: &'static str = "cd";
}

} // verus!
