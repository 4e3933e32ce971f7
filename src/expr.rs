//! Unit expressions and their meaning as elements of the free abelian group
//! over generators.
use vstd::prelude::*;

verus! {

/// Stable identity of a generator: never its display name.
#[derive(Clone, Copy, Debug, PartialEq, Eq, Structural)]
pub enum GeneratorKey {
    /// A base unit, keyed by the nominal identity of its declaration.
    Base { decl: u64 },
    /// A free type parameter, keyed by its owning declaration and its index there.
    Param { owner: u64, index: u64 },
}

/// An atomic unit dimension: its identity and the name shown in diagnostics.
#[derive(Debug)]
pub struct Generator {
    pub key: GeneratorKey,
    pub name: String,
}

impl Generator {
    pub fn new(key: GeneratorKey, name: String) -> (r: Generator)
        ensures
            r.key == key,
            r.name == name,
    {
        Generator { key, name }
    }

    /// A copy of this generator.
    pub fn duplicate(&self) -> (r: Generator)
        ensures
            r == *self,
    {
        Generator { key: self.key, name: self.name.clone() }
    }
}

/// A unit expression, built structurally from generators.
#[derive(Debug)]
pub enum UnitExpr {
    /// The dimensionless unit.
    Identity,
    /// An atomic unit.
    Generator(Generator),
    /// Two units combined multiplicatively.
    Product(Box<UnitExpr>, Box<UnitExpr>),
    /// The reciprocal of a unit.
    Inverse(Box<UnitExpr>),
}

/// The exponent of generator `k` in `e`: the number of its occurrences under
/// an even number of inversions minus those under an odd number.
pub open spec fn exponent(e: UnitExpr, k: GeneratorKey) -> int
    decreases e,
{
    match e {
        UnitExpr::Identity => 0,
        UnitExpr::Generator(g) => if g.key == k { 1 } else { 0 },
        UnitExpr::Product(a, b) => exponent(*a, k) + exponent(*b, k),
        UnitExpr::Inverse(a) => -exponent(*a, k),
    }
}

/// The normalized form of `e`: each generator with a nonzero exponent, mapped
/// to that exponent.
pub open spec fn normal_form(e: UnitExpr) -> Map<GeneratorKey, int> {
    Map::new(|k: GeneratorKey| exponent(e, k) != 0, |k: GeneratorKey| exponent(e, k))
}

/// The exponent that a normalized form gives to `k` (0 where it has none).
pub open spec fn exponent_in(m: Map<GeneratorKey, int>, k: GeneratorKey) -> int {
    if m.contains_key(k) { m[k] } else { 0 }
}

/// The product of two normalized forms: exponents add, and those that reach
/// 0 leave the map.
pub open spec fn merge(m1: Map<GeneratorKey, int>, m2: Map<GeneratorKey, int>) -> Map<GeneratorKey, int> {
    Map::new(
        |k: GeneratorKey| exponent_in(m1, k) + exponent_in(m2, k) != 0,
        |k: GeneratorKey| exponent_in(m1, k) + exponent_in(m2, k),
    )
}

/// The inverse of a normalized form: every exponent changes sign.
pub open spec fn negate(m: Map<GeneratorKey, int>) -> Map<GeneratorKey, int> {
    Map::new(|k: GeneratorKey| m.contains_key(k), |k: GeneratorKey| -m[k])
}

/// The number of generator occurrences in `e`: a bound on every exponent.
pub open spec fn occurrences(e: UnitExpr) -> nat
    decreases e,
{
    match e {
        UnitExpr::Identity => 0,
        UnitExpr::Generator(_) => 1,
        UnitExpr::Product(a, b) => occurrences(*a) + occurrences(*b),
        UnitExpr::Inverse(a) => occurrences(*a),
    }
}

/// The name that the leftmost occurrence of `k` in `e` carries, if `k` occurs.
pub open spec fn first_name(e: UnitExpr, k: GeneratorKey) -> Option<Seq<char>>
    decreases e,
{
    match e {
        UnitExpr::Identity => None,
        UnitExpr::Generator(g) => if g.key == k { Some(g.name@) } else { None },
        UnitExpr::Product(a, b) => match first_name(*a, k) {
            Some(n) => Some(n),
            None => first_name(*b, k),
        },
        UnitExpr::Inverse(a) => first_name(*a, k),
    }
}

/// Every exponent is bounded by the number of occurrences.
pub proof fn lemma_exponent_bounded(e: UnitExpr, k: GeneratorKey)
    ensures
        -(occurrences(e) as int) <= exponent(e, k) <= occurrences(e) as int,
    decreases e,
{
    match e {
        UnitExpr::Identity => {},
        UnitExpr::Generator(_) => {},
        UnitExpr::Product(a, b) => {
            lemma_exponent_bounded(*a, k);
            lemma_exponent_bounded(*b, k);
        },
        UnitExpr::Inverse(a) => {
            lemma_exponent_bounded(*a, k);
        },
    }
}

} // verus!
