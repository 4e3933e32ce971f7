//! Reading a unit expression off a type that the host type checker resolved.
use vstd::prelude::*;
use crate::expr::{occurrences, Generator, GeneratorKey, UnitExpr};

verus! {

/// The marker that a type's declaration carries, if any.
#[derive(Clone, Copy, Debug, PartialEq, Eq, Structural)]
pub enum Marker {
    /// No combinator marker: the type is a base unit.
    Plain,
    /// The product combinator: a unit of two units.
    Product,
    /// The inverse combinator: the reciprocal of one unit.
    Inverse,
    /// The dimensionless unit.
    Identity,
}

/// A type as the host type checker resolved it.
#[derive(Debug)]
pub enum HostType {
    /// A nominal type: its declaration, that declaration's path and marker,
    /// and its generic arguments.
    Adt { decl: u64, name: String, marker: Marker, args: Vec<HostType> },
    /// A free type parameter: the `index`th of declaration `owner`.
    Param { owner: u64, index: u64, name: String },
    /// A type of any other shape, among them a type that is already in error.
    Unresolved,
}

/// Why a type is no unit expression.
#[derive(Clone, Copy, Debug, PartialEq, Eq, Structural)]
pub enum ClassifyError {
    /// Part of the type is unresolved: the host checker reports it already.
    TypeUnresolved,
    /// A combinator has the wrong number of generic arguments: the marker
    /// vocabulary was misused by the unit library itself.
    MarkerShapeViolation,
}

/// The number of generic arguments that each combinator takes.
pub open spec fn arity_ok(marker: Marker, n: nat) -> bool {
    match marker {
        Marker::Plain => true,
        Marker::Product => n == 2,
        Marker::Inverse => n == 1,
        Marker::Identity => n == 0,
    }
}

/// The unit expression that a type stands for; the first failure met, left
/// to right, where it stands for none.
pub open spec fn unit_of(t: HostType) -> Result<UnitExpr, ClassifyError>
    decreases t,
{
    match t {
        HostType::Adt { decl, name, marker, args } => {
            if !arity_ok(marker, args@.len()) {
                Err(ClassifyError::MarkerShapeViolation)
            } else {
                match marker {
                    Marker::Plain => Ok(
                        UnitExpr::Generator(Generator { key: GeneratorKey::Base { decl }, name }),
                    ),
                    Marker::Identity => Ok(UnitExpr::Identity),
                    Marker::Inverse => match unit_of(args@[0]) {
                        Ok(a) => Ok(UnitExpr::Inverse(Box::new(a))),
                        Err(err) => Err(err),
                    },
                    Marker::Product => match unit_of(args@[0]) {
                        Ok(a) => match unit_of(args@[1]) {
                            Ok(b) => Ok(UnitExpr::Product(Box::new(a), Box::new(b))),
                            Err(err) => Err(err),
                        },
                        Err(err) => Err(err),
                    },
                }
            }
        },
        HostType::Param { owner, index, name } => Ok(
            UnitExpr::Generator(Generator { key: GeneratorKey::Param { owner, index }, name }),
        ),
        HostType::Unresolved => Err(ClassifyError::TypeUnresolved),
    }
}

/// The number of nodes of a type.
pub open spec fn type_size(t: HostType) -> nat
    decreases t,
{
    match t {
        HostType::Adt { args, .. } => 1 + if args@.len() == 0 {
            0
        } else if args@.len() == 1 {
            type_size(args@[0])
        } else {
            type_size(args@[0]) + type_size(args@[1])
        },
        _ => 1,
    }
}

/// A unit expression read off a type has no more generator occurrences than
/// the type has nodes.
pub proof fn lemma_occurrences_within_size(t: HostType)
    ensures
        unit_of(t) is Ok ==> occurrences(unit_of(t)->Ok_0) <= type_size(t),
    decreases t,
{
    match t {
        HostType::Adt { args, .. } => {
            if args@.len() >= 1 {
                lemma_occurrences_within_size(args@[0]);
            }
            if args@.len() >= 2 {
                lemma_occurrences_within_size(args@[1]);
            }
        },
        _ => {},
    }
}

/// The unit expression that a type stands for.
pub fn classify(t: &HostType) -> (r: Result<UnitExpr, ClassifyError>)
    ensures
        r == unit_of(*t),
    decreases t,
{
    match t {
        HostType::Adt { decl, name, marker, args } => {
            let ok = match marker {
                Marker::Plain => true,
                Marker::Product => args.len() == 2,
                Marker::Inverse => args.len() == 1,
                Marker::Identity => args.len() == 0,
            };
            if !ok {
                return Err(ClassifyError::MarkerShapeViolation);
            }
            match marker {
                Marker::Plain => Ok(
                    UnitExpr::Generator(
                        Generator::new(GeneratorKey::Base { decl: *decl }, name.clone()),
                    ),
                ),
                Marker::Identity => Ok(UnitExpr::Identity),
                Marker::Inverse => {
                    let a = classify(&args[0])?;
                    Ok(UnitExpr::Inverse(Box::new(a)))
                },
                Marker::Product => {
                    let a = classify(&args[0])?;
                    let b = classify(&args[1])?;
                    Ok(UnitExpr::Product(Box::new(a), Box::new(b)))
                },
            }
        },
        HostType::Param { owner, index, name } => Ok(
            UnitExpr::Generator(
                Generator::new(GeneratorKey::Param { owner: *owner, index: *index }, name.clone()),
            ),
        ),
        HostType::Unresolved => Err(ClassifyError::TypeUnresolved),
    }
}

} // verus!
