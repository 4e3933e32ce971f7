//! The algebra that normalization obeys: it maps unit expressions into the
//! free abelian group over generators.
use vstd::prelude::*;
use crate::check::{analysis, reports, views, Mismatch, TypedBody};
use crate::classify::ClassifyError;
use crate::expr::{exponent, merge, negate, normal_form, Generator, UnitExpr};

verus! {

/// The normalized form of a product is the pointwise sum of the normalized
/// forms of its factors.
pub proof fn lemma_product_is_merge(a: UnitExpr, b: UnitExpr)
    ensures
        normal_form(UnitExpr::Product(Box::new(a), Box::new(b)))
            == merge(normal_form(a), normal_form(b)),
{
    assert(normal_form(UnitExpr::Product(Box::new(a), Box::new(b)))
        =~= merge(normal_form(a), normal_form(b)));
}

/// The normalized form of an inverse is that of its operand with every
/// exponent's sign flipped.
pub proof fn lemma_inverse_negates(a: UnitExpr)
    ensures
        normal_form(UnitExpr::Inverse(Box::new(a))) == negate(normal_form(a)),
{
    assert(normal_form(UnitExpr::Inverse(Box::new(a))) =~= negate(normal_form(a)));
}

/// Multiplying by the dimensionless unit changes nothing.
pub proof fn lemma_identity_is_neutral(a: UnitExpr)
    ensures
        normal_form(UnitExpr::Product(Box::new(a), Box::new(UnitExpr::Identity)))
            == normal_form(a),
{
    reveal_with_fuel(exponent, 2);
    assert(normal_form(UnitExpr::Product(Box::new(a), Box::new(UnitExpr::Identity)))
        =~= normal_form(a));
}

/// A generator times its inverse is the empty mapping.
pub proof fn lemma_cancellation(g: Generator)
    ensures
        normal_form(
            UnitExpr::Product(
                Box::new(UnitExpr::Generator(g)),
                Box::new(UnitExpr::Inverse(Box::new(UnitExpr::Generator(g)))),
            ),
        ) == Map::<crate::expr::GeneratorKey, int>::empty(),
{
    let e = UnitExpr::Product(
        Box::new(UnitExpr::Generator(g)),
        Box::new(UnitExpr::Inverse(Box::new(UnitExpr::Generator(g)))),
    );
    reveal_with_fuel(exponent, 3);
    assert(normal_form(e) =~= Map::empty());
}

/// The order of the factors of a product does not matter.
pub proof fn lemma_product_commutes(a: UnitExpr, b: UnitExpr)
    ensures
        normal_form(UnitExpr::Product(Box::new(a), Box::new(b)))
            == normal_form(UnitExpr::Product(Box::new(b), Box::new(a))),
{
    assert(normal_form(UnitExpr::Product(Box::new(a), Box::new(b)))
        =~= normal_form(UnitExpr::Product(Box::new(b), Box::new(a))));
}

/// The nesting of products does not matter.
pub proof fn lemma_product_associates(a: UnitExpr, b: UnitExpr, c: UnitExpr)
    ensures
        normal_form(
            UnitExpr::Product(
                Box::new(UnitExpr::Product(Box::new(a), Box::new(b))),
                Box::new(c),
            ),
        ) == normal_form(
            UnitExpr::Product(
                Box::new(a),
                Box::new(UnitExpr::Product(Box::new(b), Box::new(c))),
            ),
        ),
{
    let l = UnitExpr::Product(Box::new(UnitExpr::Product(Box::new(a), Box::new(b))), Box::new(c));
    let r = UnitExpr::Product(Box::new(a), Box::new(UnitExpr::Product(Box::new(b), Box::new(c))));
    reveal_with_fuel(exponent, 3);
    assert forall|k| exponent(l, k) == exponent(r, k) by {}
    assert(normal_form(l) =~= normal_form(r));
}

/// Checking is a function of the body alone: two runs of the checker over
/// the same typed body report the same mismatches, or the same error.
pub proof fn lemma_check_idempotent(
    body: TypedBody,
    first: Result<Vec<Mismatch>, ClassifyError>,
    second: Result<Vec<Mismatch>, ClassifyError>,
)
    requires
        reports(first, analysis(body)),
        reports(second, analysis(body)),
    ensures
        match (first, second) {
            (Ok(a), Ok(b)) => views(a@) == views(b@),
            (Err(x), Err(y)) => x == y,
            _ => false,
        },
{
}

} // verus!
