use yaiouom::check::{DimAnalyzer, ExprKind, Mismatch, Span, TypedBody, TypedExpr};
use yaiouom::classify::{ClassifyError, HostType, Marker};

fn base(decl: u64, name: &str) -> HostType {
    HostType::Adt { decl, name: name.to_string(), marker: Marker::Plain, args: vec![] }
}

fn meter() -> HostType {
    base(1, "m")
}

fn second() -> HostType {
    base(2, "s")
}

fn kilometer() -> HostType {
    base(3, "km")
}

fn param(owner: u64, index: u64, name: &str) -> HostType {
    HostType::Param { owner, index, name: name.to_string() }
}

fn mul(a: HostType, b: HostType) -> HostType {
    HostType::Adt { decl: 100, name: "Mul".to_string(), marker: Marker::Product, args: vec![a, b] }
}

fn inv(a: HostType) -> HostType {
    HostType::Adt { decl: 101, name: "Inv".to_string(), marker: Marker::Inverse, args: vec![a] }
}

fn dimensionless() -> HostType {
    HostType::Adt { decl: 102, name: "Dimensionless".to_string(), marker: Marker::Identity, args: vec![] }
}

fn span(lo: u64) -> Span {
    Span { lo, hi: lo + 5 }
}

fn unify_call(at: u64, source: HostType, target: HostType) -> TypedExpr {
    TypedExpr {
        span: span(at),
        kind: ExprKind::MethodCall { callee_is_unify: true, type_args: vec![base(50, "f64"), source, target] },
        children: vec![],
    }
}

fn body_of(children: Vec<TypedExpr>) -> TypedBody {
    TypedBody {
        decl_span: span(0),
        is_closure: false,
        has_prior_errors: false,
        root: TypedExpr { span: span(1), kind: ExprKind::Other, children },
    }
}

fn check(source: HostType, target: HostType) -> Vec<Mismatch> {
    DimAnalyzer::new(body_of(vec![unify_call(10, source, target)])).analyze().unwrap()
}

#[test]
fn order_of_factors_does_not_matter() {
    let found = check(mul(meter(), inv(second())), mul(inv(second()), meter()));
    assert!(found.is_empty());
}

#[test]
fn cancelled_factors_vanish() {
    let found = check(mul(mul(meter(), second()), inv(second())), meter());
    assert!(found.is_empty());
}

#[test]
fn distinct_base_units_mismatch() {
    let found = check(mul(kilometer(), inv(second())), mul(meter(), inv(second())));
    assert_eq!(found.len(), 1);
    assert_eq!(found[0].expected, "km * s^-1");
    assert_eq!(found[0].found, "m * s^-1");
    assert_eq!(found[0].span, span(10));
    assert_eq!(found[0].decl_span, span(0));
}

#[test]
fn own_type_parameters_unify() {
    let a = || param(10, 0, "A");
    let b = || param(10, 1, "B");
    let found = check(mul(a(), inv(b())), mul(a(), inv(b())));
    assert!(found.is_empty());
}

#[test]
fn same_named_parameters_of_sibling_functions_differ() {
    let found = check(param(10, 0, "A"), param(11, 0, "A"));
    assert_eq!(found.len(), 1);
    assert_eq!(found[0].expected, "A");
    assert_eq!(found[0].found, "A");
}

#[test]
fn identity_is_neutral_in_a_check() {
    let found = check(mul(meter(), dimensionless()), meter());
    assert!(found.is_empty());
}

#[test]
fn trivial_unify_goes_through_the_check() {
    let found = check(meter(), meter());
    assert!(found.is_empty());
    let found = check(meter(), second());
    assert_eq!(found.len(), 1);
    assert_eq!(found[0].expected, "m");
    assert_eq!(found[0].found, "s");
}

#[test]
fn exponents_are_shown() {
    let found = check(mul(meter(), meter()), mul(inv(second()), inv(second())));
    assert_eq!(found.len(), 1);
    assert_eq!(found[0].expected, "m^2");
    assert_eq!(found[0].found, "s^-2");
}

#[test]
fn dimensionless_renders_empty() {
    let found = check(mul(meter(), inv(meter())), second());
    assert_eq!(found.len(), 1);
    assert_eq!(found[0].expected, "");
    assert_eq!(found[0].found, "s");
}

#[test]
fn positives_come_before_negatives() {
    let found = check(mul(inv(second()), meter()), meter());
    assert_eq!(found[0].expected, "m * s^-1");
}

#[test]
fn large_exponent_digits() {
    let mut t = meter();
    for _ in 0..11 {
        t = mul(t, meter());
    }
    let found = check(t, meter());
    assert_eq!(found[0].expected, "m^12");
}

#[test]
fn unresolved_types_are_skipped() {
    assert!(check(HostType::Unresolved, meter()).is_empty());
    assert!(check(meter(), mul(HostType::Unresolved, second())).is_empty());
}

#[test]
fn marker_misuse_is_an_error() {
    let bad = HostType::Adt { decl: 100, name: "Mul".to_string(), marker: Marker::Product, args: vec![meter()] };
    let r = DimAnalyzer::new(body_of(vec![unify_call(10, bad, meter())])).analyze();
    assert_eq!(r.unwrap_err(), ClassifyError::MarkerShapeViolation);
    let call = TypedExpr {
        span: span(3),
        kind: ExprKind::MethodCall { callee_is_unify: true, type_args: vec![meter()] },
        children: vec![],
    };
    let r = DimAnalyzer::new(body_of(vec![call])).analyze();
    assert_eq!(r.unwrap_err(), ClassifyError::MarkerShapeViolation);
}

#[test]
fn bodies_with_prior_errors_are_skipped() {
    let mut body = body_of(vec![unify_call(10, meter(), second())]);
    body.has_prior_errors = true;
    assert!(DimAnalyzer::new(body).analyze().unwrap().is_empty());
}

#[test]
fn closure_bodies_are_left_to_their_function() {
    let mut body = body_of(vec![unify_call(10, meter(), second())]);
    body.is_closure = true;
    assert!(DimAnalyzer::new(body).analyze().unwrap().is_empty());
}

#[test]
fn other_calls_are_ignored() {
    let call = TypedExpr {
        span: span(3),
        kind: ExprKind::MethodCall { callee_is_unify: false, type_args: vec![base(50, "f64"), meter(), second()] },
        children: vec![],
    };
    assert!(DimAnalyzer::new(body_of(vec![call])).analyze().unwrap().is_empty());
}

#[test]
fn nested_calls_are_reported_in_pre_order() {
    let mut outer = unify_call(20, meter(), second());
    outer.children = vec![unify_call(30, kilometer(), meter()), unify_call(40, meter(), meter())];
    let later = unify_call(50, second(), kilometer());
    let found = DimAnalyzer::new(body_of(vec![outer, later])).analyze().unwrap();
    let spans: Vec<u64> = found.iter().map(|m| m.span.lo).collect();
    assert_eq!(spans, vec![20, 30, 50]);
    assert_eq!(found[1].expected, "km");
    assert_eq!(found[2].found, "km");
}

#[test]
fn checking_twice_reports_the_same() {
    let analyzer = DimAnalyzer::new(body_of(vec![
        unify_call(10, mul(kilometer(), inv(second())), mul(meter(), inv(second()))),
        unify_call(20, meter(), meter()),
    ]));
    let a = analyzer.analyze().unwrap();
    let b = analyzer.analyze().unwrap();
    assert_eq!(a.len(), b.len());
    for (x, y) in a.iter().zip(b.iter()) {
        assert_eq!(x.span, y.span);
        assert_eq!(x.expected, y.expected);
        assert_eq!(x.found, y.found);
    }
}
