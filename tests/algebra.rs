use yaiouom::classify::{classify, ClassifyError, HostType, Marker};
use yaiouom::expr::{Generator, GeneratorKey, UnitExpr};
use yaiouom::normal::{normalize, same_unit, NormalForm};
use yaiouom::render::describe;

fn g(decl: u64, name: &str) -> UnitExpr {
    UnitExpr::Generator(Generator::new(GeneratorKey::Base { decl }, name.to_string()))
}

fn p(a: UnitExpr, b: UnitExpr) -> UnitExpr {
    UnitExpr::Product(Box::new(a), Box::new(b))
}

fn i(a: UnitExpr) -> UnitExpr {
    UnitExpr::Inverse(Box::new(a))
}

fn pairs(nf: &NormalForm) -> Vec<(GeneratorKey, i64)> {
    nf.factors.iter().map(|f| (f.generator.key, f.exponent)).collect()
}

#[test]
fn product_adds_exponents() {
    let a = p(g(1, "m"), g(2, "s"));
    let b = p(g(1, "m"), i(g(3, "kg")));
    let nf = normalize(&p(a, b));
    assert_eq!(
        pairs(&nf),
        vec![
            (GeneratorKey::Base { decl: 1 }, 2),
            (GeneratorKey::Base { decl: 2 }, 1),
            (GeneratorKey::Base { decl: 3 }, -1),
        ]
    );
}

#[test]
fn inverse_negates_exponents() {
    let a = p(p(g(1, "m"), g(1, "m")), i(g(2, "s")));
    let nf = normalize(&i(a));
    assert_eq!(pairs(&nf), vec![(GeneratorKey::Base { decl: 1 }, -2), (GeneratorKey::Base { decl: 2 }, 1)]);
}

#[test]
fn identity_leaves_a_unit_unchanged() {
    let a = p(g(1, "m"), i(g(2, "s")));
    let with_identity = normalize(&p(p(g(1, "m"), i(g(2, "s"))), UnitExpr::Identity));
    assert!(same_unit(&normalize(&a), &with_identity));
    assert_eq!(pairs(&normalize(&a)), pairs(&with_identity));
}

#[test]
fn generator_times_its_inverse_is_empty() {
    let nf = normalize(&p(g(7, "x"), i(g(7, "x"))));
    assert!(nf.factors.is_empty());
    let nf = normalize(&p(UnitExpr::Generator(Generator::new(GeneratorKey::Param { owner: 4, index: 2 }, "T".to_string())),
        i(UnitExpr::Generator(Generator::new(GeneratorKey::Param { owner: 4, index: 2 }, "T".to_string())))));
    assert!(nf.factors.is_empty());
}

#[test]
fn products_commute() {
    let a = p(g(1, "m"), i(g(2, "s")));
    let b = p(g(3, "kg"), g(2, "s"));
    let ab = normalize(&p(p(g(1, "m"), i(g(2, "s"))), p(g(3, "kg"), g(2, "s"))));
    let ba = normalize(&p(b, a));
    assert!(same_unit(&ab, &ba));
    assert_eq!(pairs(&ab), pairs(&ba));
}

#[test]
fn products_associate() {
    let left = normalize(&p(p(g(1, "m"), g(2, "s")), i(g(3, "kg"))));
    let right = normalize(&p(g(1, "m"), p(g(2, "s"), i(g(3, "kg")))));
    assert!(same_unit(&left, &right));
    assert_eq!(pairs(&left), pairs(&right));
}

#[test]
fn distinct_units_are_not_the_same() {
    assert!(!same_unit(&normalize(&g(1, "m")), &normalize(&g(2, "m"))));
    assert!(!same_unit(&normalize(&g(1, "m")), &normalize(&p(g(1, "m"), g(1, "m")))));
    assert!(!same_unit(&normalize(&g(1, "m")), &normalize(&UnitExpr::Identity)));
}

#[test]
fn factors_are_ordered_by_key_with_first_names() {
    let e = p(
        UnitExpr::Generator(Generator::new(GeneratorKey::Param { owner: 2, index: 0 }, "U".to_string())),
        p(g(9, "late"), p(g(4, "early"), g(9, "other"))),
    );
    let nf = normalize(&e);
    let names: Vec<String> = nf.factors.iter().map(|f| f.generator.name.clone()).collect();
    assert_eq!(names, vec!["early".to_string(), "late".to_string(), "U".to_string()]);
    assert_eq!(describe(&nf), "early * late^2 * U");
}

#[test]
fn describe_renders_signs_and_exponents() {
    let nf = normalize(&p(i(p(g(2, "s"), g(2, "s"))), p(g(1, "m"), i(g(3, "A")))));
    assert_eq!(describe(&nf), "m * s^-2 * A^-1");
    assert_eq!(describe(&normalize(&UnitExpr::Identity)), "");
}

#[test]
fn classify_reads_combinators() {
    let t = HostType::Adt {
        decl: 100,
        name: "Mul".to_string(),
        marker: Marker::Product,
        args: vec![
            HostType::Param { owner: 5, index: 1, name: "B".to_string() },
            HostType::Adt {
                decl: 101,
                name: "Inv".to_string(),
                marker: Marker::Inverse,
                args: vec![HostType::Adt { decl: 1, name: "m".to_string(), marker: Marker::Plain, args: vec![] }],
            },
        ],
    };
    let e = classify(&t).unwrap();
    let nf = normalize(&e);
    assert_eq!(pairs(&nf), vec![(GeneratorKey::Base { decl: 1 }, -1), (GeneratorKey::Param { owner: 5, index: 1 }, 1)]);
    assert_eq!(describe(&nf), "B * m^-1");
}

#[test]
fn classify_reports_errors() {
    assert_eq!(classify(&HostType::Unresolved).unwrap_err(), ClassifyError::TypeUnresolved);
    let empty_product = HostType::Adt { decl: 100, name: "Mul".to_string(), marker: Marker::Product, args: vec![] };
    assert_eq!(classify(&empty_product).unwrap_err(), ClassifyError::MarkerShapeViolation);
    let identity_with_arg = HostType::Adt {
        decl: 102,
        name: "Dimensionless".to_string(),
        marker: Marker::Identity,
        args: vec![HostType::Unresolved],
    };
    assert_eq!(classify(&identity_with_arg).unwrap_err(), ClassifyError::MarkerShapeViolation);
    let inner_unresolved = HostType::Adt {
        decl: 101,
        name: "Inv".to_string(),
        marker: Marker::Inverse,
        args: vec![HostType::Unresolved],
    };
    assert_eq!(classify(&inner_unresolved).unwrap_err(), ClassifyError::TypeUnresolved);
}
