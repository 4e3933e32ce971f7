use yaiouom::logics::{PInv, PMul};
use yaiouom::si::{Ampere, Meter, Second};
use yaiouom::unit::{BaseUnit, Dimensionless, Inv, Measure, Mul, Unit};

struct Kilometer;
impl BaseUnit for Kilometer {
    const NAME: &'static str = "km";
}

#[test]
fn new_and_as_ref() {
    let one_meter: Measure<i32, Meter> = Measure::new(1);
    assert_eq!(*one_meter.as_ref(), 1);
}

#[test]
fn unify_keeps_the_value() {
    let a: Measure<i32, Mul<Meter, Second>> = Measure::new(6);
    let b: Measure<i32, Mul<Second, Meter>> = a.unify();
    assert_eq!(*b.as_ref(), 6);
}

#[test]
fn from_and_into_convert_the_value() {
    let a: Measure<i32, Meter> = Measure::new(7);
    let b: Measure<i64, Meter> = Measure::from(a);
    assert_eq!(*b.as_ref(), 7i64);
    let c: Measure<i32, Meter> = Measure::new(8);
    let d: Measure<i64, Meter> = c.into();
    assert_eq!(*d.as_ref(), 8i64);
}

#[test]
fn unwrap_dimensionless() {
    let a: Measure<u8, Dimensionless> = Measure::new(3);
    assert_eq!(a.unwrap(), 3);
}

#[test]
fn runtime_base_unit() {
    let one: Measure<i32, Meter> = Measure::new(1);
    assert_eq!(one.as_runtime().to_string(), "m");
}

#[test]
fn runtime_speed() {
    assert_eq!(Mul::<Meter, Inv<Second>>::as_runtime().to_string(), "m * s^-1");
    assert_eq!(Mul::<Inv<Second>, Meter>::as_runtime().to_string(), "m * s^-1");
    assert_eq!(Mul::<Inv<Second>, Mul<Inv<Second>, Meter>>::as_runtime().to_string(), "m * s^-2");
    let s = Mul::<Inv<Ampere>, Mul<Inv<Second>, Meter>>::as_runtime().to_string();
    assert!(s == "m * s^-1 * A^-1" || s == "m * A^-1 * s^-1");
}

#[test]
fn runtime_cancellation() {
    assert_eq!(Mul::<Meter, Inv<Meter>>::as_runtime().to_string(), "");
    assert!(Mul::<Meter, Inv<Meter>>::as_runtime().dimensions.is_empty());
    assert_eq!(Dimensionless::as_runtime().to_string(), "");
}

#[test]
fn runtime_distinct_units_stay_apart() {
    assert_eq!(Mul::<Kilometer, Meter>::as_runtime().to_string(), "km * m");
    assert_eq!(PMul::<Meter, PInv<Kilometer>>::as_runtime().to_string(), "m * km^-1");
}

#[test]
fn runtime_exponents() {
    let s = Mul::<Mul<Meter, Meter>, Mul<Meter, Inv<Second>>>::as_runtime().to_string();
    assert_eq!(s, "m^3 * s^-1");
}

#[test]
fn addition_keeps_the_unit() {
    let one_meter: Measure<i32, Meter> = Measure::new(1);
    let two_meters = one_meter + one_meter;
    assert_eq!(*two_meters.as_ref(), 2);
}

#[test]
fn scaling_keeps_the_unit() {
    let one_meter: Measure<i32, Meter> = Measure::new(1);
    let ten_meters: Measure<i32, Meter> = one_meter.scale(10);
    assert_eq!(ten_meters.as_ref(), &10);
}

#[test]
fn multiplication_and_division_compose_units() {
    let two_meters: Measure<i32, Meter> = Measure::new(2);
    let four_sq_meters: Measure<i32, Mul<Meter, Meter>> = two_meters.mul(two_meters);
    assert_eq!(four_sq_meters.as_ref(), &4);
    let back: Measure<i32, Mul<Mul<Meter, Meter>, Inv<Meter>>> = four_sq_meters / two_meters;
    let back: Measure<i32, Meter> = back.unify();
    assert_eq!(back.as_ref(), two_meters.as_ref());
    assert_eq!(Mul::<Mul<Meter, Meter>, Inv<Meter>>::as_runtime().to_string(), "m");
}

struct OtherMeter;
impl BaseUnit for OtherMeter {
    const NAME: &'static str = "m";
}

#[test]
fn runtime_identity_is_by_type_not_name() {
    assert_eq!(Mul::<Meter, OtherMeter>::as_runtime().to_string(), "m * m");
    assert_eq!(Mul::<Meter, Inv<OtherMeter>>::as_runtime().to_string(), "m * m^-1");
    assert_eq!(Mul::<Meter, Meter>::as_runtime().to_string(), "m^2");
}

#[test]
fn measures_compare_by_value() {
    let a: Measure<i32, Meter> = Measure::new(1);
    let b: Measure<i32, Meter> = Measure::new(2);
    assert!(a == a);
    assert!(a != b);
    assert!(a < b);
    assert_eq!(a.partial_cmp(&b), Some(std::cmp::Ordering::Less));
    let c = a.clone();
    assert_eq!(*c.as_ref(), 1);
}
