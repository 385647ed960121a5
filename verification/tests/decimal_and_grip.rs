use zhang::amount::Amount;
use zhang::decimal::{Decimal, DEC_BOUND};
use zhang::price_grip::DatedPriceGrip;

#[test]
fn decimal_arithmetic_is_exact_in_range() {
    let a = Decimal::new(150, 2); // 1.50
    let b = Decimal::new(250, 2); // 2.50
    assert_eq!(a.add(b), Decimal::new(400, 2));
    assert_eq!(b.sub(a), Decimal::new(100, 2));
    assert_eq!(a.neg(), Decimal::new(-150, 2));
    assert_eq!(a.mul(b), Decimal::new(375, 2)); // 3.75
    assert_eq!(Decimal::new(-150, 2).abs_value(), Decimal::new(150, 2));
    assert!(a.lt(b));
    assert!(a.le(a));
    assert!(Decimal::zero().is_zero());
    // zero has one representation: 0.00 equals 0
    assert_eq!(Decimal::new(0, 2), Decimal::from_int(0));
}

#[test]
fn decimal_multiplication_truncates_toward_zero() {
    let tiny = Decimal::from_units(3); // 0.000003
    let half = Decimal::new(5, 1); // 0.5
    assert_eq!(tiny.mul(half), Decimal::from_units(1));
    assert_eq!(tiny.neg().mul(half), Decimal::from_units(-1));
}

#[test]
fn decimal_saturates_at_the_representable_bound() {
    let huge = Decimal::from_units(i64::MAX);
    assert_eq!(huge.units(), DEC_BOUND);
    let max = Decimal::from_units(i64::MAX);
    assert_eq!(max.add(max).units(), DEC_BOUND);
    assert_eq!(max.neg().sub(max).units(), -DEC_BOUND);
}

#[test]
fn grip_picks_latest_observation_not_after_date() {
    let mut grip = DatedPriceGrip::new();
    grip.insert(10, "USD".to_string(), "CNY".to_string(), Decimal::new(700, 2));
    grip.insert(20, "USD".to_string(), "CNY".to_string(), Decimal::new(720, 2));
    let usd = |n: i64| Amount::new(Decimal::from_int(n), "USD".to_string());
    let at = |d: u64| {
        grip.convert(d, &usd(1), &"CNY".to_string()).expect("rate known").number
    };
    assert_eq!(at(10), Decimal::new(700, 2));
    assert_eq!(at(15), Decimal::new(700, 2));
    assert_eq!(at(20), Decimal::new(720, 2));
    assert_eq!(at(99), Decimal::new(720, 2));
    // before any observation: no rate
    assert!(grip.convert(5, &usd(1), &"CNY".to_string()).is_err());
}

#[test]
fn grip_same_commodity_passes_through() {
    let grip = DatedPriceGrip::new();
    let a = Amount::new(Decimal::new(1234, 2), "USD".to_string());
    let r = grip.convert(1, &a, &"USD".to_string()).expect("identity");
    assert_eq!(r.number, Decimal::new(1234, 2));
    assert_eq!(r.currency, "USD");
}

#[test]
fn grip_routes_one_hop_through_lexicographically_least() {
    let mut grip = DatedPriceGrip::new();
    // two routes X -> Z: through "M" (2 * 3 = 6) and through "A" (5 * 7 = 35)
    grip.insert(1, "X".to_string(), "M".to_string(), Decimal::from_int(2));
    grip.insert(1, "M".to_string(), "Z".to_string(), Decimal::from_int(3));
    grip.insert(1, "X".to_string(), "A".to_string(), Decimal::from_int(5));
    grip.insert(1, "A".to_string(), "Z".to_string(), Decimal::from_int(7));
    let one = Amount::new(Decimal::from_int(1), "X".to_string());
    let r = grip.convert(1, &one, &"Z".to_string()).expect("hop available");
    assert_eq!(r.number, Decimal::from_int(35)); // via "A", not via "M"
}

#[test]
fn inserting_newer_observation_preserves_older_queries() {
    let mut grip = DatedPriceGrip::new();
    grip.insert(10, "USD".to_string(), "CNY".to_string(), Decimal::new(700, 2));
    let one = Amount::new(Decimal::from_int(1), "USD".to_string());
    let before = grip.convert(15, &one, &"CNY".to_string()).expect("known").number;
    grip.insert(30, "USD".to_string(), "CNY".to_string(), Decimal::new(900, 2));
    let after = grip.convert(15, &one, &"CNY".to_string()).expect("still known").number;
    assert_eq!(before, after);
    assert_eq!(after, Decimal::new(700, 2));
}

#[test]
fn total_in_converts_every_holding() {
    let mut grip = DatedPriceGrip::new();
    grip.insert(1, "USD".to_string(), "CNY".to_string(), Decimal::from_int(7));
    let mut snap = zhang::inventory::AccountSnapshot::empty();
    snap.add_amount(&Amount::new(Decimal::from_int(10), "USD".to_string()));
    snap.add_amount(&Amount::new(Decimal::from_int(30), "CNY".to_string()));
    let total = grip.total_in(&snap, &"CNY".to_string(), 1).expect("all priced");
    assert_eq!(total, Decimal::from_int(100)); // 10 * 7 + 30
    // a holding with no price fails the sum
    snap.add_amount(&Amount::new(Decimal::from_int(5), "JPY".to_string()));
    assert!(grip.total_in(&snap, &"CNY".to_string(), 1).is_err());
}

#[test]
fn grip_conversion_multiplies_amounts() {
    let mut grip = DatedPriceGrip::new();
    grip.insert(1, "USD".to_string(), "CNY".to_string(), Decimal::new(700, 2));
    let a = Amount::new(Decimal::new(1050, 2), "USD".to_string()); // 10.50
    let r = grip.convert(1, &a, &"CNY".to_string()).expect("known");
    assert_eq!(r.number, Decimal::new(7350, 2)); // 73.50
}
