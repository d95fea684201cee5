//! Money, counts and time.

use ironcondor::domain::{Cents, Decimal, Positive, PriceCents, Quantity, SimTime, StepIndex, Ticks};
use ironcondor::error::BacktestError;

#[test]
fn test_quantity_new_zero_invalid() {
    assert!(matches!(
        Quantity::new(0),
        Err(BacktestError::InvalidQuantity(0))
    ));
}

#[test]
fn test_quantity_new_nonzero_round_trips() {
    let qty = Quantity::new(4);
    assert!(matches!(qty, Ok(q) if q.value() == 4));
}

#[test]
fn test_quantity_deserialize_rejects_zero() {
    let zero: Result<u32, _> = serde_json::from_str("0");
    assert!(matches!(zero, Ok(n) if Quantity::try_from(n).is_err()));
    let ok: Result<u32, _> = serde_json::from_str("3");
    assert!(matches!(ok.map(Quantity::try_from), Ok(Ok(q)) if q.value() == 3));
}

#[test]
fn test_cents_checked_add_overflow_at_i64_boundary() {
    let max = Cents::new(i64::MAX);
    assert!(matches!(
        max.checked_add(Cents::new(1)),
        Err(BacktestError::ArithmeticOverflow)
    ));
    assert!(matches!(
        Cents::new(1).checked_add(Cents::new(2)),
        Ok(c) if c.value() == 3
    ));
}

#[test]
fn test_cents_checked_sub_overflow_at_i64_boundary() {
    let min = Cents::new(i64::MIN);
    assert!(matches!(
        min.checked_sub(Cents::new(1)),
        Err(BacktestError::ArithmeticOverflow)
    ));
    assert!(matches!(
        Cents::new(1).checked_sub(Cents::new(2)),
        Ok(c) if c.value() == -1
    ));
}

#[test]
fn test_cents_checked_mul_qty_overflow() {
    let big = Cents::new(i64::MAX / 2);
    let Ok(qty) = Quantity::new(3) else {
        panic!("quantity 3 must be valid");
    };
    assert!(matches!(
        big.checked_mul_qty(qty),
        Err(BacktestError::ArithmeticOverflow)
    ));
}

#[test]
fn test_from_decimal_dollars_rounds_half_to_even() {
    assert!(matches!(
        PriceCents::from_decimal_dollars(Decimal::new(5, 3)),
        Ok(p) if p.value() == 0
    ));
    assert!(matches!(
        PriceCents::from_decimal_dollars(Decimal::new(15, 3)),
        Ok(p) if p.value() == 2
    ));
    assert!(matches!(
        PriceCents::from_decimal_dollars(Decimal::new(25, 3)),
        Ok(p) if p.value() == 2
    ));
    assert!(matches!(
        PriceCents::from_decimal_dollars(Decimal::new(5_100, 2)),
        Ok(p) if p.value() == 5100
    ));
}

#[test]
fn test_from_decimal_dollars_rejects_negative_conversion_error() {
    assert!(matches!(
        PriceCents::from_decimal_dollars(Decimal::new(-1, 2)),
        Err(BacktestError::Conversion(_))
    ));
}

#[test]
fn test_to_decimal_dollars_lossless_inverse() {
    let price = PriceCents::new(5100);
    assert_eq!(price.to_decimal_dollars(), Decimal::new(5_100, 2));
    assert!(matches!(
        PriceCents::from_decimal_dollars(price.to_decimal_dollars()),
        Ok(p) if p == price
    ));
}

#[test]
fn test_sim_time_orders_by_inner_nanos() {
    assert!(SimTime::new(1) < SimTime::new(2));
    assert!(StepIndex::new(0) < StepIndex::new(1));
}

#[test]
fn the_largest_price_survives_dollars() {
    let price = PriceCents::new(u64::MAX);
    assert!(matches!(
        PriceCents::from_decimal_dollars(price.to_decimal_dollars()),
        Ok(p) if p == price
    ));
}

#[test]
fn dollars_beyond_the_range_are_refused() {
    assert!(matches!(
        PriceCents::from_decimal_dollars(Decimal::new(i64::MAX, 0)),
        Err(_)
    ));
    assert!(matches!(
        PriceCents::from_decimal_dollars(Decimal::from_i128_with_scale(
            79_228_162_514_264_337_593_543_950_335,
            0
        )),
        Err(_)
    ));
}

#[test]
fn a_price_times_a_quantity() {
    let Ok(qty) = Quantity::new(7) else {
        panic!("7 is a valid quantity");
    };
    assert!(matches!(Cents::new(-3).checked_mul_qty(qty), Ok(c) if c.value() == -21));
    assert_eq!(u32::from(qty), 7);
}

#[test]
fn ticks_keep_their_number() {
    assert_eq!(Ticks::new(42).value(), 42);
    assert_eq!(PriceCents::new(510_000).value(), 510_000);
}

#[test]
fn decimals_compare_by_value() {
    assert_eq!(Decimal::new(10, 1), Decimal::new(1, 0));
    assert_ne!(Decimal::new(10, 1), Decimal::new(10, 2));
    assert!(Decimal::new(-1, 3).is_negative());
    assert!(Decimal::new(0, 5).is_zero());
    assert!(Decimal::try_from_i128_with_scale(1, 29).is_none());
    assert!(Decimal::try_from_i128_with_scale(i128::MAX, 0).is_none());
}

#[test]
fn positive_refuses_what_is_below_zero() {
    assert!(Positive::new_decimal(Decimal::new(-1, 28)).is_err());
    assert!(matches!(
        Positive::new_decimal(Decimal::new(0, 0)),
        Ok(p) if p.to_dec() == Decimal::new(0, 0)
    ));
    assert!(matches!(
        Positive::new_decimal(Decimal::new(125, 2)),
        Ok(p) if p.to_dec() == Decimal::new(125, 2)
    ));
}
