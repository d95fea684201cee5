//! Orders and the sign convention.

use ironcondor::domain::execution::sign_convention::{
    side_sign, slippage_cents, spread_capture_cents,
};
use ironcondor::domain::{
    Cents, ContractKey, ExpirationDate, Instant, OptionStyle, OrderIntent, PositionAction,
    PriceCents, Quantity, Side, TimeInForce, Underlying,
};
use ironcondor::error::BacktestError;

fn qty(n: u32) -> Quantity {
    let Ok(q) = Quantity::new(n) else {
        panic!("{n} is a valid quantity");
    };
    q
}

fn contract_key() -> ContractKey {
    let Ok(underlying) = Underlying::new("SPX") else {
        panic!("SPX is a valid underlying");
    };
    ContractKey {
        underlying,
        expiration: ExpirationDate::DateTime(Instant::from_timestamp_nanos(
            1_750_291_200_000_000_000,
        )),
        strike: PriceCents::new(510_000),
        style: OptionStyle::Call,
    }
}

#[test]
fn test_order_intent_new_enforces_marketable_ioc_invariant() {
    // marketable (limit None) + Gtc is a resting market order — rejected.
    let resting_market = OrderIntent::new(
        contract_key(),
        PositionAction::Open,
        Side::Short,
        qty(1),
        None,
        TimeInForce::Gtc,
        PriceCents::new(150),
    );
    assert!(matches!(resting_market, Err(BacktestError::Execution(_))));

    // marketable (limit None) + Ioc is accepted.
    assert!(
        OrderIntent::new(
            contract_key(),
            PositionAction::Open,
            Side::Short,
            qty(1),
            None,
            TimeInForce::Ioc,
            PriceCents::new(150),
        )
        .is_ok()
    );

    // a resting limit (limit Some) + Gtc is accepted.
    assert!(
        OrderIntent::new(
            contract_key(),
            PositionAction::Open,
            Side::Short,
            qty(1),
            Some(PriceCents::new(148)),
            TimeInForce::Gtc,
            PriceCents::new(150),
        )
        .is_ok()
    );
}

#[test]
fn test_order_intent_deserialize_rejects_resting_market_order() {
    let Ok(valid) = OrderIntent::new(
        contract_key(),
        PositionAction::Open,
        Side::Short,
        qty(1),
        None,
        TimeInForce::Ioc,
        PriceCents::new(150),
    ) else {
        panic!("a marketable IOC intent must build");
    };
    assert!(valid.validate().is_ok());
    let mut resting = valid.clone();
    resting.limit = None;
    resting.tif = TimeInForce::Gtc;
    assert!(matches!(
        resting.validate(),
        Err(BacktestError::Execution(_))
    ));
}

#[test]
fn test_slippage_positive_when_buy_worse_than_mid() {
    // Buying at 152 with mid 150 is adverse for a long: +2 per contract.
    let slippage = slippage_cents(
        PriceCents::new(152),
        PriceCents::new(150),
        qty(1),
        Side::Long,
    );
    assert!(matches!(slippage, Ok(s) if s.value() == 2));
    // Buying below mid is favourable: negative.
    let slippage = slippage_cents(
        PriceCents::new(149),
        PriceCents::new(150),
        qty(1),
        Side::Long,
    );
    assert!(matches!(slippage, Ok(s) if s.value() == -1));
}

#[test]
fn test_slippage_positive_when_sell_worse_than_mid() {
    // Selling at 148 with mid 150 is adverse for a short: +2 per contract.
    let slippage = slippage_cents(
        PriceCents::new(148),
        PriceCents::new(150),
        qty(1),
        Side::Short,
    );
    assert!(matches!(slippage, Ok(s) if s.value() == 2));
    // Selling above mid is favourable: negative.
    let slippage = slippage_cents(
        PriceCents::new(153),
        PriceCents::new(150),
        qty(1),
        Side::Short,
    );
    assert!(matches!(slippage, Ok(s) if s.value() == -3));
}

#[test]
fn test_slippage_scales_with_quantity() {
    let slippage = slippage_cents(
        PriceCents::new(152),
        PriceCents::new(150),
        qty(5),
        Side::Long,
    );
    assert!(matches!(slippage, Ok(s) if s.value() == 10));
}

#[test]
fn test_side_sign_truth_table() {
    assert_eq!(side_sign(Side::Long), 1);
    assert_eq!(side_sign(Side::Short), -1);
}

#[test]
fn test_spread_capture_is_negated_slippage_sum() {
    let capture = spread_capture_cents(&[Cents::new(2), Cents::new(-1), Cents::new(4)]);
    assert!(matches!(capture, Ok(c) if c.value() == -5));
    let capture = spread_capture_cents(&[]);
    assert!(matches!(capture, Ok(c) if c.value() == 0));
}

#[test]
fn slippage_that_does_not_fit_overflows() {
    let far = slippage_cents(
        PriceCents::new(u64::MAX),
        PriceCents::new(0),
        qty(2),
        Side::Long,
    );
    assert!(matches!(far, Err(BacktestError::ArithmeticOverflow)));
}

#[test]
fn spread_capture_overflows_with_its_sum() {
    let sum = spread_capture_cents(&[Cents::new(i64::MAX), Cents::new(1)]);
    assert!(matches!(sum, Err(BacktestError::ArithmeticOverflow)));
    let negated = spread_capture_cents(&[Cents::new(i64::MIN)]);
    assert!(matches!(negated, Err(BacktestError::ArithmeticOverflow)));
}

#[test]
fn slippage_changes_its_sign_with_the_side() {
    let long = slippage_cents(PriceCents::new(152), PriceCents::new(150), qty(3), Side::Long);
    let short = slippage_cents(PriceCents::new(152), PriceCents::new(150), qty(3), Side::Short);
    assert!(matches!(long, Ok(s) if s.value() == 6));
    assert!(matches!(short, Ok(s) if s.value() == -6));
}
