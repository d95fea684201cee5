//! Strategy specifications and their canonical form.

use ironcondor::domain::{
    Decimal, ExpirationDate, Instant, IronCondorSpec, LegSetSpec, LegSpec, OptionStyle, Positive,
    PriceCents, Quantity, ShortStrangleSpec, Side, StrategySpec, Underlying,
};

const TS0: i64 = 1_750_291_200_000_000_000;
const NANOS_PER_DAY: i64 = 86_400_000_000_000;
const NEAR_EXPIRY: i64 = TS0 + 30 * NANOS_PER_DAY;
const FAR_EXPIRY: i64 = TS0 + 60 * NANOS_PER_DAY;

fn expiry(ns: i64) -> ExpirationDate {
    ExpirationDate::DateTime(Instant::from_timestamp_nanos(ns))
}

fn leg(strike: u64, style: OptionStyle, side: Side, expiration_ns: i64) -> LegSpec {
    let Ok(quantity) = Quantity::new(1) else {
        panic!("1 is a valid quantity");
    };
    LegSpec {
        side,
        style,
        strike: PriceCents::new(strike),
        expiration: expiry(expiration_ns),
        quantity,
        implied_volatility: Decimal::new(20, 2),
    }
}

fn leg_set(legs: Vec<LegSpec>) -> StrategySpec {
    let Ok(underlying) = Underlying::new("SPX") else {
        panic!("SPX is a valid underlying");
    };
    StrategySpec::Legs(LegSetSpec {
        underlying,
        underlying_price: PriceCents::new(500_000),
        legs,
        risk_free_rate: Decimal::new(5, 2),
        dividend_yield: Decimal::new(0, 0),
    })
}

fn unsorted_legs() -> Vec<LegSpec> {
    vec![
        leg(520_000, OptionStyle::Call, Side::Long, FAR_EXPIRY),
        leg(490_000, OptionStyle::Put, Side::Short, NEAR_EXPIRY),
        leg(480_000, OptionStyle::Put, Side::Long, FAR_EXPIRY),
        leg(510_000, OptionStyle::Call, Side::Short, NEAR_EXPIRY),
    ]
}

fn spec() -> StrategySpec {
    let Ok(underlying) = Underlying::new("SPX") else {
        panic!("SPX is a valid underlying");
    };
    let Ok(quantity) = Quantity::new(1) else {
        panic!("1 is a valid quantity");
    };
    StrategySpec::IronCondor(IronCondorSpec {
        underlying,
        underlying_price: PriceCents::new(500_000),
        short_call_strike: PriceCents::new(510_000),
        short_put_strike: PriceCents::new(490_000),
        long_call_strike: PriceCents::new(520_000),
        long_put_strike: PriceCents::new(480_000),
        expiration: ExpirationDate::DateTime(Instant::from_timestamp_nanos(
            1_750_291_200_000_000_000,
        )),
        implied_volatility: Decimal::new(20, 2),
        risk_free_rate: Decimal::new(5, 2),
        dividend_yield: Decimal::new(0, 0),
        quantity,
        premium_short_call: PriceCents::new(2_000),
        premium_short_put: PriceCents::new(1_800),
        premium_long_call: PriceCents::new(800),
        premium_long_put: PriceCents::new(700),
        open_fee: PriceCents::new(65),
        close_fee: PriceCents::new(65),
    })
}

fn strangle_spec() -> StrategySpec {
    let Ok(underlying) = Underlying::new("SPX") else {
        panic!("SPX is a valid underlying");
    };
    let Ok(quantity) = Quantity::new(1) else {
        panic!("1 is a valid quantity");
    };
    StrategySpec::ShortStrangle(ShortStrangleSpec {
        underlying,
        underlying_price: PriceCents::new(500_000),
        call_strike: PriceCents::new(520_000),
        put_strike: PriceCents::new(480_000),
        expiration: ExpirationDate::DateTime(Instant::from_timestamp_nanos(
            1_750_291_200_000_000_000,
        )),
        call_implied_volatility: Decimal::new(20, 2),
        put_implied_volatility: Decimal::new(20, 2),
        risk_free_rate: Decimal::new(5, 2),
        dividend_yield: Decimal::new(0, 0),
        quantity,
        premium_short_call: PriceCents::new(800),
        premium_short_put: PriceCents::new(700),
        open_fee_short_call: PriceCents::new(65),
        close_fee_short_call: PriceCents::new(65),
        open_fee_short_put: PriceCents::new(65),
        close_fee_short_put: PriceCents::new(65),
    })
}

#[test]
fn test_strategy_spec_kind_is_iron_condor() {
    assert_eq!(spec().kind(), "iron_condor");
}

#[test]
fn test_strategy_spec_kind_is_short_strangle() {
    assert_eq!(strangle_spec().kind(), "short_strangle");
}

#[test]
fn test_strategy_spec_kind_is_legs() {
    assert_eq!(leg_set(unsorted_legs()).kind(), "legs");
}

#[test]
fn test_leg_set_canonical_sorts_by_expiration_then_strike() {
    let StrategySpec::Legs(spec) = leg_set(unsorted_legs()).canonical() else {
        panic!("the canonical form of a leg set is a leg set");
    };
    let order: Vec<(i64, u64)> = spec
        .legs
        .iter()
        .map(|l| {
            let ExpirationDate::DateTime(dt) = l.expiration else {
                panic!("the fixture legs carry resolved expiries");
            };
            (
                dt.timestamp_nanos_opt().unwrap_or_default(),
                l.strike.value(),
            )
        })
        .collect();
    assert_eq!(
        order,
        vec![
            (NEAR_EXPIRY, 490_000),
            (NEAR_EXPIRY, 510_000),
            (FAR_EXPIRY, 480_000),
            (FAR_EXPIRY, 520_000),
        ]
    );
}

#[test]
fn test_canonical_orders_scale_differing_decimals_rather_than_tying() {
    let mut a = leg(510_000, OptionStyle::Call, Side::Short, NEAR_EXPIRY);
    let mut b = a;
    a.implied_volatility = Decimal::new(20, 2);
    b.implied_volatility = Decimal::new(200, 3);
    assert_eq!(
        a.implied_volatility, b.implied_volatility,
        "equal as numbers"
    );
    assert_ne!(
        format!("{:?}", a.implied_volatility),
        format!("{:?}", b.implied_volatility),
        "different as bytes"
    );
    assert_ne!(
        a.canonical_cmp(&b),
        std::cmp::Ordering::Equal,
        "a byte difference must order, not tie"
    );

    let forward = format!("{:?}", leg_set(vec![a, b]).canonical());
    let reverse = format!("{:?}", leg_set(vec![b, a]).canonical());
    assert_eq!(forward, reverse);
}

#[test]
fn test_canonical_orders_scale_differing_relative_expirations() {
    let Ok(thirty) = Positive::new_decimal(Decimal::new(30, 0)) else {
        panic!("30 is a valid positive");
    };
    let Ok(thirty_scaled) =
        Positive::new_decimal(Decimal::new(300, 1))
    else {
        panic!("30.0 is a valid positive");
    };
    let mut a = leg(510_000, OptionStyle::Call, Side::Short, NEAR_EXPIRY);
    let mut b = a;
    a.expiration = ExpirationDate::Days(thirty);
    b.expiration = ExpirationDate::Days(thirty_scaled);
    assert_ne!(
        a.canonical_cmp(&b),
        std::cmp::Ordering::Equal,
        "a byte-different expiration must order, not tie"
    );
}

#[test]
fn test_leg_set_canonical_is_idempotent() {
    let once = leg_set(unsorted_legs()).canonical();
    let twice = once.canonical();
    assert_eq!(once, twice);
}

#[test]
fn test_leg_set_canonical_is_input_order_independent() {
    let mut permuted = unsorted_legs();
    permuted.reverse();
    let a = format!("{:?}", leg_set(unsorted_legs()).canonical());
    let b = format!("{:?}", leg_set(permuted).canonical());
    assert_eq!(a, b);
}

#[test]
fn test_canonical_leaves_the_named_kinds_untouched() {
    assert_eq!(spec().canonical(), spec());
    assert_eq!(strangle_spec().canonical(), strangle_spec());
}
