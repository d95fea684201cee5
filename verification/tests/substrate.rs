//! The figures that profits are attributed from.

use ironcondor::domain::{
    Cents, ChainSnapshot, ContractKey, ContractMap, Decimal, ExpirationDate, InstrumentSpec,
    Instant, OptionStyle, PositionId, PriceCents, Quantity, QuoteView, Side, SimTime, StepIndex,
    Underlying,
};
use ironcondor::engine::substrate::AttributionCollector;
use ironcondor::engine::{PositionMark, UnitGreeks};

const TS0: i64 = 1_750_291_200_000_000_000;
const NANOS_PER_DAY: i64 = 86_400_000_000_000;

fn und() -> Underlying {
    let Ok(u) = Underlying::new("SPX") else {
        panic!("SPX is valid");
    };
    u
}

fn key(strike: u64) -> ContractKey {
    ContractKey {
        underlying: und(),
        expiration: ExpirationDate::DateTime(Instant::from_timestamp_nanos(
            TS0 + 30 * NANOS_PER_DAY,
        )),
        strike: PriceCents::new(strike),
        style: OptionStyle::Call,
    }
}

fn qty(n: u32) -> Quantity {
    let Ok(q) = Quantity::new(n) else {
        panic!("{n} is valid");
    };
    q
}

fn snapshot(step: u32, ts: i64, underlying: u64, iv: Decimal) -> ChainSnapshot {
    let mut quotes = ContractMap::new();
    let quote = QuoteView {
        contract: key(510_000),
        bid: PriceCents::new(199),
        ask: PriceCents::new(201),
        mid: PriceCents::new(200),
        bid_size: qty(10),
        ask_size: qty(10),
        implied_volatility: iv,
        delta: Decimal::new(5, 1),
        gamma: Decimal::new(1, 2),
        theta: Decimal::new(-5, 2),
        vega: Decimal::new(1, 1),
    };
    quotes.insert(quote.contract.clone(), quote);
    let Ok(spec) = InstrumentSpec::new(PriceCents::new(1), 100) else {
        panic!("valid spec");
    };
    ChainSnapshot {
        ts: SimTime::new(ts),
        step: StepIndex::new(step),
        underlying: und(),
        underlying_price: PriceCents::new(underlying),
        spec,
        quotes,
    }
}

fn mark(prior: Option<UnitGreeks>) -> PositionMark {
    PositionMark {
        position_id: PositionId::new(1),
        contract: key(510_000),
        side: Side::Short,
        quantity: qty(2),
        contract_multiplier: 100,
        mark: PriceCents::new(200),
        stale_mark: false,
        prior_greeks: prior,
    }
}

#[test]
fn test_collect_step_zero_endpoints_equal_so_market_deltas_are_zero() {
    let mut collector = AttributionCollector::with_capacity(4);
    let snap = snapshot(0, TS0, 500_000, Decimal::new(20, 2));
    collector.collect(
        &snap,
        &[mark(None)],
        Cents::new(-60),
        Cents::new(520),
        Cents::new(1_480),
    );
    let sub = collector.into_substrate();
    let Some(step) = sub.steps.first() else {
        panic!("one step scalars");
    };
    assert_eq!(step.prior_ts_ns, step.ts_ns);
    assert_eq!(step.prior_underlying_cents, step.underlying_cents);
    assert_eq!(step.leg_count, 1);
    assert_eq!(step.step_pnl_cents, 1_480);
    assert_eq!(step.spread_capture_cents, -60);
    assert_eq!(step.fees_cents, 520);
    let Some(leg) = sub.legs.first() else {
        panic!("one leg sample");
    };
    assert!(leg.prior_greeks.is_none());
    assert_eq!(leg.quantity, 2);
    assert_eq!(leg.contract_multiplier, 100);
}

#[test]
fn test_collect_tracks_prior_endpoints_across_steps() {
    let mut collector = AttributionCollector::with_capacity(4);
    let prior = UnitGreeks {
        delta: Decimal::new(5, 1),
        gamma: Decimal::new(1, 2),
        theta: Decimal::new(-5, 2),
        vega: Decimal::new(1, 1),
        implied_volatility: Decimal::new(20, 2),
    };
    let snap0 = snapshot(0, TS0, 500_000, Decimal::new(20, 2));
    collector.collect(
        &snap0,
        &[mark(None)],
        Cents::new(0),
        Cents::new(0),
        Cents::new(0),
    );
    let snap1 = snapshot(1, TS0 + NANOS_PER_DAY, 500_100, Decimal::new(21, 2));
    collector.collect(
        &snap1,
        &[mark(Some(prior))],
        Cents::new(0),
        Cents::new(0),
        Cents::new(50),
    );
    let sub = collector.into_substrate();
    let Some(step1) = sub.steps.get(1) else {
        panic!("two step scalars");
    };
    assert_eq!(step1.prior_ts_ns, TS0);
    assert_eq!(step1.ts_ns, TS0 + NANOS_PER_DAY);
    assert_eq!(step1.prior_underlying_cents, 500_000);
    assert_eq!(step1.underlying_cents, 500_100);
    let Some(leg1) = sub.legs.get(1) else {
        panic!("two leg samples");
    };
    assert_eq!(leg1.prior_greeks, Some(prior));
    assert_eq!(leg1.current_iv, Decimal::new(21, 2));
}

#[test]
fn test_collect_absent_leg_carries_iv_forward_so_delta_iv_is_zero() {
    let mut collector = AttributionCollector::with_capacity(2);
    let prior = UnitGreeks {
        delta: Decimal::new(5, 1),
        gamma: Decimal::new(1, 2),
        theta: Decimal::new(-5, 2),
        vega: Decimal::new(1, 1),
        implied_volatility: Decimal::new(20, 2),
    };
    let Ok(spec) = InstrumentSpec::new(PriceCents::new(1), 100) else {
        panic!("valid spec");
    };
    let snap = ChainSnapshot {
        ts: SimTime::new(TS0 + NANOS_PER_DAY),
        step: StepIndex::new(1),
        underlying: und(),
        underlying_price: PriceCents::new(500_000),
        spec,
        quotes: ContractMap::new(),
    };
    collector.collect(
        &snap,
        &[mark(Some(prior))],
        Cents::new(0),
        Cents::new(0),
        Cents::new(0),
    );
    let sub = collector.into_substrate();
    let Some(leg) = sub.legs.first() else {
        panic!("one leg sample");
    };
    assert_eq!(leg.current_iv, Decimal::new(20, 2));
}

#[test]
fn test_reserve_legs_grows_capacity_without_changing_len() {
    let mut collector = AttributionCollector::with_capacity(64);
    collector.reserve_legs(64, 4);
    assert!(
        collector.legs.capacity() >= 256,
        "leg capacity covers the steady-state run"
    );
    assert_eq!(collector.legs.len(), 0, "reservation does not push");
}
