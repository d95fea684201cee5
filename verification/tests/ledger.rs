//! The ledger: cash, marks and drawdown.

use ironcondor::domain::{
    Cents, ChainSnapshot, ContractKey, ContractMap, Decimal, ExecutionMode, ExpirationDate, Fill,
    InstrumentSpec, Instant, OpenPosition, OptionStyle, PositionId, PriceCents, Quantity,
    QuoteView, Side, SimTime, StepIndex, Underlying,
};
use ironcondor::engine::Ledger;

const TS0: i64 = 1_750_291_200_000_000_000;

fn und() -> Underlying {
    let Ok(u) = Underlying::new("SPX") else {
        panic!("SPX is valid");
    };
    u
}

fn qty(n: u32) -> Quantity {
    let Ok(q) = Quantity::new(n) else {
        panic!("{n} is a valid quantity");
    };
    q
}

fn key(strike: u64, style: OptionStyle) -> ContractKey {
    ContractKey {
        underlying: und(),
        expiration: ExpirationDate::DateTime(Instant::from_timestamp_nanos(TS0)),
        strike: PriceCents::new(strike),
        style,
    }
}

fn quote(strike: u64, style: OptionStyle, mid: u64) -> QuoteView {
    assert!(mid >= 1, "quote fixtures use a mid of at least 1c");
    QuoteView {
        contract: key(strike, style),
        bid: PriceCents::new(mid - 1),
        ask: PriceCents::new(mid + 1),
        mid: PriceCents::new(mid),
        bid_size: qty(10),
        ask_size: qty(10),
        implied_volatility: Decimal::new(2, 1),
        delta: Decimal::new(5, 1),
        gamma: Decimal::new(1, 2),
        theta: Decimal::new(-5, 2),
        vega: Decimal::new(1, 1),
    }
}

fn snapshot(step: u32, contract_mid: Option<(u64, OptionStyle, u64)>) -> ChainSnapshot {
    let mut quotes = ContractMap::new();
    if let Some((strike, style, mid)) = contract_mid {
        let q = quote(strike, style, mid);
        quotes.insert(q.contract.clone(), q);
    }
    let Ok(spec) = InstrumentSpec::new(PriceCents::new(1), 100) else {
        panic!("valid spec");
    };
    ChainSnapshot {
        ts: SimTime::new(TS0 + i64::from(step)),
        step: StepIndex::new(step),
        underlying: und(),
        underlying_price: PriceCents::new(500_000),
        spec,
        quotes,
    }
}

fn short_call(mid_entry: u64) -> OpenPosition {
    OpenPosition {
        position_id: PositionId::new(1),
        contract: key(510_000, OptionStyle::Call),
        side: Side::Short,
        quantity: qty(1),
        entry_premium: PriceCents::new(mid_entry),
    }
}

fn sell_fill(price: u64, fees: i64) -> Fill {
    Fill {
        ts: SimTime::new(TS0),
        step: StepIndex::new(0),
        contract: key(510_000, OptionStyle::Call),
        side: Side::Short,
        quantity: qty(1),
        price: PriceCents::new(price),
        fees: Cents::new(fees),
        slippage: Cents::new(0),
        mode: ExecutionMode::Naive,
    }
}

#[test]
fn test_ledger_sell_credits_cash_minus_fees() {
    let mut ledger = Ledger::new(Cents::new(10_000_000));
    let result = ledger.apply_fill(&sell_fill(200, 65), 100);
    assert!(matches!(result, Ok(())));
    assert_eq!(ledger.cash().value(), 10_000_000 + 20_000 - 65);
}

#[test]
fn test_ledger_settle_short_leg_marks_as_liability() {
    let mut ledger = Ledger::new(Cents::new(10_000_000));
    let Ok(()) = ledger.apply_fill(&sell_fill(200, 0), 100) else {
        panic!("apply fill");
    };
    let snap = snapshot(0, Some((510_000, OptionStyle::Call, 200)));
    let point = ledger.settle(StepIndex::new(0), snap.ts, &[short_call(200)], &snap);
    let Ok(point) = point else {
        panic!("settle succeeds");
    };
    assert_eq!(point.cash_cents, 10_000_000 + 20_000);
    assert_eq!(point.position_value_cents, -20_000);
    assert_eq!(point.equity_cents, 10_000_000);
    assert!(
        point.drawdown.below_peak == 0,
        "fresh peak → 0 drawdown"
    );
}

#[test]
fn test_ledger_drawdown_is_negative_below_peak_never_clamped() {
    let mut ledger = Ledger::new(Cents::new(10_000_000));
    let snap = snapshot(1, Some((510_000, OptionStyle::Call, 300)));
    let point = ledger.settle(StepIndex::new(1), snap.ts, &[short_call(200)], &snap);
    let Ok(point) = point else {
        panic!("settle succeeds");
    };
    assert_eq!(point.equity_cents, 10_000_000 - 30_000);
    assert!(
        point.drawdown.below_peak < 0,
        "equity below peak → negative drawdown"
    );
}

#[test]
fn test_ledger_carries_last_known_mark_when_contract_absent() {
    let mut ledger = Ledger::new(Cents::new(10_000_000));
    let leg = short_call(200);
    let snap0 = snapshot(0, Some((510_000, OptionStyle::Call, 250)));
    let Ok(p0) = ledger.settle(
        StepIndex::new(0),
        snap0.ts,
        std::slice::from_ref(&leg),
        &snap0,
    ) else {
        panic!("settle 0");
    };
    assert_eq!(p0.position_value_cents, -25_000);
    let snap1 = snapshot(1, None);
    let Ok(p1) = ledger.settle(StepIndex::new(1), snap1.ts, &[leg], &snap1) else {
        panic!("settle 1");
    };
    assert_eq!(p1.position_value_cents, -25_000);
}
