//! Instruments and chain snapshots.

use ironcondor::domain::{
    ChainSnapshot, ContractKey, ContractMap, Decimal, ExpirationDate, Instant, InstrumentSpec,
    OptionStyle, PriceCents, Quantity, QuoteView, SimTime, StepIndex, Underlying,
};
use ironcondor::error::BacktestError;

#[test]
fn test_instrument_spec_rejects_zero_tick_size_conversion_error() {
    let spec = InstrumentSpec::new(PriceCents::new(0), 100);
    assert!(matches!(spec, Err(BacktestError::Conversion(_))));
}

#[test]
fn test_instrument_spec_rejects_zero_multiplier_conversion_error() {
    let spec = InstrumentSpec::new(PriceCents::new(5), 0);
    assert!(matches!(spec, Err(BacktestError::Conversion(_))));
}

#[test]
fn test_instrument_spec_accepts_valid_values() {
    let spec = InstrumentSpec::new(PriceCents::new(5), 100);
    assert!(
        matches!(spec, Ok(s) if s.tick_size_cents.value() == 5 && s.contract_multiplier == 100)
    );
}

fn key(strike_cents: u64) -> ContractKey {
    let Ok(underlying) = Underlying::new("SPX") else {
        panic!("SPX is a valid underlying");
    };
    ContractKey {
        underlying,
        expiration: ExpirationDate::DateTime(Instant::from_timestamp_nanos(
            1_750_291_200_000_000_000,
        )),
        strike: PriceCents::new(strike_cents),
        style: OptionStyle::Call,
    }
}

fn quote(strike_cents: u64) -> QuoteView {
    let Ok(qty) = Quantity::new(10) else {
        panic!("10 is a valid quantity");
    };
    QuoteView {
        contract: key(strike_cents),
        bid: PriceCents::new(100),
        ask: PriceCents::new(110),
        mid: PriceCents::new(105),
        bid_size: qty,
        ask_size: qty,
        implied_volatility: Decimal::new(2, 1),
        delta: Decimal::new(5, 1),
        gamma: Decimal::new(1, 2),
        theta: Decimal::new(-5, 2),
        vega: Decimal::new(1, 1),
    }
}

#[test]
fn test_chain_snapshot_quotes_iterate_in_key_order_regardless_of_insertion() {
    let mut quotes = ContractMap::new();
    for strike in [520_000u64, 500_000, 510_000] {
        quotes.insert(key(strike), quote(strike));
    }
    let strikes: Vec<u64> = (0..quotes.len())
        .map(|i| quotes.key_at(i).strike.value())
        .collect();
    assert_eq!(strikes, vec![500_000, 510_000, 520_000]);
}

#[test]
fn a_second_quote_for_a_contract_replaces_the_first() {
    let mut quotes = ContractMap::new();
    quotes.insert(key(500_000), quote(500_000));
    let mut moved = quote(500_000);
    moved.mid = PriceCents::new(107);
    quotes.insert(key(500_000), moved);
    assert_eq!(quotes.len(), 1);
    assert!(matches!(quotes.get(&key(500_000)), Some(q) if q.mid.value() == 107));
}

#[test]
fn the_mid_of_a_contract_that_is_not_quoted_is_unknown() {
    let mut quotes = ContractMap::new();
    quotes.insert(key(500_000), quote(500_000));
    let snapshot = ChainSnapshot {
        ts: SimTime::new(1),
        step: StepIndex::new(0),
        underlying: Underlying::new("SPX").unwrap_or_else(|_| unreachable!("valid")),
        underlying_price: PriceCents::new(510_000),
        spec: InstrumentSpec::new(PriceCents::new(5), 100).unwrap_or_else(|_| unreachable!("valid")),
        quotes,
    };
    assert!(matches!(snapshot.mid(&key(500_000)), Some(p) if p.value() == 105));
    assert!(snapshot.mid(&key(510_000)).is_none());
}
