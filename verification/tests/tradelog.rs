//! The log of closed trades.

use ironcondor::domain::{
    Cents, ContractKey, ExpirationDate, Instant, OptionStyle, PositionId, PriceCents, Quantity,
    Side, TradeId, Underlying,
};
use ironcondor::engine::tradelog::{realized_pnl_cents, TradeLogCollector};
use ironcondor::engine::{ClosedTrade, ExitReason};
use ironcondor::error::BacktestError;

const TS0: i64 = 1_750_291_200_000_000_000;
const NANOS_PER_DAY: i64 = 86_400_000_000_000;

fn und() -> Underlying {
    let Ok(u) = Underlying::new("SPX") else {
        panic!("SPX is valid");
    };
    u
}

fn key(strike: u64, style: OptionStyle) -> ContractKey {
    ContractKey {
        underlying: und(),
        expiration: ExpirationDate::DateTime(Instant::from_timestamp_nanos(
            TS0 + 30 * NANOS_PER_DAY,
        )),
        strike: PriceCents::new(strike),
        style,
    }
}

fn qty(n: u32) -> Quantity {
    let Ok(q) = Quantity::new(n) else {
        panic!("{n} is valid");
    };
    q
}

#[test]
fn test_realized_pnl_short_leg_bought_back_cheaper_is_a_gain() {
    let pnl = realized_pnl_cents(
        Side::Short,
        PriceCents::new(200),
        PriceCents::new(150),
        qty(1),
        100,
        Cents::new(65),
    );
    assert!(matches!(pnl, Ok(c) if c.value() == 4_935));
}

#[test]
fn test_realized_pnl_long_leg_sold_lower_is_a_loss() {
    let pnl = realized_pnl_cents(
        Side::Long,
        PriceCents::new(200),
        PriceCents::new(150),
        qty(2),
        100,
        Cents::new(30),
    );
    assert!(matches!(pnl, Ok(c) if c.value() == -10_030));
}

#[test]
fn test_collector_pairs_open_and_close_into_realised_trade() {
    let mut collector = TradeLogCollector::with_capacity(4);
    collector.reserve(4);
    collector.record_open(
        PositionId::new(1),
        TradeId::new(1),
        key(510_000, OptionStyle::Call),
        Side::Short,
        qty(1),
        PriceCents::new(2_000),
        TS0,
    );
    let Ok(()) = collector.record_close(
        PositionId::new(1),
        PriceCents::new(1_500),
        Cents::new(65),
        Cents::new(0),
        TS0 + NANOS_PER_DAY,
        qty(1),
        100,
        ExitReason::TargetReached,
    ) else {
        panic!("close pairs with the open");
    };
    let log = collector.into_log();
    assert_eq!(log.len(), 1);
    let Some(trade) = log.first() else {
        panic!("one closed trade");
    };
    assert_eq!(trade.position_id, PositionId::new(1));
    assert_eq!(trade.trade_id, TradeId::new(1));
    assert_eq!(trade.side, Side::Short);
    assert_eq!(trade.realized_pnl, Cents::new(49_935));
    assert_eq!(trade.entry_ts, TS0);
    assert_eq!(trade.exit_ts, TS0 + NANOS_PER_DAY);
    assert_eq!(trade.exit_reason, ExitReason::TargetReached);
}

#[test]
fn test_collector_partial_close_keeps_leg_open_then_full_close_removes_it() {
    let mut collector = TradeLogCollector::with_capacity(1);
    collector.record_open(
        PositionId::new(7),
        TradeId::new(3),
        key(490_000, OptionStyle::Put),
        Side::Short,
        qty(3),
        PriceCents::new(1_000),
        TS0,
    );
    let Ok(()) = collector.record_close(
        PositionId::new(7),
        PriceCents::new(900),
        Cents::new(10),
        Cents::new(0),
        TS0 + NANOS_PER_DAY,
        qty(1),
        100,
        ExitReason::ManualClose,
    ) else {
        panic!("partial close records a trade");
    };
    let Ok(()) = collector.record_close(
        PositionId::new(7),
        PriceCents::new(800),
        Cents::new(20),
        Cents::new(0),
        TS0 + 2 * NANOS_PER_DAY,
        qty(2),
        100,
        ExitReason::Expiration,
    ) else {
        panic!("full close records a trade");
    };
    let log = collector.into_log();
    assert_eq!(log.len(), 2, "each close event is one record");
    let mut empty = collector_after(&log);
    let err = empty.record_close(
        PositionId::new(7),
        PriceCents::new(800),
        Cents::new(0),
        Cents::new(0),
        TS0,
        qty(1),
        100,
        ExitReason::Expiration,
    );
    assert!(matches!(
        err,
        Err(BacktestError::Execution(_))
    ));
}

fn collector_after(_log: &[ClosedTrade]) -> TradeLogCollector {
    TradeLogCollector::with_capacity(0)
}

#[test]
fn partial_closes_add_up_to_one_close() {
    let pnl = |n: u32, fees: i64| {
        realized_pnl_cents(
            Side::Short,
            PriceCents::new(200),
            PriceCents::new(150),
            qty(n),
            100,
            Cents::new(fees),
        )
        .map(|c| c.value())
        .unwrap_or_default()
    };
    assert_eq!(pnl(1, 10) + pnl(2, 20), pnl(3, 30));
}

#[test]
fn long_and_short_gain_what_the_other_loses() {
    let pnl = |side: Side| {
        realized_pnl_cents(
            side,
            PriceCents::new(200),
            PriceCents::new(150),
            qty(2),
            100,
            Cents::new(0),
        )
        .map(|c| c.value())
        .unwrap_or_default()
    };
    assert_eq!(pnl(Side::Long), -pnl(Side::Short));
    assert_eq!(pnl(Side::Short), 10_000);
}

#[test]
fn realized_pnl_beyond_the_range_of_cents_overflows() {
    let pnl = realized_pnl_cents(
        Side::Long,
        PriceCents::new(0),
        PriceCents::new(u64::MAX),
        qty(u32::MAX),
        u32::MAX,
        Cents::new(0),
    );
    assert!(matches!(pnl, Err(BacktestError::ArithmeticOverflow)));
}
