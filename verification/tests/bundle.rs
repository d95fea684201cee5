//! The fills and positions that a run records.

use ironcondor::domain::{
    Cents, ContractKey, ExecutionMode, ExpirationDate, Fill, Instant, OptionStyle, PositionId,
    PriceCents, Quantity, Side, SimTime, StepIndex, TradeId, Underlying,
};
use ironcondor::engine::bundle_collector::{unrealized_cents, BundleCollector};
use ironcondor::engine::{ExitReason, PositionMark};

const TS0: i64 = 1_750_291_200_000_000_000;
const NANOS_PER_DAY: i64 = 86_400_000_000_000;

fn und() -> Underlying {
    let Ok(u) = Underlying::new("SPX") else {
        panic!("SPX is valid");
    };
    u
}

fn qty(n: u32) -> Quantity {
    let Ok(q) = Quantity::new(n) else {
        panic!("{n} is valid");
    };
    q
}

fn key(strike: u64) -> ContractKey {
    ContractKey {
        underlying: und(),
        expiration: ExpirationDate::DateTime(Instant::from_timestamp_nanos(
            TS0 + 30 * NANOS_PER_DAY,
        )),
        strike: PriceCents::new(strike),
        style: OptionStyle::Call,
    }
}

fn open_fill(price: u64, step: u32) -> Fill {
    Fill {
        ts: SimTime::new(TS0 + i64::from(step) * NANOS_PER_DAY),
        step: StepIndex::new(step),
        contract: key(510_000),
        side: Side::Short,
        quantity: qty(2),
        price: PriceCents::new(price),
        fees: Cents::new(65),
        slippage: Cents::new(0),
        mode: ExecutionMode::Naive,
    }
}

fn close_fill(price: u64, step: u32, quantity: u32) -> Fill {
    Fill {
        ts: SimTime::new(TS0 + i64::from(step) * NANOS_PER_DAY),
        step: StepIndex::new(step),
        contract: key(510_000),
        side: Side::Long,
        quantity: qty(quantity),
        price: PriceCents::new(price),
        fees: Cents::new(65),
        slippage: Cents::new(0),
        mode: ExecutionMode::Naive,
    }
}

fn mark(mark_cents: u64, quantity: u32, stale: bool) -> PositionMark {
    PositionMark {
        position_id: PositionId::new(1),
        contract: key(510_000),
        side: Side::Short,
        quantity: qty(quantity),
        contract_multiplier: 100,
        mark: PriceCents::new(mark_cents),
        stale_mark: stale,
        prior_greeks: None,
    }
}

#[test]
fn test_unrealized_cents_short_leg_mark_below_entry_is_a_gain() {
    let pnl = unrealized_cents(
        PriceCents::new(1_500),
        PriceCents::new(2_000),
        2,
        100,
        Side::Short,
    );
    assert!(matches!(pnl, Ok(100_000)));
}

#[test]
fn test_record_open_pushes_one_fill_and_no_position_row() {
    let mut collector = BundleCollector::with_capacity(4);
    collector.record_open_fill(&open_fill(2_000, 0), 1, TradeId::new(1), PositionId::new(1));
    let (fills, positions) = collector.into_parts();
    assert_eq!(fills.len(), 1);
    assert!(
        positions.is_empty(),
        "an open pushes no position row itself"
    );
    let Some(record) = fills.first() else {
        panic!("one fill record");
    };
    assert_eq!(record.trade_id, 1);
    assert_eq!(record.position_id, 1);
    assert_eq!(record.order_id, 1);
    assert_eq!(record.fill_seq, 0);
}

#[test]
fn test_collect_step_emits_open_row_per_marked_leg() {
    let mut collector = BundleCollector::with_capacity(4);
    collector.record_open_fill(&open_fill(2_000, 0), 1, TradeId::new(7), PositionId::new(1));
    let Ok(()) = collector.collect_step(0, TS0, &[mark(1_900, 2, false)], false) else {
        panic!("collect step");
    };
    let (_fills, positions) = collector.into_parts();
    assert_eq!(positions.len(), 1);
    let Some(row) = positions.first() else {
        panic!("one open row");
    };
    assert_eq!(row.position_id, 1);
    assert_eq!(row.trade_id, 7);
    assert_eq!(row.avg_price_cents, 2_000);
    assert_eq!(row.mark_cents, 1_900);
    assert_eq!(row.unrealized_cents, 20_000);
    assert!(row.exit_reason.is_none(), "open rows have no exit reason");
    assert!(!row.open_at_end);
}

#[test]
fn test_full_close_writes_terminal_row_with_exit_reason() {
    let mut collector = BundleCollector::with_capacity(4);
    collector.record_open_fill(&open_fill(2_000, 0), 1, TradeId::new(7), PositionId::new(1));
    let Ok(()) = collector.record_close_fill(
        &close_fill(1_750, 3, 2),
        2,
        PositionId::new(1),
        true,
        Some(PriceCents::new(1_800)),
        100,
        ExitReason::Other("end_of_data".to_string()),
    ) else {
        panic!("record close");
    };
    let Ok(()) = collector.collect_step(3, TS0, &[], true) else {
        panic!("collect step after close");
    };
    let (fills, positions) = collector.into_parts();
    assert_eq!(fills.len(), 2, "one open + one close fill");
    assert_eq!(positions.len(), 1, "exactly one terminal row");
    let Some(term) = positions.first() else {
        panic!("terminal row");
    };
    assert_eq!(term.step, 3);
    assert_eq!(term.quantity, 2, "contracts closed before the close");
    assert_eq!(
        term.mark_cents, 1_800,
        "the snapshot mid, not the fill price"
    );
    assert_eq!(
        term.side,
        Side::Short,
        "the leg's opened side, not the close"
    );
    assert_eq!(term.unrealized_cents, 40_000);
    assert!(!term.open_at_end);
    assert!(matches!(
        term.exit_reason.as_ref(),
        Some(ExitReason::Other(reason)) if reason == "end_of_data"
    ));
}

#[test]
fn test_partial_close_writes_no_terminal_row_and_leg_stays_open() {
    let mut collector = BundleCollector::with_capacity(4);
    collector.record_open_fill(&open_fill(2_000, 0), 1, TradeId::new(7), PositionId::new(1));
    let Ok(()) = collector.record_close_fill(
        &close_fill(1_900, 2, 1),
        2,
        PositionId::new(1),
        false,
        Some(PriceCents::new(1_900)),
        100,
        ExitReason::ManualClose,
    ) else {
        panic!("partial close");
    };
    let Ok(()) = collector.collect_step(2, TS0, &[mark(1_900, 1, false)], false) else {
        panic!("collect step");
    };
    let (fills, positions) = collector.into_parts();
    assert_eq!(fills.len(), 2);
    assert_eq!(positions.len(), 1, "only the surviving-leg open row");
    let Some(row) = positions.first() else {
        panic!("open row");
    };
    assert!(
        row.exit_reason.is_none(),
        "a partial close writes no terminal row"
    );
    assert_eq!(row.quantity, 1, "the reduced open size");
}

#[test]
fn test_open_at_end_flag_set_on_final_step_open_rows() {
    let mut collector = BundleCollector::with_capacity(4);
    collector.record_open_fill(&open_fill(2_000, 0), 1, TradeId::new(7), PositionId::new(1));
    let Ok(()) = collector.collect_step(5, TS0, &[mark(2_100, 2, false)], true) else {
        panic!("collect final step");
    };
    let (_fills, positions) = collector.into_parts();
    let Some(row) = positions.first() else {
        panic!("open row");
    };
    assert!(row.open_at_end, "a leg open at feed exhaustion is flagged");
    assert!(
        row.exit_reason.is_none(),
        "no terminal row for an open_at_end leg"
    );
}

#[test]
fn test_reserve_grows_capacity_without_changing_len() {
    let mut collector = BundleCollector::with_capacity(0);
    collector.reserve(4, 64);
    assert!(collector.positions.capacity() >= 64 * 4);
    assert_eq!(collector.positions.len(), 0);
    assert_eq!(collector.fills.len(), 0);
}
