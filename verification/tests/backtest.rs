//! Whole runs: startup, steps, resting orders and the end of the tape.

use ironcondor::config::{BacktestConfig, FeeSchedule};
use ironcondor::data::{DataFeed, DataSourceSpec, TapeMeta};
use ironcondor::domain::{
    Cents, ChainSnapshot, ContractKey, ContractMap, Decimal, ExecutionMode, ExpirationDate, Fill,
    InstrumentSpec, Instant, OptionStyle, OrderCommand, OrderId, OrderIntent, PositionAction,
    PositionId, PriceCents, Quantity, QuoteView, Side, SimTime, StepIndex, TimeInForce, Underlying,
};
use ironcondor::engine::fills::{aggregate_fills, vwap_cents};
use ironcondor::engine::strategy::default_exit_reason;
use ironcondor::engine::{BacktestEngine, BacktestRun, ChainContext, ExitReason, Strategy};
use ironcondor::error::BacktestError;
use ironcondor::execution::{CarryGroup, ExecutionModel, FillGroup};
use rand_chacha::rand_core::{Rng, SeedableRng};
use rand_chacha::ChaCha8Rng;
use rust_decimal::Decimal as RustDecimal;
use std::cell::RefCell;
use std::rc::Rc;

const TS0: i64 = 1_750_291_200_000_000_000;
const STRIKE: u64 = 510_000;

fn und() -> Underlying {
    let Ok(u) = Underlying::new("SPX") else {
        panic!("SPX is valid");
    };
    u
}

fn qty(n: u32) -> Quantity {
    let Ok(q) = Quantity::new(n) else {
        panic!("{n} is a valid quantity");
    };
    q
}

fn call_key() -> ContractKey {
    ContractKey {
        underlying: und(),
        expiration: ExpirationDate::DateTime(Instant::from_timestamp_nanos(TS0)),
        strike: PriceCents::new(STRIKE),
        style: OptionStyle::Call,
    }
}

fn quote(mid: u64) -> QuoteView {
    assert!(mid >= 10, "fixtures use a mid of at least 10c");
    QuoteView {
        contract: call_key(),
        bid: PriceCents::new(mid - 10),
        ask: PriceCents::new(mid + 10),
        mid: PriceCents::new(mid),
        bid_size: qty(50),
        ask_size: qty(50),
        implied_volatility: Decimal::new(2, 1),
        delta: Decimal::new(3, 1),
        gamma: Decimal::new(1, 2),
        theta: Decimal::new(-5, 2),
        vega: Decimal::new(1, 1),
    }
}

fn snapshot(step: u32, mid: u64) -> ChainSnapshot {
    let mut quotes = ContractMap::new();
    let q = quote(mid);
    quotes.insert(q.contract.clone(), q);
    let Ok(spec) = InstrumentSpec::new(PriceCents::new(5), 100) else {
        panic!("valid spec");
    };
    ChainSnapshot {
        ts: SimTime::new(TS0 + i64::from(step) * 1_000),
        step: StepIndex::new(step),
        underlying: und(),
        underlying_price: PriceCents::new(500_000),
        spec,
        quotes,
    }
}

/// A tape that is held in memory.
struct TapeFeed {
    meta: TapeMeta,
    source: DataSourceSpec,
    tape: std::vec::IntoIter<ChainSnapshot>,
}

impl TapeFeed {
    fn new(
        identity: &str,
        tape: Vec<ChainSnapshot>,
        source: DataSourceSpec,
    ) -> Result<Self, BacktestError> {
        let (Some(first), Some(last)) = (tape.first(), tape.last()) else {
            return Err(BacktestError::Config("the tape is empty".to_string()));
        };
        Ok(TapeFeed {
            meta: TapeMeta {
                non_empty: true,
                final_step: last.step,
                first_ts: first.ts,
                data_identity: identity.to_string(),
            },
            source,
            tape: tape.into_iter(),
        })
    }
}

impl DataFeed for TapeFeed {
    fn tape_meta(&self) -> &TapeMeta {
        &self.meta
    }

    fn meta(&self) -> DataSourceSpec {
        self.source.clone()
    }

    fn next(&mut self) -> Result<Option<ChainSnapshot>, BacktestError> {
        Ok(self.tape.next())
    }
}

/// Fills every submitted order whole at the mid.
struct MidFill;

impl ExecutionModel for MidFill {
    fn fill(
        &mut self,
        commands: &[OrderCommand],
        _submit_ids: &[OrderId],
        snap: &ChainSnapshot,
        out_fills: &mut Vec<Fill>,
    ) -> Result<(), BacktestError> {
        for cmd in commands {
            if let OrderCommand::Submit(intent) = cmd {
                let Some(quote) = snap.quotes.get(&intent.contract) else {
                    return Err(BacktestError::Execution("not quoted".to_string()));
                };
                out_fills.push(fill_of(snap, intent, intent.quantity, quote.mid, 0));
            }
        }
        Ok(())
    }

    fn mode(&self) -> ExecutionMode {
        ExecutionMode::Naive
    }

    fn fill_groups(&self) -> Option<&[FillGroup]> {
        None
    }

    fn carry_fills(&self) -> &[CarryGroup] {
        &[]
    }
}

fn fill_of(
    snap: &ChainSnapshot,
    intent: &OrderIntent,
    quantity: Quantity,
    price: PriceCents,
    fees: i64,
) -> Fill {
    Fill {
        ts: snap.ts,
        step: snap.step,
        contract: intent.contract.clone(),
        side: intent.side,
        quantity,
        price,
        fees: Cents::new(fees),
        slippage: Cents::new(0),
        mode: ExecutionMode::Realistic,
    }
}

/// A book of two levels a side, laid anew at each step: orders walk it, and
/// what a good-till-cancelled order leaves rests until a later book crosses it.
struct Book {
    fees: FeeSchedule,
    touch: Option<u32>,
    laid_at: Option<u32>,
    asks: Vec<(u64, u32)>,
    bids: Vec<(u64, u32)>,
    resting: Vec<(OrderId, OrderIntent, u32)>,
    groups: Vec<FillGroup>,
    carries: Vec<CarryGroup>,
}

impl Book {
    fn new(fees: FeeSchedule, touch: Option<u32>) -> Self {
        Book {
            fees,
            touch,
            laid_at: None,
            asks: Vec::new(),
            bids: Vec::new(),
            resting: Vec::new(),
            groups: Vec::new(),
            carries: Vec::new(),
        }
    }

    fn lay(&mut self, snap: &ChainSnapshot) {
        let Some(quote) = snap.quotes.get(&call_key()) else {
            panic!("the call is quoted in the fixture");
        };
        let tick = snap.spec.tick_size_cents.value();
        let (bid, ask) = (quote.bid.value(), quote.ask.value());
        let asked = self.touch.unwrap_or(quote.ask_size.value());
        let bidden = self.touch.unwrap_or(quote.bid_size.value());
        self.asks = vec![(ask, asked), (ask + tick, asked)];
        self.bids = vec![(bid, bidden), (bid - tick, bidden)];
    }

    /// Walk the book for some contracts, at no worse than the limit. Returns the
    /// price and size taken of each level.
    fn walk(&mut self, side: Side, limit: Option<PriceCents>, wanted: u32) -> Vec<(u64, u32)> {
        let levels = match side {
            Side::Long => &mut self.asks,
            Side::Short => &mut self.bids,
        };
        let mut left = wanted;
        let mut taken = Vec::new();
        for (price, size) in levels.iter_mut() {
            let crosses = match (side, limit) {
                (_, None) => true,
                (Side::Long, Some(limit)) => *price <= limit.value(),
                (Side::Short, Some(limit)) => *price >= limit.value(),
            };
            let n = left.min(*size);
            if crosses && n > 0 {
                taken.push((*price, n));
                *size -= n;
                left -= n;
            }
        }
        taken
    }

    fn push_fills(
        &self,
        snap: &ChainSnapshot,
        intent: &OrderIntent,
        taken: &[(u64, u32)],
        first: bool,
        out_fills: &mut Vec<Fill>,
    ) {
        for (level, (price, n)) in taken.iter().enumerate() {
            let mut fees = i64::from(*n) * self.fees.per_contract_cents as i64;
            if first && level == 0 {
                fees += self.fees.per_order_cents as i64;
            }
            out_fills.push(fill_of(snap, intent, qty(*n), PriceCents::new(*price), fees));
        }
    }
}

impl ExecutionModel for Book {
    fn fill(
        &mut self,
        commands: &[OrderCommand],
        submit_ids: &[OrderId],
        snap: &ChainSnapshot,
        out_fills: &mut Vec<Fill>,
    ) -> Result<(), BacktestError> {
        self.groups.clear();
        self.carries.clear();
        if self.laid_at != Some(snap.step.value()) {
            self.laid_at = Some(snap.step.value());
            self.lay(snap);
            for (order_id, intent, left) in std::mem::take(&mut self.resting) {
                let taken = self.walk(intent.side, intent.limit, left);
                self.push_fills(snap, &intent, &taken, false, out_fills);
                let filled: u32 = taken.iter().map(|(_, n)| *n).sum();
                if filled > 0 {
                    self.carries.push(CarryGroup {
                        order_id,
                        fill_count: taken.len() as u32,
                    });
                }
                if filled < left {
                    self.resting.push((order_id, intent, left - filled));
                }
            }
        }
        let mut ids = submit_ids.iter();
        for (command_index, cmd) in commands.iter().enumerate() {
            match cmd {
                OrderCommand::Cancel(order_id) => {
                    self.resting.retain(|(id, _, _)| id != order_id);
                }
                OrderCommand::Submit(intent) => {
                    let Some(order_id) = ids.next() else {
                        return Err(BacktestError::Execution("an id is missing".to_string()));
                    };
                    let wanted = intent.quantity.value();
                    let taken = self.walk(intent.side, intent.limit, wanted);
                    self.push_fills(snap, intent, &taken, true, out_fills);
                    let filled: u32 = taken.iter().map(|(_, n)| *n).sum();
                    if filled > 0 {
                        self.groups.push(FillGroup {
                            command_index,
                            fill_count: taken.len() as u32,
                        });
                    }
                    if filled < wanted && intent.tif == TimeInForce::Gtc {
                        self.resting.push((*order_id, intent.clone(), wanted - filled));
                    }
                }
                OrderCommand::Replace { .. } => {
                    return Err(BacktestError::Execution("not replaceable".to_string()));
                }
            }
        }
        Ok(())
    }

    fn fill_groups(&self) -> Option<&[FillGroup]> {
        Some(&self.groups)
    }

    fn carry_fills(&self) -> &[CarryGroup] {
        &self.carries
    }

    fn mode(&self) -> ExecutionMode {
        ExecutionMode::Realistic
    }
}

fn feed_of(mids: &[u64]) -> TapeFeed {
    let tape: Vec<ChainSnapshot> = mids
        .iter()
        .enumerate()
        .map(|(step, &mid)| {
            let step = u32::try_from(step).unwrap_or(u32::MAX);
            snapshot(step, mid)
        })
        .collect();
    let source = DataSourceSpec::Parquet {
        path: "test.parquet".to_string(),
        sha256: "test-sha".to_string(),
    };
    let Ok(feed) = TapeFeed::new("test-sha", tape, source) else {
        panic!("a strictly-ordered non-empty tape builds a feed");
    };
    feed
}

fn config() -> BacktestConfig {
    BacktestConfig {
        data_source: DataSourceSpec::Parquet {
            path: "test.parquet".to_string(),
            sha256: "test-sha".to_string(),
        },
        mode: ExecutionMode::Naive,
        seed: 7,
        initial_capital: 10_000_000,
        fees: FeeSchedule {
            per_contract_cents: 0,
            per_order_cents: 0,
        },
        marketable_cap_ticks: 10,
        output_dir: "runs/out".to_string(),
        overwrite: false,
    }
}

fn naive() -> MidFill {
    MidFill
}

fn open_call(snapshot: &ChainSnapshot) -> OrderCommand {
    let Some(quote) = snapshot.quotes.get(&call_key()) else {
        panic!("the call is quoted in the fixture");
    };
    OrderCommand::Submit(OrderIntent {
        contract: call_key(),
        action: PositionAction::Open,
        side: Side::Long,
        quantity: qty(1),
        limit: None,
        tif: TimeInForce::Ioc,
        decision_mid: quote.mid,
    })
}

struct HoldOpen {
    opened: bool,
    seen_open_lens: Rc<RefCell<Vec<usize>>>,
}

impl Strategy for HoldOpen {
    fn on_start(
        &mut self,
        ctx: &mut ChainContext,
        out: &mut Vec<OrderCommand>,
    ) -> Result<(), BacktestError> {
        out.push(open_call(ctx.snapshot));
        self.opened = true;
        Ok(())
    }

    fn on_snapshot(
        &mut self,
        ctx: &mut ChainContext,
        out: &mut Vec<OrderCommand>,
    ) -> Result<(), BacktestError> {
        self.seen_open_lens.borrow_mut().push(ctx.open.len());
        if !self.opened {
            out.push(open_call(ctx.snapshot));
            self.opened = true;
        }
        Ok(())
    }

    fn on_end(
        &mut self,
        _ctx: &mut ChainContext,
        _out: &mut Vec<OrderCommand>,
    ) -> Result<(), BacktestError> {
        Ok(())
    }

    fn exits(
        &mut self,
        _ctx: &ChainContext,
        _out: &mut Vec<OrderCommand>,
    ) -> Result<(), BacktestError> {
        Ok(())
    }

    fn exit_reason(&self) -> ExitReason {
        default_exit_reason()
    }
}

struct CloseUnknown;

impl Strategy for CloseUnknown {
    fn on_start(
        &mut self,
        _ctx: &mut ChainContext,
        _out: &mut Vec<OrderCommand>,
    ) -> Result<(), BacktestError> {
        Ok(())
    }

    fn on_snapshot(
        &mut self,
        ctx: &mut ChainContext,
        out: &mut Vec<OrderCommand>,
    ) -> Result<(), BacktestError> {
        let Some(quote) = ctx.snapshot.quotes.get(&call_key()) else {
            panic!("the call is quoted");
        };
        out.push(OrderCommand::Submit(OrderIntent {
            contract: call_key(),
            action: PositionAction::Close(PositionId::new(999)),
            side: Side::Short,
            quantity: qty(1),
            limit: None,
            tif: TimeInForce::Ioc,
            decision_mid: quote.mid,
        }));
        Ok(())
    }

    fn on_end(
        &mut self,
        _ctx: &mut ChainContext,
        _out: &mut Vec<OrderCommand>,
    ) -> Result<(), BacktestError> {
        Ok(())
    }

    fn exits(
        &mut self,
        _ctx: &ChainContext,
        _out: &mut Vec<OrderCommand>,
    ) -> Result<(), BacktestError> {
        Ok(())
    }

    fn exit_reason(&self) -> ExitReason {
        default_exit_reason()
    }
}

struct CloseOversized;

impl Strategy for CloseOversized {
    fn on_start(
        &mut self,
        ctx: &mut ChainContext,
        out: &mut Vec<OrderCommand>,
    ) -> Result<(), BacktestError> {
        out.push(open_call(ctx.snapshot));
        Ok(())
    }

    fn on_snapshot(
        &mut self,
        ctx: &mut ChainContext,
        out: &mut Vec<OrderCommand>,
    ) -> Result<(), BacktestError> {
        let Some(leg) = ctx.open.first() else {
            return Ok(());
        };
        let Some(quote) = ctx.snapshot.quotes.get(&call_key()) else {
            panic!("the call is quoted");
        };
        out.push(OrderCommand::Submit(OrderIntent {
            contract: call_key(),
            action: PositionAction::Close(leg.position_id),
            side: Side::Short,
            quantity: qty(2),
            limit: None,
            tif: TimeInForce::Ioc,
            decision_mid: quote.mid,
        }));
        Ok(())
    }

    fn on_end(
        &mut self,
        _ctx: &mut ChainContext,
        _out: &mut Vec<OrderCommand>,
    ) -> Result<(), BacktestError> {
        Ok(())
    }

    fn exits(
        &mut self,
        _ctx: &ChainContext,
        _out: &mut Vec<OrderCommand>,
    ) -> Result<(), BacktestError> {
        Ok(())
    }

    fn exit_reason(&self) -> ExitReason {
        default_exit_reason()
    }
}

struct OnEndOpen;

impl Strategy for OnEndOpen {
    fn on_start(
        &mut self,
        _ctx: &mut ChainContext,
        _out: &mut Vec<OrderCommand>,
    ) -> Result<(), BacktestError> {
        Ok(())
    }

    fn on_snapshot(
        &mut self,
        _ctx: &mut ChainContext,
        _out: &mut Vec<OrderCommand>,
    ) -> Result<(), BacktestError> {
        Ok(())
    }

    fn on_end(
        &mut self,
        ctx: &mut ChainContext,
        out: &mut Vec<OrderCommand>,
    ) -> Result<(), BacktestError> {
        out.push(open_call(ctx.snapshot));
        Ok(())
    }

    fn exits(
        &mut self,
        _ctx: &ChainContext,
        _out: &mut Vec<OrderCommand>,
    ) -> Result<(), BacktestError> {
        Ok(())
    }

    fn exit_reason(&self) -> ExitReason {
        default_exit_reason()
    }
}

struct RngProbe {
    opened: bool,
}

impl Strategy for RngProbe {
    fn on_start(
        &mut self,
        _ctx: &mut ChainContext,
        _out: &mut Vec<OrderCommand>,
    ) -> Result<(), BacktestError> {
        Ok(())
    }

    fn on_snapshot(
        &mut self,
        ctx: &mut ChainContext,
        out: &mut Vec<OrderCommand>,
    ) -> Result<(), BacktestError> {
        let draw = ctx.rng.next_u32();
        if !self.opened && draw % 2 == 0 {
            out.push(open_call(ctx.snapshot));
            self.opened = true;
        }
        Ok(())
    }

    fn on_end(
        &mut self,
        _ctx: &mut ChainContext,
        _out: &mut Vec<OrderCommand>,
    ) -> Result<(), BacktestError> {
        Ok(())
    }

    fn exits(
        &mut self,
        _ctx: &ChainContext,
        _out: &mut Vec<OrderCommand>,
    ) -> Result<(), BacktestError> {
        Ok(())
    }

    fn exit_reason(&self) -> ExitReason {
        default_exit_reason()
    }
}

struct Passive;

impl Strategy for Passive {
    fn on_start(
        &mut self,
        _ctx: &mut ChainContext,
        _out: &mut Vec<OrderCommand>,
    ) -> Result<(), BacktestError> {
        Ok(())
    }

    fn on_snapshot(
        &mut self,
        _ctx: &mut ChainContext,
        _out: &mut Vec<OrderCommand>,
    ) -> Result<(), BacktestError> {
        Ok(())
    }

    fn on_end(
        &mut self,
        _ctx: &mut ChainContext,
        _out: &mut Vec<OrderCommand>,
    ) -> Result<(), BacktestError> {
        Ok(())
    }

    fn exits(
        &mut self,
        _ctx: &ChainContext,
        _out: &mut Vec<OrderCommand>,
    ) -> Result<(), BacktestError> {
        Ok(())
    }

    fn exit_reason(&self) -> ExitReason {
        default_exit_reason()
    }
}

struct GroupedRefreshOnly {
    groups: Vec<FillGroup>,
}

impl ExecutionModel for GroupedRefreshOnly {
    fn fill(
        &mut self,
        _commands: &[OrderCommand],
        _submit_ids: &[OrderId],
        snap: &ChainSnapshot,
        out_fills: &mut Vec<Fill>,
    ) -> Result<(), BacktestError> {
        out_fills.push(Fill {
            ts: snap.ts,
            step: snap.step,
            contract: call_key(),
            side: Side::Short,
            quantity: qty(1),
            price: PriceCents::new(100),
            fees: Cents::new(0),
            slippage: Cents::new(0),
            mode: ExecutionMode::Realistic,
        });
        Ok(())
    }

    fn fill_groups(&self) -> Option<&[FillGroup]> {
        Some(&self.groups)
    }

    fn mode(&self) -> ExecutionMode {
        ExecutionMode::Realistic
    }

    fn carry_fills(&self) -> &[CarryGroup] {
        &[]
    }
}

#[test]
fn test_grouped_no_groups_surplus_fill_is_typed_error_not_silent() {
    let feed = feed_of(&[105, 106]);
    let config = config();
    let execution = GroupedRefreshOnly { groups: Vec::new() };
    let result = BacktestEngine::run(&config, feed, execution, Passive, "passive");
    assert!(
        matches!(result, Err(BacktestError::Execution(_))),
        "a surplus refresh fill under the grouped contract is a typed error"
    );
}

#[test]
fn test_on_start_positions_are_visible_in_open_at_step_zero() {
    let seen = Rc::new(RefCell::new(Vec::new()));
    let strategy = HoldOpen {
        opened: false,
        seen_open_lens: Rc::clone(&seen),
    };
    let run = BacktestEngine::run(
        &config(),
        feed_of(&[200, 210, 220]),
        naive(),
        strategy,
        "hold",
    );
    let Ok(_run) = run else {
        panic!("the run succeeds");
    };
    let lens = seen.borrow();
    assert!(
        matches!(lens.first(), Some(1)),
        "step 0 on_snapshot sees the startup leg"
    );
    assert!(
        lens.iter().all(|&n| n == 1),
        "the single leg stays open every step (never re-opened)"
    );
}

#[test]
fn test_run_emits_exactly_one_equity_point_per_step_including_last() {
    let seen = Rc::new(RefCell::new(Vec::new()));
    let strategy = HoldOpen {
        opened: false,
        seen_open_lens: Rc::clone(&seen),
    };
    let Ok(run) = BacktestEngine::run(
        &config(),
        feed_of(&[200, 210, 220, 230]),
        naive(),
        strategy,
        "hold",
    ) else {
        panic!("the run succeeds");
    };
    assert_eq!(run.equity_curve.len(), 4, "one equity point per snapshot");
    let steps: Vec<u32> = run.equity_curve.iter().map(|p| p.step).collect();
    assert_eq!(steps, vec![0, 1, 2, 3], "points are in step order");
}

#[test]
fn test_leg_left_open_is_open_at_end_without_synthetic_terminal_fill() {
    let seen = Rc::new(RefCell::new(Vec::new()));
    let strategy = HoldOpen {
        opened: false,
        seen_open_lens: Rc::clone(&seen),
    };
    let Ok(run) =
        BacktestEngine::run(&config(), feed_of(&[200, 300]), naive(), strategy, "hold")
    else {
        panic!("the run succeeds");
    };
    assert_eq!(run.open_at_end.len(), 1);
    let Some(leg) = run.open_at_end.first() else {
        panic!("one leg open at end");
    };
    assert_eq!(leg.position_id, PositionId::new(1));
    let Some(last) = run.equity_curve.last() else {
        panic!("a final equity point exists");
    };
    assert_eq!(last.position_value_cents, 30_000);
}

#[test]
fn test_close_unknown_leg_is_execution_error() {
    let run = BacktestEngine::run(
        &config(),
        feed_of(&[200, 210]),
        naive(),
        CloseUnknown,
        "close",
    );
    assert!(matches!(run, Err(BacktestError::Execution(_))));
}

#[test]
fn test_close_oversized_quantity_is_execution_error() {
    let run = BacktestEngine::run(
        &config(),
        feed_of(&[200, 210]),
        naive(),
        CloseOversized,
        "close",
    );
    assert!(matches!(run, Err(BacktestError::Execution(_))));
}

#[test]
fn test_open_from_on_end_is_execution_error() {
    let run = BacktestEngine::run(&config(), feed_of(&[200]), naive(), OnEndOpen, "onend");
    assert!(matches!(run, Err(BacktestError::Execution(_))));
}

#[test]
fn test_same_seed_same_result_with_rng_consuming_strategy() {
    let curves = |seed: u64| -> BacktestRun {
        let mut cfg = config();
        cfg.seed = seed;
        let Ok(run) = BacktestEngine::run(
            &cfg,
            feed_of(&[200, 210, 220, 230, 240]),
            naive(),
            RngProbe { opened: false },
            "rng",
        ) else {
            panic!("the run succeeds");
        };
        run
    };
    let a = curves(42);
    let b = curves(42);
    assert_eq!(a.equity_curve, b.equity_curve);
    assert_eq!(a.open_at_end, b.open_at_end);
    assert_eq!(a.result.final_capital, b.result.final_capital);
}

#[test]
fn test_chacha8_seeded_stream_is_pinned() {
    let draws = |seed: u64| -> [u32; 4] {
        let mut rng = ChaCha8Rng::seed_from_u64(seed);
        [
            rng.next_u32(),
            rng.next_u32(),
            rng.next_u32(),
            rng.next_u32(),
        ]
    };
    assert_eq!(
        draws(42),
        [962_419_617, 2_928_721_845, 628_724_104, 4_081_401_798]
    );
    assert_eq!(
        draws(0),
        [2_811_902_828, 3_045_455_719, 3_134_767_159, 2_001_118_559]
    );
}

#[test]
fn test_initial_capital_zero_is_config_error() {
    let mut cfg = config();
    cfg.initial_capital = 0;
    let strategy = HoldOpen {
        opened: false,
        seen_open_lens: Rc::new(RefCell::new(Vec::new())),
    };
    let run = BacktestEngine::run(&cfg, feed_of(&[200]), naive(), strategy, "hold");
    assert!(matches!(run, Err(BacktestError::Config(_))));
}

#[test]
fn test_realistic_marketable_open_walks_two_levels_into_one_correlated_order() {
    struct OpenLots {
        lots: u32,
    }

    impl Strategy for OpenLots {
        fn on_start(
            &mut self,
            ctx: &mut ChainContext,
            out: &mut Vec<OrderCommand>,
        ) -> Result<(), BacktestError> {
            let Some(quote) = ctx.snapshot.quotes.get(&call_key()) else {
                panic!("the call is quoted in the fixture");
            };
            out.push(OrderCommand::Submit(OrderIntent {
                contract: call_key(),
                action: PositionAction::Open,
                side: Side::Long,
                quantity: qty(self.lots),
                limit: None,
                tif: TimeInForce::Ioc,
                decision_mid: quote.mid,
            }));
            Ok(())
        }

        fn on_snapshot(
            &mut self,
            _ctx: &mut ChainContext,
            _out: &mut Vec<OrderCommand>,
        ) -> Result<(), BacktestError> {
            Ok(())
        }

        fn on_end(
            &mut self,
            _ctx: &mut ChainContext,
            _out: &mut Vec<OrderCommand>,
        ) -> Result<(), BacktestError> {
            Ok(())
        }

        fn exits(
            &mut self,
            _ctx: &ChainContext,
            _out: &mut Vec<OrderCommand>,
        ) -> Result<(), BacktestError> {
            Ok(())
        }

        fn exit_reason(&self) -> ExitReason {
            default_exit_reason()
        }
    }

    let fees = FeeSchedule {
        per_contract_cents: 65,
        per_order_cents: 100,
    };
    let run_once = || {
        let execution = Book::new(fees, Some(3));
        let Ok(run) = BacktestEngine::run(
            &config(),
            feed_of(&[200, 200]),
            execution,
            OpenLots { lots: 5 },
            "multilevel",
        ) else {
            panic!("the multi-level realistic run succeeds");
        };
        run
    };
    let run = run_once();

    assert_eq!(run.fills.len(), 2, "the buy for 5 walks two ask levels");
    let (Some(f0), Some(f1)) = (run.fills.first(), run.fills.get(1)) else {
        panic!("two fill records expected");
    };
    assert_eq!(f0.order_id, f1.order_id, "one order across both levels");
    assert_eq!(f0.position_id, f1.position_id, "one leg across both levels");
    assert_eq!(f0.trade_id, f1.trade_id, "one trade across both levels");
    assert_eq!(f0.fill_seq, 0);
    assert_eq!(f1.fill_seq, 1);
    assert_eq!((f0.fill.price.value(), f0.fill.quantity.value()), (210, 3));
    assert_eq!((f1.fill.price.value(), f1.fill.quantity.value()), (215, 2));
    assert!(
        f1.fill.price.value() > f0.fill.price.value(),
        "each deeper level fills worse for a buy"
    );
    assert!(
        run.fills
            .iter()
            .all(|r| r.fill.mode == ExecutionMode::Realistic)
    );
    assert_eq!(f0.fill.fees.value(), 3 * 65 + 100);
    assert_eq!(f1.fill.fees.value(), 2 * 65);

    let mut keys: Vec<(u32, u64, u32)> = run
        .fills
        .iter()
        .map(|r| (r.fill.step.value(), r.order_id, r.fill_seq))
        .collect();
    let total = keys.len();
    keys.sort_unstable();
    keys.dedup();
    assert_eq!(
        keys.len(),
        total,
        "the (step, order_id, fill_seq) key must be unique"
    );

    assert_eq!(run.open_at_end.len(), 1, "the single leg is held open");
    let Some(leg) = run.open_at_end.first() else {
        panic!("one open leg at end");
    };
    assert_eq!(leg.quantity.value(), 5, "aggregate quantity across levels");
    assert_eq!(leg.entry_premium.value(), 212, "VWAP entry premium");
    assert_eq!(leg.side, Side::Long);

    let Some(last) = run.equity_curve.last() else {
        panic!("a final equity point exists");
    };
    assert_eq!(last.position_value_cents, 100_000);
    assert_eq!(last.equity_cents, 10_000_000 - 106_425 + 100_000);

    let again = run_once();
    assert_eq!(run.fills, again.fills, "the fill stream is deterministic");
    assert_eq!(run.equity_curve, again.equity_curve);
}

#[test]
fn test_vwap_cents_half_to_even_ties_match_money_policy() {
    let oracle = |notional: u128, total_qty: u64| -> u64 {
        let Ok(n) = i64::try_from(notional) else {
            panic!("fixture notional fits i64");
        };
        let dollars = RustDecimal::from(n) / RustDecimal::from(total_qty) / RustDecimal::ONE_HUNDRED;
        let dollars = Decimal::from_i128_with_scale(dollars.mantissa(), dollars.scale());
        let Ok(price) = PriceCents::from_decimal_dollars(dollars) else {
            panic!("the oracle price must convert");
        };
        price.value()
    };

    let Ok(down) = vwap_cents(842, 4) else {
        panic!("vwap must compute");
    };
    assert_eq!(down.value(), 210, "210.5 ties to the even 210, not 211");
    assert_eq!(
        down.value(),
        oracle(842, 4),
        "the tie-down cent must equal the money policy"
    );

    let Ok(up) = vwap_cents(846, 4) else {
        panic!("vwap must compute");
    };
    assert_eq!(up.value(), 212, "211.5 ties to the even 212, not 211");
    assert_eq!(
        up.value(),
        oracle(846, 4),
        "the tie-up cent must equal the money policy"
    );

    let Ok(below) = vwap_cents(841, 4) else {
        panic!("vwap must compute");
    };
    assert_eq!(below.value(), 210, "210.25 rounds down to 210");
    let Ok(above) = vwap_cents(843, 4) else {
        panic!("vwap must compute");
    };
    assert_eq!(above.value(), 211, "210.75 rounds up to 211");
}

#[test]
fn test_realistic_marketable_close_walks_two_levels_into_one_terminal_row() {
    struct OpenThenCloseLots {
        lots: u32,
        closed: bool,
    }

    impl Strategy for OpenThenCloseLots {
        fn on_start(
            &mut self,
            ctx: &mut ChainContext,
            out: &mut Vec<OrderCommand>,
        ) -> Result<(), BacktestError> {
            let Some(quote) = ctx.snapshot.quotes.get(&call_key()) else {
                panic!("the call is quoted in the fixture");
            };
            out.push(OrderCommand::Submit(OrderIntent {
                contract: call_key(),
                action: PositionAction::Open,
                side: Side::Long,
                quantity: qty(self.lots),
                limit: None,
                tif: TimeInForce::Ioc,
                decision_mid: quote.mid,
            }));
            Ok(())
        }

        fn on_snapshot(
            &mut self,
            ctx: &mut ChainContext,
            out: &mut Vec<OrderCommand>,
        ) -> Result<(), BacktestError> {
            if self.closed {
                return Ok(());
            }
            let Some(leg) = ctx.open.first() else {
                return Ok(());
            };
            let Some(quote) = ctx.snapshot.quotes.get(&call_key()) else {
                panic!("the call is quoted in the fixture");
            };
            out.push(OrderCommand::Submit(OrderIntent {
                contract: call_key(),
                action: PositionAction::Close(leg.position_id),
                side: Side::Short,
                quantity: leg.quantity,
                limit: None,
                tif: TimeInForce::Ioc,
                decision_mid: quote.mid,
            }));
            self.closed = true;
            Ok(())
        }

        fn on_end(
            &mut self,
            _ctx: &mut ChainContext,
            _out: &mut Vec<OrderCommand>,
        ) -> Result<(), BacktestError> {
            Ok(())
        }

        fn exits(
            &mut self,
            _ctx: &ChainContext,
            _out: &mut Vec<OrderCommand>,
        ) -> Result<(), BacktestError> {
            Ok(())
        }

        fn exit_reason(&self) -> ExitReason {
            default_exit_reason()
        }
    }

    let fees = FeeSchedule {
        per_contract_cents: 65,
        per_order_cents: 100,
    };
    let execution = Book::new(fees, Some(3));
    let Ok(run) = BacktestEngine::run(
        &config(),
        feed_of(&[200]),
        execution,
        OpenThenCloseLots {
            lots: 5,
            closed: false,
        },
        "close-walk",
    ) else {
        panic!("the multi-level close run succeeds");
    };

    let closes: Vec<_> = run
        .fills
        .iter()
        .filter(|r| r.fill.side == Side::Short)
        .collect();
    assert_eq!(closes.len(), 2, "the close for 5 walks two bid levels");
    let (Some(c0), Some(c1)) = (closes.first(), closes.get(1)) else {
        panic!("two close fill records expected");
    };
    assert_eq!(
        c0.order_id, c1.order_id,
        "one close order across both levels"
    );
    assert_eq!(c0.position_id, 1);
    assert_eq!(c1.position_id, 1);
    assert_eq!(c0.fill_seq, 0);
    assert_eq!(c1.fill_seq, 1);
    assert_eq!((c0.fill.price.value(), c0.fill.quantity.value()), (190, 3));
    assert_eq!((c1.fill.price.value(), c1.fill.quantity.value()), (185, 2));
    assert!(
        c1.fill.price.value() < c0.fill.price.value(),
        "each deeper level fills worse for a sell"
    );

    assert!(run.open_at_end.is_empty(), "the whole leg closed");
    let terminals: Vec<_> = run
        .positions
        .iter()
        .filter(|p| p.exit_reason.is_some())
        .collect();
    assert_eq!(
        terminals.len(),
        1,
        "one terminal row for the multi-level close, not one per level"
    );
    let Some(term) = terminals.first() else {
        panic!("one terminal row");
    };
    assert_eq!(term.position_id, 1);
    assert_eq!(
        term.quantity, 5,
        "the terminal row aggregates the total closed quantity"
    );

    let Some(last) = run.equity_curve.last() else {
        panic!("a final equity point exists");
    };
    assert_eq!(last.position_value_cents, 0);
    assert_eq!(last.equity_cents, 10_000_000 - 106_425 + 93_575);
}

struct GtcRest {
    limit: u64,
    quantity: u32,
    cancel_at_step: Option<u32>,
}

impl Strategy for GtcRest {
    fn on_start(
        &mut self,
        ctx: &mut ChainContext,
        out: &mut Vec<OrderCommand>,
    ) -> Result<(), BacktestError> {
        out.push(OrderCommand::Submit(OrderIntent {
            contract: call_key(),
            action: PositionAction::Open,
            side: Side::Long,
            quantity: Quantity::new(self.quantity)?,
            limit: Some(PriceCents::new(self.limit)),
            tif: TimeInForce::Gtc,
            decision_mid: ctx
                .snapshot
                .quotes
                .get(&call_key())
                .map_or(PriceCents::new(self.limit), |q| q.mid),
        }));
        Ok(())
    }

    fn exits(
        &mut self,
        _ctx: &ChainContext,
        _out: &mut Vec<OrderCommand>,
    ) -> Result<(), BacktestError> {
        Ok(())
    }

    fn on_snapshot(
        &mut self,
        ctx: &mut ChainContext,
        out: &mut Vec<OrderCommand>,
    ) -> Result<(), BacktestError> {
        if self.cancel_at_step == Some(ctx.step.value()) {
            if let Some(pending) = ctx.pending.first() {
                out.push(OrderCommand::Cancel(pending.order_id));
            }
        }
        Ok(())
    }

    fn on_end(
        &mut self,
        _ctx: &mut ChainContext,
        _out: &mut Vec<OrderCommand>,
    ) -> Result<(), BacktestError> {
        Ok(())
    }

    fn exit_reason(&self) -> ExitReason {
        ExitReason::ManualClose
    }
}

fn realistic() -> Book {
    Book::new(config().fees, None)
}

#[test]
fn test_engine_resting_gtc_opens_via_carry_with_original_order_id() {
    let run = BacktestEngine::run(
        &config(),
        feed_of(&[600, 490, 490]),
        realistic(),
        GtcRest {
            limit: 500,
            quantity: 2,
            cancel_at_step: None,
        },
        "gtc-rest",
    );
    let Ok(run) = run else {
        panic!("the carry-path run succeeds: {run:?}");
    };
    assert_eq!(run.fills.len(), 1, "exactly the carried fill");
    let Some(fill) = run.fills.first() else {
        panic!("one fill record");
    };
    assert_eq!(fill.order_id, 1, "the step-0 pre-minted order id");
    assert_eq!(fill.fill.step.value(), 1, "filled by step 1's refresh");
    assert_eq!(fill.fill_seq, 0, "the order's first fill");
    assert_eq!(fill.fill.price.value(), 500);
    assert_eq!(run.open_at_end.len(), 1, "the carried open stays open");
    assert_eq!(run.equity_curve.len(), 3);
}

#[test]
fn test_engine_cancel_before_cross_never_fills() {
    let run = BacktestEngine::run(
        &config(),
        feed_of(&[600, 600, 490]),
        realistic(),
        GtcRest {
            limit: 500,
            quantity: 2,
            cancel_at_step: Some(1),
        },
        "gtc-cancel",
    );
    let Ok(run) = run else {
        panic!("the cancel run succeeds: {run:?}");
    };
    assert!(run.fills.is_empty(), "a cancelled order never fills");
    assert!(run.open_at_end.is_empty());
    assert!(run.trade_log.is_empty());
}

#[test]
fn test_engine_pending_open_at_end_is_dropped_cleanly() {
    let run = BacktestEngine::run(
        &config(),
        feed_of(&[600, 600]),
        realistic(),
        GtcRest {
            limit: 500,
            quantity: 2,
            cancel_at_step: None,
        },
        "gtc-unfilled",
    );
    let Ok(run) = run else {
        panic!("the unfilled run succeeds: {run:?}");
    };
    assert!(run.fills.is_empty(), "no fill was invented at end of data");
    assert!(run.open_at_end.is_empty());
    assert!(run.trade_log.is_empty());
}

fn sized_feed(specs: &[(u64, u32)]) -> TapeFeed {
    let tape: Vec<ChainSnapshot> = specs
        .iter()
        .enumerate()
        .map(|(step, &(mid, size))| {
            let step = u32::try_from(step).unwrap_or(u32::MAX);
            let mut snap = snapshot(step, mid);
            let mut sized = quote(mid);
            sized.ask_size = qty(size);
            sized.bid_size = qty(size);
            snap.quotes.insert(call_key(), sized);
            snap
        })
        .collect();
    let source = DataSourceSpec::Parquet {
        path: "test.parquet".to_string(),
        sha256: "test-sha".to_string(),
    };
    let Ok(feed) = TapeFeed::new("test-sha", tape, source) else {
        panic!("a strictly-ordered non-empty tape builds a feed");
    };
    feed
}

#[test]
fn test_engine_partial_fill_across_snapshots_extends_one_position() {
    let run = BacktestEngine::run(
        &config(),
        sized_feed(&[(490, 2), (490, 2), (490, 2)]),
        realistic(),
        GtcRest {
            limit: 500,
            quantity: 4,
            cancel_at_step: None,
        },
        "gtc-partial",
    );
    let Ok(run) = run else {
        panic!("the partial-fill run succeeds: {run:?}");
    };
    assert_eq!(run.fills.len(), 2, "submit fill + carried fill");
    let (Some(first), Some(second)) = (run.fills.first(), run.fills.get(1)) else {
        panic!("two fill records");
    };
    assert_eq!(first.order_id, second.order_id, "one order");
    assert_eq!(
        first.position_id, second.position_id,
        "ONE position — the carry extends the leg, never mints a second"
    );
    assert_eq!(first.trade_id, second.trade_id, "one trade");
    assert_eq!(
        (first.fill_seq, second.fill_seq),
        (0, 1),
        "fill_seq continues"
    );
    assert_eq!(run.open_at_end.len(), 1);
    let Some(leg) = run.open_at_end.first() else {
        panic!("one leg");
    };
    assert_eq!(leg.quantity.value(), 4, "the leg carries the full size");
}

struct TwoGtcRest;

impl Strategy for TwoGtcRest {
    fn on_start(
        &mut self,
        ctx: &mut ChainContext,
        out: &mut Vec<OrderCommand>,
    ) -> Result<(), BacktestError> {
        let mid = ctx
            .snapshot
            .quotes
            .get(&call_key())
            .map_or(PriceCents::new(500), |q| q.mid);
        for _ in 0..2 {
            out.push(OrderCommand::Submit(OrderIntent {
                contract: call_key(),
                action: PositionAction::Open,
                side: Side::Long,
                quantity: qty(1),
                limit: Some(PriceCents::new(500)),
                tif: TimeInForce::Gtc,
                decision_mid: mid,
            }));
        }
        Ok(())
    }

    fn exits(
        &mut self,
        _ctx: &ChainContext,
        _out: &mut Vec<OrderCommand>,
    ) -> Result<(), BacktestError> {
        Ok(())
    }

    fn on_snapshot(
        &mut self,
        _ctx: &mut ChainContext,
        _out: &mut Vec<OrderCommand>,
    ) -> Result<(), BacktestError> {
        Ok(())
    }

    fn on_end(
        &mut self,
        _ctx: &mut ChainContext,
        _out: &mut Vec<OrderCommand>,
    ) -> Result<(), BacktestError> {
        Ok(())
    }

    fn exit_reason(&self) -> ExitReason {
        ExitReason::ManualClose
    }
}

#[test]
fn test_engine_all_resting_multi_leg_entry_shares_one_trade() {
    let run = BacktestEngine::run(
        &config(),
        feed_of(&[600, 490, 490]),
        realistic(),
        TwoGtcRest,
        "two-gtc",
    );
    let Ok(run) = run else {
        panic!("the all-resting run succeeds: {run:?}");
    };
    assert_eq!(run.fills.len(), 2, "both resting opens filled");
    let (Some(first), Some(second)) = (run.fills.first(), run.fills.get(1)) else {
        panic!("two fill records");
    };
    assert_ne!(first.order_id, second.order_id, "two orders");
    assert_ne!(first.position_id, second.position_id, "two legs");
    assert_eq!(
        first.trade_id, second.trade_id,
        "opens emitted together share ONE step-wide trade"
    );
}

#[test]
fn test_engine_carry_path_run_twice_is_identical() {
    let go = || {
        let run = BacktestEngine::run(
            &config(),
            feed_of(&[600, 490, 490]),
            realistic(),
            GtcRest {
                limit: 500,
                quantity: 2,
                cancel_at_step: None,
            },
            "gtc-rest",
        );
        let Ok(run) = run else {
            panic!("the run succeeds");
        };
        let fill_ids: Vec<(u64, u32, u32)> = run
            .fills
            .iter()
            .map(|f| (f.order_id, f.fill.step.value(), f.fill_seq))
            .collect();
        (run.equity_curve, fill_ids)
    };
    let (equity_a, fills_a) = go();
    let (equity_b, fills_b) = go();
    assert_eq!(equity_a, equity_b, "byte-identical equity curves");
    assert_eq!(fills_a, fills_b, "identical fill identities");
}

struct OpenThenRestClose {
    rested: bool,
}

impl Strategy for OpenThenRestClose {
    fn on_start(
        &mut self,
        ctx: &mut ChainContext,
        out: &mut Vec<OrderCommand>,
    ) -> Result<(), BacktestError> {
        out.push(OrderCommand::Submit(OrderIntent {
            contract: call_key(),
            action: PositionAction::Open,
            side: Side::Long,
            quantity: qty(1),
            limit: None,
            tif: TimeInForce::Ioc,
            decision_mid: ctx
                .snapshot
                .quotes
                .get(&call_key())
                .map_or(PriceCents::new(500), |q| q.mid),
        }));
        Ok(())
    }

    fn exits(
        &mut self,
        _ctx: &ChainContext,
        _out: &mut Vec<OrderCommand>,
    ) -> Result<(), BacktestError> {
        Ok(())
    }

    fn on_snapshot(
        &mut self,
        ctx: &mut ChainContext,
        out: &mut Vec<OrderCommand>,
    ) -> Result<(), BacktestError> {
        if !self.rested {
            let Some(leg) = ctx.open.first() else {
                return Ok(());
            };
            self.rested = true;
            out.push(OrderCommand::Submit(OrderIntent {
                contract: leg.contract.clone(),
                action: PositionAction::Close(leg.position_id),
                side: Side::Short,
                quantity: leg.quantity,
                limit: Some(PriceCents::new(100_000)),
                tif: TimeInForce::Gtc,
                decision_mid: PriceCents::new(600),
            }));
        }
        Ok(())
    }

    fn on_end(
        &mut self,
        _ctx: &mut ChainContext,
        _out: &mut Vec<OrderCommand>,
    ) -> Result<(), BacktestError> {
        Ok(())
    }

    fn exit_reason(&self) -> ExitReason {
        ExitReason::ManualClose
    }
}

#[test]
fn test_engine_resting_close_that_never_fills_leaves_leg_open_at_end() {
    let run = BacktestEngine::run(
        &config(),
        feed_of(&[600, 600, 600]),
        realistic(),
        OpenThenRestClose { rested: false },
        "rest-close",
    );
    let Ok(run) = run else {
        panic!("the resting-close run succeeds: {run:?}");
    };
    assert_eq!(run.open_at_end.len(), 1, "the leg ends honestly open");
    assert!(
        run.trade_log.is_empty(),
        "no close was realised — the resting close never filled"
    );
    assert!(
        run.fills.iter().all(|f| f.fill.step.value() == 0),
        "every fill is the step-0 open"
    );
}

fn walked_run() -> BacktestRun {
    let fees = FeeSchedule {
        per_contract_cents: 65,
        per_order_cents: 100,
    };
    let Ok(run) = BacktestEngine::run(
        &config(),
        feed_of(&[200, 230, 190, 260]),
        Book::new(fees, Some(3)),
        TwoRounds { round: 0 },
        "rounds",
    ) else {
        panic!("the run succeeds");
    };
    run
}

/// Opens two contracts at the start and closes one of them in each of the
/// next two steps.
struct TwoRounds {
    round: u32,
}

impl Strategy for TwoRounds {
    fn on_start(
        &mut self,
        ctx: &mut ChainContext,
        out: &mut Vec<OrderCommand>,
    ) -> Result<(), BacktestError> {
        for _ in 0..2 {
            out.push(open_call(ctx.snapshot));
        }
        Ok(())
    }

    fn on_snapshot(
        &mut self,
        ctx: &mut ChainContext,
        out: &mut Vec<OrderCommand>,
    ) -> Result<(), BacktestError> {
        self.round += 1;
        if self.round == 2 || self.round == 3 {
            let Some(leg) = ctx.open.first() else {
                return Ok(());
            };
            out.push(OrderCommand::Submit(OrderIntent {
                contract: leg.contract.clone(),
                action: PositionAction::Close(leg.position_id),
                side: Side::Short,
                quantity: leg.quantity,
                limit: None,
                tif: TimeInForce::Ioc,
                decision_mid: PriceCents::new(200),
            }));
        }
        Ok(())
    }

    fn on_end(
        &mut self,
        _ctx: &mut ChainContext,
        _out: &mut Vec<OrderCommand>,
    ) -> Result<(), BacktestError> {
        Ok(())
    }

    fn exits(
        &mut self,
        _ctx: &ChainContext,
        _out: &mut Vec<OrderCommand>,
    ) -> Result<(), BacktestError> {
        Ok(())
    }

    fn exit_reason(&self) -> ExitReason {
        default_exit_reason()
    }
}

#[test]
fn step_profits_add_up_to_the_change_of_equity() {
    let run = walked_run();
    let total: i64 = run
        .attribution_substrate
        .steps
        .iter()
        .map(|step| step.step_pnl_cents)
        .sum();
    let Some(last) = run.equity_curve.last() else {
        panic!("a final equity point exists");
    };
    assert_eq!(10_000_000 + total, last.equity_cents);
    assert_eq!(run.result.final_capital, Decimal::new(last.equity_cents, 2));
    assert_eq!(run.result.initial_capital, Decimal::new(10_000_000, 2));
}

#[test]
fn cash_moves_by_fills_alone() {
    let run = walked_run();
    let flow: i64 = run
        .fills
        .iter()
        .map(|record| {
            let gross = record.fill.price.value() as i64
                * i64::from(record.fill.quantity.value())
                * 100;
            let signed = match record.fill.side {
                Side::Long => -gross,
                Side::Short => gross,
            };
            signed - record.fill.fees.value()
        })
        .sum();
    let Some(last) = run.equity_curve.last() else {
        panic!("a final equity point exists");
    };
    assert_eq!(last.cash_cents, 10_000_000 + flow);
    assert_eq!(last.equity_cents, last.cash_cents + last.position_value_cents);
}

#[test]
fn order_ids_go_up_and_are_never_reused() {
    let run = walked_run();
    let mut ids: Vec<u64> = run.fills.iter().map(|record| record.order_id).collect();
    assert!(ids.windows(2).all(|pair| pair[0] <= pair[1]));
    ids.dedup();
    assert_eq!(ids, vec![1, 2, 3, 4]);
    let legs: Vec<u64> = run.trade_log.iter().map(|t| t.position_id.value()).collect();
    assert_eq!(legs, vec![1, 2]);
    assert!(run.open_at_end.is_empty());
}

#[test]
fn fill_keys_are_unique_while_an_order_rests() {
    let run = BacktestEngine::run(
        &config(),
        sized_feed(&[(490, 1), (490, 1), (490, 1), (490, 1)]),
        realistic(),
        GtcRest {
            limit: 500,
            quantity: 3,
            cancel_at_step: None,
        },
        "gtc-partial",
    );
    let Ok(run) = run else {
        panic!("the partial-fill run succeeds: {run:?}");
    };
    let keys: Vec<(u64, u32)> = run
        .fills
        .iter()
        .map(|record| (record.order_id, record.fill_seq))
        .collect();
    assert_eq!(keys, vec![(1, 0), (1, 1), (1, 2)]);
    assert!(run.fills.iter().all(|record| record.position_id == 1 && record.trade_id == 1));
}

#[test]
fn fills_form_a_tree() {
    let run = walked_run();
    for a in &run.fills {
        for b in &run.fills {
            assert!(a.order_id != b.order_id || a.position_id == b.position_id);
            assert!(a.position_id != b.position_id || a.trade_id == b.trade_id);
        }
    }
    let tree: Vec<(u64, u64, u64)> = run
        .fills
        .iter()
        .map(|record| (record.trade_id, record.position_id, record.order_id))
        .collect();
    assert_eq!(tree, vec![(1, 1, 1), (1, 2, 2), (1, 1, 3), (1, 2, 4)]);
}

#[test]
fn every_leg_ends_once() {
    let run = walked_run();
    let ends: Vec<u64> = run
        .positions
        .iter()
        .filter(|row| row.exit_reason.is_some())
        .map(|row| row.position_id)
        .collect();
    assert_eq!(ends, vec![1, 2]);
    assert!(run.open_at_end.is_empty());
}

/// Opens one contract at the start and closes it at the end of the tape.
struct HeldToTheEnd;

impl Strategy for HeldToTheEnd {
    fn on_start(
        &mut self,
        ctx: &mut ChainContext,
        out: &mut Vec<OrderCommand>,
    ) -> Result<(), BacktestError> {
        out.push(open_call(ctx.snapshot));
        Ok(())
    }

    fn on_snapshot(
        &mut self,
        _ctx: &mut ChainContext,
        _out: &mut Vec<OrderCommand>,
    ) -> Result<(), BacktestError> {
        Ok(())
    }

    fn on_end(
        &mut self,
        ctx: &mut ChainContext,
        out: &mut Vec<OrderCommand>,
    ) -> Result<(), BacktestError> {
        for leg in ctx.open {
            out.push(OrderCommand::Submit(OrderIntent {
                contract: leg.contract.clone(),
                action: PositionAction::Close(leg.position_id),
                side: Side::Short,
                quantity: leg.quantity,
                limit: None,
                tif: TimeInForce::Ioc,
                decision_mid: PriceCents::new(200),
            }));
        }
        Ok(())
    }

    fn exits(
        &mut self,
        _ctx: &ChainContext,
        _out: &mut Vec<OrderCommand>,
    ) -> Result<(), BacktestError> {
        Ok(())
    }

    fn exit_reason(&self) -> ExitReason {
        default_exit_reason()
    }
}

#[test]
fn what_is_closed_at_the_end_says_so() {
    let Ok(run) = BacktestEngine::run(
        &config(),
        feed_of(&[200, 230]),
        naive(),
        HeldToTheEnd,
        "held",
    ) else {
        panic!("the run succeeds");
    };
    let reasons: Vec<ExitReason> =
        run.trade_log.iter().map(|trade| trade.exit_reason.clone()).collect();
    assert_eq!(reasons, vec![ExitReason::Other("end_of_data".to_string())]);
    assert!(run.open_at_end.is_empty());
}

#[test]
fn endpoints_of_the_attribution_chain() {
    let run = walked_run();
    let steps = &run.attribution_substrate.steps;
    assert_eq!(steps.len(), 4);
    assert!(steps
        .windows(2)
        .all(|pair| pair[1].prior_ts_ns == pair[0].ts_ns));
    let samples: usize = steps.iter().map(|step| step.leg_count).sum();
    assert_eq!(samples, run.attribution_substrate.legs.len());
}

#[test]
fn empty_tape_is_refused_as_data() {
    let mut feed = feed_of(&[200]);
    feed.meta.non_empty = false;
    let run = BacktestEngine::run(&config(), feed, naive(), Passive, "passive");
    assert!(matches!(run, Err(BacktestError::Data(_))));
}

#[test]
fn tape_that_ends_early_is_refused_as_data() {
    let mut feed = feed_of(&[200, 210]);
    feed.meta.final_step = StepIndex::new(5);
    let run = BacktestEngine::run(&config(), feed, naive(), Passive, "passive");
    assert!(matches!(run, Err(BacktestError::Data(_))));
}

#[test]
fn tape_that_goes_back_in_time_is_out_of_order() {
    let mut second = snapshot(1, 210);
    second.ts = SimTime::new(TS0);
    let source = DataSourceSpec::Parquet {
        path: "test.parquet".to_string(),
        sha256: "test-sha".to_string(),
    };
    let Ok(feed) = TapeFeed::new("test-sha", vec![snapshot(0, 200), second], source) else {
        panic!("the tape is not empty");
    };
    let run = BacktestEngine::run(&config(), feed, naive(), Passive, "passive");
    assert!(matches!(
        run,
        Err(BacktestError::DataOutOfOrder { step: 1, ts: TS0, prev: TS0 })
    ));
}

#[test]
fn capital_beyond_the_range_of_cents_is_refused() {
    let mut cfg = config();
    cfg.initial_capital = u64::MAX;
    let run = BacktestEngine::run(&cfg, feed_of(&[200]), naive(), Passive, "passive");
    assert!(matches!(run, Err(BacktestError::Config(_))));
}

#[test]
fn run_hands_on_where_its_data_came_from() {
    let Ok(run) = BacktestEngine::run(&config(), feed_of(&[200]), naive(), Passive, "passive")
    else {
        panic!("the run succeeds");
    };
    assert_eq!(run.data_identity, "test-sha");
    assert_eq!(run.data_source, config().data_source);
    assert_eq!(run.result.strategy_name, "passive");
    assert_eq!(
        run.result.test_period_start.timestamp_nanos_opt(),
        Some(TS0)
    );
}

/// Records the first number that each step draws.
struct Draws {
    drawn: Rc<RefCell<Vec<u32>>>,
}

impl Strategy for Draws {
    fn on_start(
        &mut self,
        ctx: &mut ChainContext,
        _out: &mut Vec<OrderCommand>,
    ) -> Result<(), BacktestError> {
        self.drawn.borrow_mut().push(ctx.rng.next_u32());
        Ok(())
    }

    fn on_snapshot(
        &mut self,
        ctx: &mut ChainContext,
        _out: &mut Vec<OrderCommand>,
    ) -> Result<(), BacktestError> {
        self.drawn.borrow_mut().push(ctx.rng.next_u32());
        Ok(())
    }

    fn on_end(
        &mut self,
        _ctx: &mut ChainContext,
        _out: &mut Vec<OrderCommand>,
    ) -> Result<(), BacktestError> {
        Ok(())
    }

    fn exits(
        &mut self,
        _ctx: &ChainContext,
        _out: &mut Vec<OrderCommand>,
    ) -> Result<(), BacktestError> {
        Ok(())
    }

    fn exit_reason(&self) -> ExitReason {
        default_exit_reason()
    }
}

#[test]
fn run_draws_from_its_seed_one_number_after_the_other() {
    let drawn = Rc::new(RefCell::new(Vec::new()));
    let mut cfg = config();
    cfg.seed = 42;
    let strategy = Draws {
        drawn: Rc::clone(&drawn),
    };
    let run = BacktestEngine::run(&cfg, feed_of(&[200, 210, 220]), naive(), strategy, "draws");
    assert!(run.is_ok());
    assert_eq!(
        *drawn.borrow(),
        vec![962_419_617, 2_928_721_845, 628_724_104, 4_081_401_798]
    );
}

#[test]
fn no_fills_come_to_nothing() {
    assert!(matches!(
        aggregate_fills(&[]),
        Err(BacktestError::ArithmeticOverflow)
    ));
}

/// Opens one contract at the start and closes it by its own exits.
struct OwnExits;

impl Strategy for OwnExits {
    fn on_start(
        &mut self,
        ctx: &mut ChainContext,
        out: &mut Vec<OrderCommand>,
    ) -> Result<(), BacktestError> {
        out.push(open_call(ctx.snapshot));
        Ok(())
    }

    fn exits(
        &mut self,
        ctx: &ChainContext,
        out: &mut Vec<OrderCommand>,
    ) -> Result<(), BacktestError> {
        if ctx.step.value() == 1 {
            for leg in ctx.open {
                out.push(OrderCommand::Submit(OrderIntent {
                    contract: leg.contract.clone(),
                    action: PositionAction::Close(leg.position_id),
                    side: Side::Short,
                    quantity: leg.quantity,
                    limit: None,
                    tif: TimeInForce::Ioc,
                    decision_mid: PriceCents::new(200),
                }));
            }
        }
        Ok(())
    }

    fn on_snapshot(
        &mut self,
        _ctx: &mut ChainContext,
        _out: &mut Vec<OrderCommand>,
    ) -> Result<(), BacktestError> {
        Ok(())
    }

    fn on_end(
        &mut self,
        _ctx: &mut ChainContext,
        _out: &mut Vec<OrderCommand>,
    ) -> Result<(), BacktestError> {
        Ok(())
    }

    fn exit_reason(&self) -> ExitReason {
        ExitReason::StopLoss
    }
}

#[test]
fn a_strategy_is_asked_to_exit_and_for_its_reason() {
    let Ok(run) = BacktestEngine::run(
        &config(),
        feed_of(&[200, 230, 240]),
        naive(),
        OwnExits,
        "exits",
    ) else {
        panic!("the run succeeds");
    };
    assert_eq!(run.trade_log.len(), 1);
    assert_eq!(run.trade_log[0].exit_reason, ExitReason::StopLoss);
    assert!(run.open_at_end.is_empty());
    assert_eq!(default_exit_reason(), ExitReason::Other("exit_policy".to_string()));
}

/// Fills as `MidFill` does, and counts how often it was asked.
struct Counted {
    inner: MidFill,
    asked: Rc<RefCell<u32>>,
}

impl ExecutionModel for Counted {
    fn fill(
        &mut self,
        cmds: &[OrderCommand],
        submit_ids: &[OrderId],
        snapshot: &ChainSnapshot,
        out: &mut Vec<Fill>,
    ) -> Result<(), BacktestError> {
        *self.asked.borrow_mut() += 1;
        self.inner.fill(cmds, submit_ids, snapshot, out)
    }

    fn fill_groups(&self) -> Option<&[FillGroup]> {
        None
    }

    fn carry_fills(&self) -> &[CarryGroup] {
        &[]
    }

    fn mode(&self) -> ExecutionMode {
        self.inner.mode()
    }
}

#[test]
fn an_open_at_the_end_is_refused_before_it_is_filled() {
    let asked = Rc::new(RefCell::new(0));
    let model = Counted {
        inner: naive(),
        asked: asked.clone(),
    };
    let run = BacktestEngine::run(&config(), feed_of(&[200]), model, OnEndOpen, "late");
    assert!(matches!(run, Err(BacktestError::Execution(_))));
    assert_eq!(*asked.borrow(), 1, "the opening was filled, the final step was not");
}
