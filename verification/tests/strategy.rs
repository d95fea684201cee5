//! The strategies: entry, exits, closing out and the control of resting orders.

use ironcondor::domain::{
    ChainSnapshot, ContractKey, ContractMap, Decimal, ExpirationDate, InstrumentSpec, Instant,
    IronCondorSpec, LegSetSpec, LegSpec, OpenPosition, OptionStyle, OrderCommand, OrderId,
    OrderIntent, PendingOrder, PositionAction, PositionId, Positive, PriceCents, Quantity,
    QuoteView, ShortStrangleSpec, Side, SimTime, StepIndex, StrategySpec, TimeInForce, Underlying,
};
use ironcondor::data::convert::resolve_expiration;
use ironcondor::engine::closing::{close_all, days_to_expiry};
use ironcondor::engine::entry::{quantity_from_positive, select_leg_set_quote};
use ironcondor::engine::exit_policy::{policy_reads_inner, policy_triggered};
use ironcondor::engine::named::{build_short_strangle, CondorTerms, StrangleTerms};
use ironcondor::engine::{
    ChainContext, ExitPolicy, ExitReason, IronCondor, LegSetStrategy, OptStratAdapter,
    PositionableStrategy, ShortStrangle, Strategy,
};
use ironcondor::error::BacktestError;
use rand_chacha::rand_core::SeedableRng;
use rand_chacha::ChaCha8Rng;

const NANOS_PER_DAY: i64 = 86_400_000_000_000;

fn assert_positionable_strategy<S: PositionableStrategy>() {}

#[test]
fn test_positionable_strategy_composes_three_bounds_short_strangle() {
    let _bound_holds: fn() = assert_positionable_strategy::<ShortStrangle>;
}

#[test]
fn test_positionable_strategy_composes_three_bounds_iron_condor() {
    let _bound_holds: fn() = assert_positionable_strategy::<IronCondor>;
}

const TS_NS: i64 = 1_750_291_200_000_000_000;
const EXP_NS: i64 = TS_NS + 30 * NANOS_PER_DAY;

fn pos(value: Decimal) -> Positive {
    let Ok(p) = Positive::new_decimal(value) else {
        panic!("{value:?} is a valid positive");
    };
    p
}

fn und() -> Underlying {
    let Ok(u) = Underlying::new("SPX") else {
        panic!("SPX is a valid underlying");
    };
    u
}

fn qty(n: u32) -> Quantity {
    let Ok(q) = Quantity::new(n) else {
        panic!("{n} is a valid quantity");
    };
    q
}

fn key(strike_cents: u64, style: OptionStyle) -> ContractKey {
    ContractKey {
        underlying: und(),
        expiration: ExpirationDate::DateTime(Instant::from_timestamp_nanos(EXP_NS)),
        strike: PriceCents::new(strike_cents),
        style,
    }
}

fn quote(strike_cents: u64, style: OptionStyle, mid_cents: u64) -> QuoteView {
    assert!(mid_cents >= 10, "quote fixtures use a mid of at least 10c");
    QuoteView {
        contract: key(strike_cents, style),
        bid: PriceCents::new(mid_cents - 10),
        ask: PriceCents::new(mid_cents + 10),
        mid: PriceCents::new(mid_cents),
        bid_size: qty(50),
        ask_size: qty(50),
        implied_volatility: Decimal::new(20, 2),
        delta: Decimal::new(30, 2),
        gamma: Decimal::new(1, 2),
        theta: Decimal::new(-5, 2),
        vega: Decimal::new(10, 2),
    }
}

fn key_at(strike_cents: u64, style: OptionStyle, exp_ns: i64) -> ContractKey {
    ContractKey {
        underlying: und(),
        expiration: ExpirationDate::DateTime(Instant::from_timestamp_nanos(exp_ns)),
        strike: PriceCents::new(strike_cents),
        style,
    }
}

fn quote_at(strike_cents: u64, style: OptionStyle, mid_cents: u64, exp_ns: i64) -> QuoteView {
    assert!(mid_cents >= 10, "quote fixtures use a mid of at least 10c");
    QuoteView {
        contract: key_at(strike_cents, style, exp_ns),
        bid: PriceCents::new(mid_cents - 10),
        ask: PriceCents::new(mid_cents + 10),
        mid: PriceCents::new(mid_cents),
        bid_size: qty(50),
        ask_size: qty(50),
        implied_volatility: Decimal::new(20, 2),
        delta: Decimal::new(30, 2),
        gamma: Decimal::new(1, 2),
        theta: Decimal::new(-5, 2),
        vega: Decimal::new(10, 2),
    }
}

fn snapshot(step: u32) -> ChainSnapshot {
    let mut quotes = ContractMap::new();
    for (strike, style, mid) in [
        (490_000u64, OptionStyle::Put, 1_800u64),
        (480_000, OptionStyle::Put, 700),
        (510_000, OptionStyle::Call, 2_000),
        (520_000, OptionStyle::Call, 800),
    ] {
        let q = quote(strike, style, mid);
        quotes.insert(q.contract.clone(), q);
    }
    let Ok(spec) = InstrumentSpec::new(PriceCents::new(5), 100) else {
        panic!("valid instrument spec");
    };
    ChainSnapshot {
        ts: SimTime::new(TS_NS),
        step: StepIndex::new(step),
        underlying: und(),
        underlying_price: PriceCents::new(500_000),
        spec,
        quotes,
    }
}

fn iron_condor() -> IronCondor {
    let Ok(condor) = IronCondor::new(
        "SPX",
        CondorTerms {
            underlying_price: pos(Decimal::new(5_000, 0)),
            short_call_strike: pos(Decimal::new(5_100, 0)),
            short_put_strike: pos(Decimal::new(4_900, 0)),
            long_call_strike: pos(Decimal::new(5_200, 0)),
            long_put_strike: pos(Decimal::new(4_800, 0)),
            expiration: ExpirationDate::DateTime(Instant::from_timestamp_nanos(EXP_NS)),
            implied_volatility: pos(Decimal::new(20, 2)),
            risk_free_rate: Decimal::new(5, 2),
            dividend_yield: Positive::zero(),
            quantity: pos(Decimal::new(1, 0)),
            premium_short_call: pos(Decimal::new(20, 0)),
            premium_short_put: pos(Decimal::new(18, 0)),
            premium_long_call: pos(Decimal::new(8, 0)),
            premium_long_put: pos(Decimal::new(7, 0)),
            open_fee: pos(Decimal::new(65, 2)),
            close_fee: pos(Decimal::new(65, 2)),
        },
    ) else {
        panic!("valid iron condor construction");
    };
    condor
}

fn adapter(exit: ExitPolicy) -> OptStratAdapter<IronCondor> {
    OptStratAdapter::new(iron_condor(), exit)
}

fn iron_condor_spec() -> StrategySpec {
    StrategySpec::IronCondor(IronCondorSpec {
        underlying: und(),
        underlying_price: PriceCents::new(500_000),
        short_call_strike: PriceCents::new(510_000),
        short_put_strike: PriceCents::new(490_000),
        long_call_strike: PriceCents::new(520_000),
        long_put_strike: PriceCents::new(480_000),
        expiration: ExpirationDate::DateTime(Instant::from_timestamp_nanos(EXP_NS)),
        implied_volatility: Decimal::new(20, 2),
        risk_free_rate: Decimal::new(5, 2),
        dividend_yield: Decimal::new(0, 0),
        quantity: qty(1),
        premium_short_call: PriceCents::new(2_000),
        premium_short_put: PriceCents::new(1_800),
        premium_long_call: PriceCents::new(800),
        premium_long_put: PriceCents::new(700),
        open_fee: PriceCents::new(65),
        close_fee: PriceCents::new(65),
    })
}

fn adapter_from_spec(exit: ExitPolicy) -> Result<OptStratAdapter<IronCondor>, BacktestError> {
    OptStratAdapter::<IronCondor>::from_spec(&iron_condor_spec(), exit)
}

fn open_legs() -> Vec<OpenPosition> {
    vec![
        OpenPosition {
            position_id: PositionId::new(1),
            contract: key(510_000, OptionStyle::Call),
            side: Side::Short,
            quantity: qty(1),
            entry_premium: PriceCents::new(2_000),
        },
        OpenPosition {
            position_id: PositionId::new(2),
            contract: key(520_000, OptionStyle::Call),
            side: Side::Long,
            quantity: qty(1),
            entry_premium: PriceCents::new(800),
        },
        OpenPosition {
            position_id: PositionId::new(3),
            contract: key(490_000, OptionStyle::Put),
            side: Side::Short,
            quantity: qty(1),
            entry_premium: PriceCents::new(1_800),
        },
        OpenPosition {
            position_id: PositionId::new(4),
            contract: key(480_000, OptionStyle::Put),
            side: Side::Long,
            quantity: qty(1),
            entry_premium: PriceCents::new(700),
        },
    ]
}

fn short_strangle() -> ShortStrangle {
    let Ok(strangle) = ShortStrangle::new(
        "SPX",
        StrangleTerms {
            underlying_price: pos(Decimal::new(5_000, 0)),
            call_strike: pos(Decimal::new(5_200, 0)),
            put_strike: pos(Decimal::new(4_800, 0)),
            expiration: ExpirationDate::DateTime(Instant::from_timestamp_nanos(EXP_NS)),
            call_implied_volatility: pos(Decimal::new(20, 2)),
            put_implied_volatility: pos(Decimal::new(20, 2)),
            risk_free_rate: Decimal::new(5, 2),
            dividend_yield: Positive::zero(),
            quantity: pos(Decimal::new(1, 0)),
            premium_short_call: pos(Decimal::new(8, 0)),
            premium_short_put: pos(Decimal::new(7, 0)),
            open_fee_short_call: pos(Decimal::new(65, 2)),
            close_fee_short_call: pos(Decimal::new(65, 2)),
            open_fee_short_put: pos(Decimal::new(65, 2)),
            close_fee_short_put: pos(Decimal::new(65, 2)),
        },
    ) else {
        panic!("valid short strangle construction");
    };
    strangle
}

fn strangle_adapter(exit: ExitPolicy) -> OptStratAdapter<ShortStrangle> {
    OptStratAdapter::new(short_strangle(), exit)
}

fn short_strangle_spec() -> StrategySpec {
    StrategySpec::ShortStrangle(ShortStrangleSpec {
        underlying: und(),
        underlying_price: PriceCents::new(500_000),
        call_strike: PriceCents::new(520_000),
        put_strike: PriceCents::new(480_000),
        expiration: ExpirationDate::DateTime(Instant::from_timestamp_nanos(EXP_NS)),
        call_implied_volatility: Decimal::new(20, 2),
        put_implied_volatility: Decimal::new(20, 2),
        risk_free_rate: Decimal::new(5, 2),
        dividend_yield: Decimal::new(0, 0),
        quantity: qty(1),
        premium_short_call: PriceCents::new(800),
        premium_short_put: PriceCents::new(700),
        open_fee_short_call: PriceCents::new(65),
        close_fee_short_call: PriceCents::new(65),
        open_fee_short_put: PriceCents::new(65),
        close_fee_short_put: PriceCents::new(65),
    })
}

fn strangle_adapter_from_spec(
    exit: ExitPolicy,
) -> Result<OptStratAdapter<ShortStrangle>, BacktestError> {
    OptStratAdapter::<ShortStrangle>::from_spec(&short_strangle_spec(), exit)
}

fn strangle_open_legs() -> Vec<OpenPosition> {
    vec![
        OpenPosition {
            position_id: PositionId::new(1),
            contract: key(520_000, OptionStyle::Call),
            side: Side::Short,
            quantity: qty(1),
            entry_premium: PriceCents::new(800),
        },
        OpenPosition {
            position_id: PositionId::new(2),
            contract: key(480_000, OptionStyle::Put),
            side: Side::Short,
            quantity: qty(1),
            entry_premium: PriceCents::new(700),
        },
    ]
}

fn is_open(cmd: &OrderCommand) -> bool {
    matches!(
        cmd,
        OrderCommand::Submit(OrderIntent {
            action: PositionAction::Open,
            ..
        })
    )
}

fn is_close(cmd: &OrderCommand) -> bool {
    matches!(
        cmd,
        OrderCommand::Submit(OrderIntent {
            action: PositionAction::Close(_),
            ..
        })
    )
}

#[test]
fn test_on_snapshot_first_call_opens_four_condor_legs() {
    let mut rng = ChaCha8Rng::seed_from_u64(1);
    let snap = snapshot(0);
    let mut ctx = ChainContext {
        snapshot: &snap,
        open: &[],
        pending: &[],
        marks: &ContractMap::new(),
        rng: &mut rng,
        step: StepIndex::new(0),
    };
    let mut adapter = adapter(ExitPolicy::Expiration);
    let mut out = Vec::new();
    assert!(matches!(adapter.on_snapshot(&mut ctx, &mut out), Ok(())));
    assert_eq!(out.len(), 4, "one open per condor leg");
    assert!(out.iter().all(is_open), "on_snapshot appends opens only");
    assert!(adapter.has_entered());
}

#[test]
fn test_on_snapshot_second_call_is_noop_via_entered_guard() {
    let mut rng = ChaCha8Rng::seed_from_u64(2);
    let snap = snapshot(0);
    let mut ctx = ChainContext {
        snapshot: &snap,
        open: &[],
        pending: &[],
        marks: &ContractMap::new(),
        rng: &mut rng,
        step: StepIndex::new(0),
    };
    let mut adapter = adapter(ExitPolicy::Expiration);
    let mut out = Vec::new();
    assert!(matches!(adapter.on_snapshot(&mut ctx, &mut out), Ok(())));
    out.clear();
    assert!(matches!(adapter.on_snapshot(&mut ctx, &mut out), Ok(())));
    assert!(out.is_empty(), "entered flag prevents a second entry");
}

#[test]
fn test_short_strangle_on_snapshot_opens_two_legs_through_same_seam() {
    let mut rng = ChaCha8Rng::seed_from_u64(30);
    let snap = snapshot(0);
    let mut ctx = ChainContext {
        snapshot: &snap,
        open: &[],
        pending: &[],
        marks: &ContractMap::new(),
        rng: &mut rng,
        step: StepIndex::new(0),
    };
    let mut adapter = strangle_adapter(ExitPolicy::Expiration);
    let mut out = Vec::new();
    assert!(matches!(adapter.on_snapshot(&mut ctx, &mut out), Ok(())));
    assert_eq!(out.len(), 2, "one open per strangle leg (short call + put)");
    assert!(out.iter().all(is_open), "on_snapshot appends opens only");
    assert!(adapter.has_entered());
}

#[test]
fn test_short_strangle_second_on_snapshot_is_noop_via_entered_guard() {
    let mut rng = ChaCha8Rng::seed_from_u64(31);
    let snap = snapshot(0);
    let mut ctx = ChainContext {
        snapshot: &snap,
        open: &[],
        pending: &[],
        marks: &ContractMap::new(),
        rng: &mut rng,
        step: StepIndex::new(0),
    };
    let mut adapter = strangle_adapter(ExitPolicy::Expiration);
    let mut out = Vec::new();
    assert!(matches!(adapter.on_snapshot(&mut ctx, &mut out), Ok(())));
    out.clear();
    assert!(matches!(adapter.on_snapshot(&mut ctx, &mut out), Ok(())));
    assert!(out.is_empty(), "entered flag prevents a second entry");
}

#[test]
fn test_short_strangle_exits_emits_two_closes_when_policy_triggers() {
    let mut rng = ChaCha8Rng::seed_from_u64(32);
    let snap = snapshot(7);
    let legs = strangle_open_legs();
    let ctx = ChainContext {
        snapshot: &snap,
        open: &legs,
        pending: &[],
        marks: &ContractMap::new(),
        rng: &mut rng,
        step: StepIndex::new(7),
    };
    let mut adapter = strangle_adapter(ExitPolicy::TimeSteps(0));
    let mut out = Vec::new();
    assert!(matches!(adapter.exits(&ctx, &mut out), Ok(())));
    assert_eq!(out.len(), 2, "one close per open leg when the policy fires");
    assert!(out.iter().all(is_close), "exits appends closes only");
    assert!(out.iter().all(|c| matches!(
        c,
        OrderCommand::Submit(OrderIntent {
            side: Side::Long,
            action: PositionAction::Close(_),
            ..
        })
    )));
}

#[test]
fn test_short_strangle_on_end_appends_only_closes() {
    let mut rng = ChaCha8Rng::seed_from_u64(33);
    let snap = snapshot(11);
    let legs = strangle_open_legs();
    let mut ctx = ChainContext {
        snapshot: &snap,
        open: &legs,
        pending: &[],
        marks: &ContractMap::new(),
        rng: &mut rng,
        step: StepIndex::new(11),
    };
    let mut adapter = strangle_adapter(ExitPolicy::Expiration);
    let mut out = Vec::new();
    assert!(matches!(adapter.on_end(&mut ctx, &mut out), Ok(())));
    assert_eq!(out.len(), 2);
    assert!(out.iter().all(is_close), "on_end closes only");
    assert!(!out.iter().any(is_open), "on_end never opens");
}

#[test]
fn test_short_strangle_satisfies_positionable_strategy_bound() {
    let _bound_holds: fn() = assert_positionable_strategy::<ShortStrangle>;
    assert!(strangle_adapter_from_spec(ExitPolicy::Expiration).is_ok());
}

#[test]
fn test_short_strangle_from_spec_entry_emits_two_open_intents() {
    let mut rng = ChaCha8Rng::seed_from_u64(34);
    let snap = snapshot(0);
    let mut ctx = ChainContext {
        snapshot: &snap,
        open: &[],
        pending: &[],
        marks: &ContractMap::new(),
        rng: &mut rng,
        step: StepIndex::new(0),
    };
    let Ok(mut adapter) = strangle_adapter_from_spec(ExitPolicy::Expiration) else {
        panic!("the short strangle spec builds a valid adapter");
    };
    let mut out = Vec::new();
    assert!(matches!(adapter.on_snapshot(&mut ctx, &mut out), Ok(())));
    assert_eq!(out.len(), 2, "the two strangle legs emit two opens");
    assert!(out.iter().all(is_open), "entry appends opens only");
    assert!(adapter.has_entered());
    for cmd in &out {
        let OrderCommand::Submit(intent) = cmd else {
            panic!("entry emits Submit intents");
        };
        let Some(quote) = snap.quotes.get(&intent.contract) else {
            panic!("each entry leg matches a snapshot quote");
        };
        assert_eq!(intent.decision_mid, quote.mid);
        assert_eq!(intent.side, Side::Short, "both strangle legs are short");
    }
}

#[test]
fn test_from_spec_rejects_mismatched_strategy_kind() {
    let strangle_from_condor = OptStratAdapter::<ShortStrangle>::from_spec(
        &iron_condor_spec(),
        ExitPolicy::Expiration,
    );
    assert!(matches!(
        strangle_from_condor,
        Err(BacktestError::Strategy(_))
    ));
    let condor_from_strangle = OptStratAdapter::<IronCondor>::from_spec(
        &short_strangle_spec(),
        ExitPolicy::Expiration,
    );
    assert!(matches!(
        condor_from_strangle,
        Err(BacktestError::Strategy(_))
    ));
}

#[test]
fn test_iron_condor_satisfies_positionable_strategy_bound() {
    let _bound_holds: fn() = assert_positionable_strategy::<IronCondor>;
    assert!(adapter_from_spec(ExitPolicy::Expiration).is_ok());
}

#[test]
fn test_iron_condor_entry_emits_four_open_intents() {
    let mut rng = ChaCha8Rng::seed_from_u64(20);
    let snap = snapshot(0);
    let mut ctx = ChainContext {
        snapshot: &snap,
        open: &[],
        pending: &[],
        marks: &ContractMap::new(),
        rng: &mut rng,
        step: StepIndex::new(0),
    };
    let Ok(mut adapter) = adapter_from_spec(ExitPolicy::Expiration) else {
        panic!("the iron condor spec builds a valid adapter");
    };
    let mut out = Vec::new();
    assert!(matches!(adapter.on_snapshot(&mut ctx, &mut out), Ok(())));
    assert_eq!(
        out.len(),
        4,
        "the four condor legs emit four opens in one step"
    );
    assert!(out.iter().all(is_open), "entry appends opens only");
    assert!(adapter.has_entered());
    for cmd in &out {
        let OrderCommand::Submit(intent) = cmd else {
            panic!("entry emits Submit intents");
        };
        let Some(quote) = snap.quotes.get(&intent.contract) else {
            panic!("each entry leg matches a snapshot quote");
        };
        assert_eq!(intent.decision_mid, quote.mid);
    }
}

#[test]
fn test_open_entries_picks_the_legs_expiration_in_a_multi_expiry_snapshot() {
    const EXP2_NS: i64 = EXP_NS + 7 * NANOS_PER_DAY;
    let mut quotes = ContractMap::new();
    for (strike, style, mid) in [
        (490_000u64, OptionStyle::Put, 1_800u64),
        (480_000, OptionStyle::Put, 700),
        (510_000, OptionStyle::Call, 2_000),
        (520_000, OptionStyle::Call, 800),
    ] {
        for exp_ns in [EXP_NS, EXP2_NS] {
            let q = quote_at(strike, style, mid, exp_ns);
            quotes.insert(q.contract.clone(), q);
        }
    }
    let Ok(spec) = InstrumentSpec::new(PriceCents::new(5), 100) else {
        panic!("valid instrument spec");
    };
    let snap = ChainSnapshot {
        ts: SimTime::new(TS_NS),
        step: StepIndex::new(0),
        underlying: und(),
        underlying_price: PriceCents::new(500_000),
        spec,
        quotes,
    };
    let mut rng = ChaCha8Rng::seed_from_u64(50);
    let mut ctx = ChainContext {
        snapshot: &snap,
        open: &[],
        pending: &[],
        marks: &ContractMap::new(),
        rng: &mut rng,
        step: StepIndex::new(0),
    };
    let mut adapter = adapter(ExitPolicy::Expiration);
    let mut out = Vec::new();
    assert!(matches!(adapter.on_snapshot(&mut ctx, &mut out), Ok(())));
    assert_eq!(out.len(), 4, "the four condor legs emit four opens");
    for cmd in &out {
        let OrderCommand::Submit(intent) = cmd else {
            panic!("entry emits Submit intents");
        };
        assert_eq!(
            intent.contract.expiration_ns().ok(),
            Some(EXP_NS),
            "each leg targets its own expiration, never the decoy EXP2_NS"
        );
    }
}

#[test]
fn test_iron_condor_from_spec_exits_emits_closes_when_policy_triggers() {
    let mut rng = ChaCha8Rng::seed_from_u64(21);
    let snap = snapshot(7);
    let legs = open_legs();
    let ctx = ChainContext {
        snapshot: &snap,
        open: &legs,
        pending: &[],
        marks: &ContractMap::new(),
        rng: &mut rng,
        step: StepIndex::new(7),
    };
    let Ok(mut adapter) = adapter_from_spec(ExitPolicy::TimeSteps(0)) else {
        panic!("the iron condor spec builds a valid adapter");
    };
    let mut out = Vec::new();
    assert!(matches!(adapter.exits(&ctx, &mut out), Ok(())));
    assert_eq!(out.len(), 4, "one close per open leg when the policy fires");
    assert!(out.iter().all(is_close), "exits appends closes only");
}

#[test]
fn test_strategy_error_maps_to_backtest_error() {
    let StrategySpec::IronCondor(mut inner) = iron_condor_spec() else {
        panic!("iron_condor_spec builds an IronCondor spec");
    };
    inner.implied_volatility = Decimal::new(-20, 2);
    let spec = StrategySpec::IronCondor(inner);
    let result = OptStratAdapter::<IronCondor>::from_spec(&spec, ExitPolicy::Expiration);
    assert!(matches!(result, Err(BacktestError::Strategy(_))));
}

#[test]
fn test_on_start_opens_then_on_snapshot_is_noop() {
    let mut rng = ChaCha8Rng::seed_from_u64(3);
    let snap = snapshot(0);
    let mut ctx = ChainContext {
        snapshot: &snap,
        open: &[],
        pending: &[],
        marks: &ContractMap::new(),
        rng: &mut rng,
        step: StepIndex::new(0),
    };
    let mut adapter = adapter(ExitPolicy::Expiration);
    let mut out = Vec::new();
    assert!(matches!(adapter.on_start(&mut ctx, &mut out), Ok(())));
    assert_eq!(out.len(), 4);
    out.clear();
    assert!(matches!(adapter.on_snapshot(&mut ctx, &mut out), Ok(())));
    assert!(
        out.is_empty(),
        "on_start already entered; on_snapshot no-ops"
    );
}

#[test]
fn test_exits_appends_only_closes_when_policy_triggers() {
    let mut rng = ChaCha8Rng::seed_from_u64(4);
    let snap = snapshot(7);
    let legs = open_legs();
    let ctx = ChainContext {
        snapshot: &snap,
        open: &legs,
        pending: &[],
        marks: &ContractMap::new(),
        rng: &mut rng,
        step: StepIndex::new(7),
    };
    let mut adapter = adapter(ExitPolicy::TimeSteps(0));
    let mut out = Vec::new();
    assert!(matches!(adapter.exits(&ctx, &mut out), Ok(())));
    assert_eq!(out.len(), 4, "one close per open leg");
    assert!(out.iter().all(is_close), "exits appends closes only");
    let short_call_close = out.iter().find_map(|c| match c {
        OrderCommand::Submit(i) if i.action == PositionAction::Close(PositionId::new(1)) => {
            Some(i.side)
        }
        _ => None,
    });
    assert!(matches!(short_call_close, Some(Side::Long)));
}

#[test]
fn test_exits_appends_nothing_when_policy_not_triggered() {
    let mut rng = ChaCha8Rng::seed_from_u64(5);
    let snap = snapshot(0);
    let legs = open_legs();
    let ctx = ChainContext {
        snapshot: &snap,
        open: &legs,
        pending: &[],
        marks: &ContractMap::new(),
        rng: &mut rng,
        step: StepIndex::new(0),
    };
    let mut adapter = adapter(ExitPolicy::TimeSteps(1000));
    let mut out = Vec::new();
    assert!(matches!(adapter.exits(&ctx, &mut out), Ok(())));
    assert!(out.is_empty(), "no leg triggers; nothing appended");
}

#[test]
fn test_exits_empty_open_is_noop() {
    let mut rng = ChaCha8Rng::seed_from_u64(6);
    let snap = snapshot(3);
    let ctx = ChainContext {
        snapshot: &snap,
        open: &[],
        pending: &[],
        marks: &ContractMap::new(),
        rng: &mut rng,
        step: StepIndex::new(3),
    };
    let mut adapter = adapter(ExitPolicy::TimeSteps(0));
    let mut out = Vec::new();
    assert!(matches!(adapter.exits(&ctx, &mut out), Ok(())));
    assert!(out.is_empty(), "no open legs: nothing to close");
}

#[test]
fn test_exits_stale_quote_reads_carried_mark_not_entry_premium() {
    let Ok(spec) = InstrumentSpec::new(PriceCents::new(5), 100) else {
        panic!("valid instrument spec");
    };
    let snap = ChainSnapshot {
        ts: SimTime::new(TS_NS),
        step: StepIndex::new(5),
        underlying: und(),
        underlying_price: PriceCents::new(500_000),
        spec,
        quotes: ContractMap::new(),
    };
    let legs = vec![OpenPosition {
        position_id: PositionId::new(1),
        contract: key(510_000, OptionStyle::Call),
        side: Side::Short,
        quantity: qty(1),
        entry_premium: PriceCents::new(2_000),
    }];
    let mut carried = ContractMap::new();
    carried.insert(key(510_000, OptionStyle::Call), PriceCents::new(500));

    let mut rng = ChaCha8Rng::seed_from_u64(60);
    let ctx = ChainContext {
        snapshot: &snap,
        open: &legs,
        pending: &[],
        marks: &carried,
        rng: &mut rng,
        step: StepIndex::new(5),
    };
    let mut marked_adapter = adapter(ExitPolicy::ProfitPercent(Decimal::new(5, 1)));
    let mut out = Vec::new();
    assert!(matches!(marked_adapter.exits(&ctx, &mut out), Ok(())));
    assert_eq!(out.len(), 1, "the carried 75% profit fires the exit");
    assert!(out.iter().all(is_close), "exits appends closes only");

    let mut rng2 = ChaCha8Rng::seed_from_u64(61);
    let ctx_no_mark = ChainContext {
        snapshot: &snap,
        open: &legs,
        pending: &[],
        marks: &ContractMap::new(),
        rng: &mut rng2,
        step: StepIndex::new(5),
    };
    let mut unmarked_adapter = adapter(ExitPolicy::ProfitPercent(Decimal::new(5, 1)));
    let mut out2 = Vec::new();
    assert!(matches!(
        unmarked_adapter.exits(&ctx_no_mark, &mut out2),
        Ok(())
    ));
    assert!(
        out2.is_empty(),
        "no carried mark → entry premium → no profit → no close"
    );
}

#[test]
fn test_exits_then_on_snapshot_orders_closes_before_entries() {
    let mut rng = ChaCha8Rng::seed_from_u64(7);
    let snap = snapshot(9);
    let legs = open_legs();
    let mut adapter = adapter(ExitPolicy::TimeSteps(0));
    let mut out = Vec::new();
    {
        let ctx = ChainContext {
            snapshot: &snap,
            open: &legs,
            pending: &[],
            marks: &ContractMap::new(),
            rng: &mut rng,
            step: StepIndex::new(9),
        };
        assert!(matches!(adapter.exits(&ctx, &mut out), Ok(())));
    }
    let mut ctx = ChainContext {
        snapshot: &snap,
        open: &legs,
        pending: &[],
        marks: &ContractMap::new(),
        rng: &mut rng,
        step: StepIndex::new(9),
    };
    assert!(matches!(adapter.on_snapshot(&mut ctx, &mut out), Ok(())));

    let first_open = out.iter().position(is_open);
    let last_close = out.iter().rposition(is_close);
    assert!(matches!((last_close, first_open), (Some(lc), Some(fo)) if lc < fo));
    assert_eq!(out.iter().filter(|&c| is_close(c)).count(), 4);
    assert_eq!(out.iter().filter(|&c| is_open(c)).count(), 4);
}

#[test]
fn test_on_end_appends_only_closes() {
    let mut rng = ChaCha8Rng::seed_from_u64(8);
    let snap = snapshot(11);
    let legs = open_legs();
    let mut ctx = ChainContext {
        snapshot: &snap,
        open: &legs,
        pending: &[],
        marks: &ContractMap::new(),
        rng: &mut rng,
        step: StepIndex::new(11),
    };
    let mut adapter = adapter(ExitPolicy::Expiration);
    let mut out = Vec::new();
    assert!(matches!(adapter.on_end(&mut ctx, &mut out), Ok(())));
    assert_eq!(out.len(), 4);
    assert!(out.iter().all(is_close), "on_end closes only");
    assert!(!out.iter().any(is_open), "on_end never opens");
}

#[test]
fn test_on_end_after_exits_produces_one_close_per_leg() {
    let mut rng = ChaCha8Rng::seed_from_u64(70);
    let snap = snapshot(9);
    let legs = open_legs();
    let mut adapter = adapter(ExitPolicy::TimeSteps(0));
    let mut out = Vec::new();
    {
        let ctx = ChainContext {
            snapshot: &snap,
            open: &legs,
            pending: &[],
            marks: &ContractMap::new(),
            rng: &mut rng,
            step: StepIndex::new(9),
        };
        assert!(matches!(adapter.exits(&ctx, &mut out), Ok(())));
    }
    assert_eq!(out.len(), 4, "the policy closes all four legs");
    {
        let mut ctx = ChainContext {
            snapshot: &snap,
            open: &legs,
            pending: &[],
            marks: &ContractMap::new(),
            rng: &mut rng,
            step: StepIndex::new(9),
        };
        assert!(matches!(adapter.on_end(&mut ctx, &mut out), Ok(())));
    }
    assert_eq!(out.len(), 4, "on_end appended no duplicate closes");
    for pid in [1u64, 2, 3, 4] {
        let count = out
            .iter()
            .filter(|c| {
                matches!(
                    c,
                    OrderCommand::Submit(OrderIntent {
                        action: PositionAction::Close(p),
                        ..
                    }) if p.value() == pid
                )
            })
            .count();
        assert_eq!(count, 1, "exactly one close for position {pid}");
    }
}

#[test]
fn test_on_end_closes_a_leg_the_exit_phase_left_open() {
    let mut rng = ChaCha8Rng::seed_from_u64(71);
    let snap = snapshot(9);
    let legs = open_legs();
    let mut adapter = adapter(ExitPolicy::TimeSteps(1_000));
    let mut out = Vec::new();
    {
        let ctx = ChainContext {
            snapshot: &snap,
            open: &legs,
            pending: &[],
            marks: &ContractMap::new(),
            rng: &mut rng,
            step: StepIndex::new(9),
        };
        assert!(matches!(adapter.exits(&ctx, &mut out), Ok(())));
    }
    assert!(out.is_empty(), "the policy did not fire");
    {
        let mut ctx = ChainContext {
            snapshot: &snap,
            open: &legs,
            pending: &[],
            marks: &ContractMap::new(),
            rng: &mut rng,
            step: StepIndex::new(9),
        };
        assert!(matches!(adapter.on_end(&mut ctx, &mut out), Ok(())));
    }
    assert_eq!(out.len(), 4, "on_end flattens every still-open leg");
    assert!(out.iter().all(is_close));
}

#[test]
fn test_request_cancel_foreign_order_is_execution_error() {
    let mut rng = ChaCha8Rng::seed_from_u64(9);
    let snap = snapshot(0);
    let ctx = ChainContext {
        snapshot: &snap,
        open: &[],
        pending: &[],
        marks: &ContractMap::new(),
        rng: &mut rng,
        step: StepIndex::new(0),
    };
    let adapter = adapter(ExitPolicy::Expiration);
    let mut out = Vec::new();
    let result = adapter.request_cancel(&ctx, OrderId::new(999), &mut out);
    assert!(matches!(result, Err(BacktestError::Execution(_))));
    assert!(out.is_empty(), "a foreign cancel emits nothing");
}

#[test]
fn test_request_cancel_owned_order_emits_cancel() {
    let mut rng = ChaCha8Rng::seed_from_u64(10);
    let snap = snapshot(0);
    let resting = vec![PendingOrder {
        order_id: OrderId::new(42),
        intent: OrderIntent {
            contract: key(510_000, OptionStyle::Call),
            action: PositionAction::Open,
            side: Side::Short,
            quantity: qty(1),
            limit: Some(PriceCents::new(2_000)),
            tif: TimeInForce::Gtc,
            decision_mid: PriceCents::new(2_000),
        },
    }];
    let ctx = ChainContext {
        snapshot: &snap,
        open: &[],
        pending: &resting,
        marks: &ContractMap::new(),
        rng: &mut rng,
        step: StepIndex::new(0),
    };
    let adapter = adapter(ExitPolicy::Expiration);
    let mut out = Vec::new();
    assert!(matches!(
        adapter.request_cancel(&ctx, OrderId::new(42), &mut out),
        Ok(())
    ));
    assert!(matches!(out.as_slice(), [OrderCommand::Cancel(id)] if id.value() == 42));
}

#[test]
fn test_request_replace_foreign_order_is_execution_error() {
    let mut rng = ChaCha8Rng::seed_from_u64(11);
    let snap = snapshot(0);
    let ctx = ChainContext {
        snapshot: &snap,
        open: &[],
        pending: &[],
        marks: &ContractMap::new(),
        rng: &mut rng,
        step: StepIndex::new(0),
    };
    let adapter = adapter(ExitPolicy::Expiration);
    let mut out = Vec::new();
    let replacement = OrderIntent {
        contract: key(510_000, OptionStyle::Call),
        action: PositionAction::Open,
        side: Side::Short,
        quantity: qty(1),
        limit: Some(PriceCents::new(1_950)),
        tif: TimeInForce::Gtc,
        decision_mid: PriceCents::new(1_950),
    };
    let result = adapter.request_replace(&ctx, OrderId::new(7), replacement, &mut out);
    assert!(matches!(result, Err(BacktestError::Execution(_))));
    assert!(out.is_empty());
}

#[test]
fn test_policy_triggered_expiration_only_at_zero_days() {
    assert!(policy_triggered(
        &ExitPolicy::Expiration,
        Decimal::new(20, 0),
        Decimal::new(20, 0),
        0,
        Positive::zero(),
        pos(Decimal::new(5000, 0)),
        false,
    ));
    assert!(!policy_triggered(
        &ExitPolicy::Expiration,
        Decimal::new(20, 0),
        Decimal::new(20, 0),
        0,
        pos(Decimal::new(5, 0)),
        pos(Decimal::new(5000, 0)),
        false,
    ));
}

#[test]
fn test_policy_reads_inner_is_false_for_all_v01_policies() {
    for policy in [
        ExitPolicy::Expiration,
        ExitPolicy::DeltaThreshold(Decimal::new(1, 1)),
        ExitPolicy::TimeSteps(0),
        ExitPolicy::ProfitPercent(Decimal::new(5, 1)),
        ExitPolicy::LossPercent(Decimal::new(10, 1)),
        ExitPolicy::And(vec![
            ExitPolicy::ProfitPercent(Decimal::new(5, 1)),
            ExitPolicy::Expiration,
        ]),
        ExitPolicy::Or(vec![
            ExitPolicy::TimeSteps(10),
            ExitPolicy::DeltaThreshold(Decimal::new(2, 1)),
        ]),
    ] {
        assert!(
            !policy_reads_inner(&policy),
            "no policy reads the strategy itself: {policy:?}"
        );
    }
}

#[test]
fn test_policy_triggered_delta_threshold_unsupported_never_triggers() {
    assert!(!policy_triggered(
        &ExitPolicy::DeltaThreshold(Decimal::new(1, 1)),
        Decimal::new(20, 0),
        Decimal::new(20, 0),
        0,
        Positive::zero(),
        pos(Decimal::new(5000, 0)),
        false,
    ));
}

#[test]
fn test_policy_triggered_or_composes_profit_leg() {
    let policy = ExitPolicy::Or(vec![
        ExitPolicy::ProfitPercent(Decimal::new(5, 1)),
        ExitPolicy::Expiration,
    ]);
    assert!(policy_triggered(
        &policy,
        Decimal::new(20, 0),
        Decimal::new(8, 0),
        0,
        pos(Decimal::new(30, 0)),
        pos(Decimal::new(5000, 0)),
        false,
    ));
    assert!(!policy_triggered(
        &policy,
        Decimal::new(20, 0),
        Decimal::new(18, 0),
        0,
        pos(Decimal::new(30, 0)),
        pos(Decimal::new(5000, 0)),
        false,
    ));
}

#[test]
fn test_exit_reason_maps_the_applied_policy_to_an_upstream_reason() {
    assert_eq!(
        adapter(ExitPolicy::ProfitPercent(Decimal::new(50, 0))).exit_reason(),
        ExitReason::TargetReached
    );
    assert_eq!(
        adapter(ExitPolicy::LossPercent(Decimal::new(100, 0))).exit_reason(),
        ExitReason::StopLoss
    );
    assert_eq!(
        adapter(ExitPolicy::TimeSteps(5)).exit_reason(),
        ExitReason::Other("time_steps".to_string())
    );
    assert_eq!(
        adapter(ExitPolicy::Expiration).exit_reason(),
        ExitReason::Expiration
    );
    let composite = ExitPolicy::And(vec![ExitPolicy::Expiration]);
    assert!(matches!(
        adapter(composite).exit_reason(),
        ExitReason::Other(_)
    ));
}

#[test]
fn test_close_all_skips_quantity_covered_by_pending_closes() {
    let legs = open_legs();
    let Some(first) = legs.first() else {
        panic!("fixture has legs");
    };
    let pending = [PendingOrder {
        order_id: OrderId::new(77),
        intent: OrderIntent {
            contract: first.contract.clone(),
            action: PositionAction::Close(first.position_id),
            side: Side::Long,
            quantity: first.quantity,
            limit: Some(PriceCents::new(1)),
            tif: TimeInForce::Gtc,
            decision_mid: PriceCents::new(2_000),
        },
    }];
    let mut out: Vec<OrderCommand> = Vec::new();
    let result = close_all(&legs, &pending, &snapshot(9), &mut out);
    assert!(matches!(result, Ok(())));
    assert_eq!(out.len(), 3, "the pending-covered leg is not re-closed");
    for cmd in &out {
        let OrderCommand::Submit(intent) = cmd else {
            panic!("close_all emits submits only");
        };
        let PositionAction::Close(pid) = intent.action else {
            panic!("close_all emits closes only");
        };
        assert_ne!(pid, first.position_id, "leg 1 must not be re-closed");
    }
}

const FAR_EXP_NS: i64 = EXP_NS + 7 * NANOS_PER_DAY;

fn leg(strike: u64, style: OptionStyle, side: Side, exp_ns: i64) -> LegSpec {
    LegSpec {
        side,
        style,
        strike: PriceCents::new(strike),
        expiration: ExpirationDate::DateTime(Instant::from_timestamp_nanos(exp_ns)),
        quantity: qty(1),
        implied_volatility: Decimal::new(20, 2),
    }
}

fn leg_set_legs() -> Vec<LegSpec> {
    vec![
        leg(510_000, OptionStyle::Call, Side::Short, EXP_NS),
        leg(490_000, OptionStyle::Put, Side::Short, EXP_NS),
        leg(520_000, OptionStyle::Call, Side::Long, FAR_EXP_NS),
        leg(480_000, OptionStyle::Put, Side::Long, FAR_EXP_NS),
    ]
}

fn leg_set_spec_from(legs: Vec<LegSpec>) -> StrategySpec {
    StrategySpec::Legs(LegSetSpec {
        underlying: und(),
        underlying_price: PriceCents::new(500_000),
        legs,
        risk_free_rate: Decimal::new(5, 2),
        dividend_yield: Decimal::new(0, 0),
    })
}

fn leg_set_spec() -> StrategySpec {
    leg_set_spec_from(leg_set_legs())
}

fn multi_expiry_snapshot(step: u32) -> ChainSnapshot {
    let mut quotes = ContractMap::new();
    for (strike, style, mid) in [
        (490_000u64, OptionStyle::Put, 1_800u64),
        (480_000, OptionStyle::Put, 700),
        (510_000, OptionStyle::Call, 2_000),
        (520_000, OptionStyle::Call, 800),
    ] {
        for exp_ns in [EXP_NS, FAR_EXP_NS] {
            let q = quote_at(strike, style, mid, exp_ns);
            quotes.insert(q.contract.clone(), q);
        }
    }
    let Ok(spec) = InstrumentSpec::new(PriceCents::new(5), 100) else {
        panic!("valid instrument spec");
    };
    ChainSnapshot {
        ts: SimTime::new(TS_NS + i64::from(step) * NANOS_PER_DAY),
        step: StepIndex::new(step),
        underlying: und(),
        underlying_price: PriceCents::new(500_000),
        spec,
        quotes,
    }
}

#[test]
fn test_leg_set_from_spec_opens_every_leg_at_its_own_expiration() {
    let mut rng = ChaCha8Rng::seed_from_u64(117);
    let snap = multi_expiry_snapshot(0);
    let mut ctx = ChainContext {
        snapshot: &snap,
        open: &[],
        pending: &[],
        marks: &ContractMap::new(),
        rng: &mut rng,
        step: StepIndex::new(0),
    };
    let Ok(mut strategy) = LegSetStrategy::from_spec(&leg_set_spec(), ExitPolicy::Expiration)
    else {
        panic!("the leg set strategy must build from its spec");
    };
    let mut out = Vec::new();
    assert!(matches!(strategy.on_start(&mut ctx, &mut out), Ok(())));
    assert_eq!(out.len(), 4, "one open per spec leg");
    assert!(strategy.has_entered());

    let mut opened: Vec<(i64, u64, Side)> = Vec::new();
    for cmd in &out {
        let OrderCommand::Submit(intent) = cmd else {
            panic!("entry emits Submit intents");
        };
        assert!(matches!(intent.action, PositionAction::Open));
        let Ok(exp_ns) = intent.contract.expiration_ns() else {
            panic!("the fixture legs carry resolved expiries");
        };
        opened.push((exp_ns, intent.contract.strike.value(), intent.side));
    }
    opened.sort_unstable_by_key(|(exp, strike, _)| (*exp, *strike));
    assert_eq!(
        opened,
        vec![
            (EXP_NS, 490_000, Side::Short),
            (EXP_NS, 510_000, Side::Short),
            (FAR_EXP_NS, 480_000, Side::Long),
            (FAR_EXP_NS, 520_000, Side::Long),
        ]
    );
}

#[test]
fn test_leg_set_never_enters_outside_on_start() {
    let mut rng = ChaCha8Rng::seed_from_u64(118);
    let Ok(mut strategy) = LegSetStrategy::from_spec(&leg_set_spec(), ExitPolicy::Expiration)
    else {
        panic!("the leg set strategy must build from its spec");
    };
    let mut out = Vec::new();

    let later = multi_expiry_snapshot(1);
    assert_ne!(
        later.ts.value(),
        multi_expiry_snapshot(0).ts.value(),
        "the fixture must carry a step-dependent ts or this proves nothing"
    );
    {
        let mut ctx = ChainContext {
            snapshot: &later,
            open: &[],
            pending: &[],
            marks: &ContractMap::new(),
            rng: &mut rng,
            step: StepIndex::new(1),
        };
        assert!(matches!(strategy.on_snapshot(&mut ctx, &mut out), Ok(())));
    }
    assert!(
        out.is_empty(),
        "on_snapshot must never open a leg set, entered or not"
    );
    assert!(!strategy.has_entered(), "and must not mark it entered");

    let first = multi_expiry_snapshot(0);
    {
        let mut ctx = ChainContext {
            snapshot: &first,
            open: &[],
            pending: &[],
            marks: &ContractMap::new(),
            rng: &mut rng,
            step: StepIndex::new(0),
        };
        assert!(matches!(strategy.on_start(&mut ctx, &mut out), Ok(())));
    }
    assert_eq!(out.len(), 4, "on_start opens every leg");
    assert!(strategy.has_entered());

    out.clear();
    let mut ctx = ChainContext {
        snapshot: &later,
        open: &[],
        pending: &[],
        marks: &ContractMap::new(),
        rng: &mut rng,
        step: StepIndex::new(1),
    };
    assert!(matches!(strategy.on_start(&mut ctx, &mut out), Ok(())));
    assert!(out.is_empty(), "entry is guarded after the first snapshot");
}

#[test]
fn test_leg_set_unquoted_leg_is_a_typed_execution_error() {
    let mut rng = ChaCha8Rng::seed_from_u64(119);
    let snap = snapshot(0);
    let mut ctx = ChainContext {
        snapshot: &snap,
        open: &[],
        pending: &[],
        marks: &ContractMap::new(),
        rng: &mut rng,
        step: StepIndex::new(0),
    };
    let spec = leg_set_spec_from(vec![leg(500_000, OptionStyle::Call, Side::Short, EXP_NS)]);
    let Ok(mut strategy) = LegSetStrategy::from_spec(&spec, ExitPolicy::Expiration) else {
        panic!("the leg set strategy must build from its spec");
    };
    let mut out = Vec::new();
    assert!(matches!(
        strategy.on_start(&mut ctx, &mut out),
        Err(BacktestError::Execution(_))
    ));
}

#[test]
fn test_leg_set_foreign_underlying_is_a_typed_execution_error() {
    let mut rng = ChaCha8Rng::seed_from_u64(120);
    let snap = snapshot(0);
    let mut ctx = ChainContext {
        snapshot: &snap,
        open: &[],
        pending: &[],
        marks: &ContractMap::new(),
        rng: &mut rng,
        step: StepIndex::new(0),
    };
    let Ok(other) = Underlying::new("NDX") else {
        panic!("NDX is a valid underlying");
    };
    let StrategySpec::Legs(mut inner) = leg_set_spec() else {
        panic!("the fixture is a leg set");
    };
    inner.underlying = other;
    let Ok(mut strategy) =
        LegSetStrategy::from_spec(&StrategySpec::Legs(inner), ExitPolicy::Expiration)
    else {
        panic!("the leg set strategy must build from its spec");
    };
    let mut out = Vec::new();
    assert!(matches!(
        strategy.on_start(&mut ctx, &mut out),
        Err(BacktestError::Execution(_))
    ));
}

#[test]
fn test_leg_set_from_spec_rejects_an_empty_leg_set() {
    let spec = leg_set_spec_from(Vec::new());
    assert!(matches!(
        LegSetStrategy::from_spec(&spec, ExitPolicy::Expiration),
        Err(BacktestError::Strategy(_))
    ));
}

#[test]
fn test_leg_set_from_spec_rejects_a_negative_implied_volatility() {
    let mut legs = leg_set_legs();
    let Some(first) = legs.first_mut() else {
        panic!("the fixture carries legs");
    };
    first.implied_volatility = Decimal::new(-20, 2);
    assert!(matches!(
        LegSetStrategy::from_spec(&leg_set_spec_from(legs), ExitPolicy::Expiration),
        Err(BacktestError::Strategy(_))
    ));
}

#[test]
fn test_leg_set_from_spec_rejects_a_negative_dividend_yield() {
    let StrategySpec::Legs(mut inner) = leg_set_spec() else {
        panic!("the fixture is a leg set");
    };
    inner.dividend_yield = Decimal::new(-1, 2);
    assert!(matches!(
        LegSetStrategy::from_spec(&StrategySpec::Legs(inner), ExitPolicy::Expiration),
        Err(BacktestError::Strategy(_))
    ));
}

#[test]
fn test_leg_set_from_spec_rejects_a_named_kind() {
    assert!(matches!(
        LegSetStrategy::from_spec(&iron_condor_spec(), ExitPolicy::Expiration),
        Err(BacktestError::Strategy(_))
    ));
    assert!(matches!(
        LegSetStrategy::from_spec(&short_strangle_spec(), ExitPolicy::Expiration),
        Err(BacktestError::Strategy(_))
    ));
}

#[test]
fn test_adapter_from_spec_rejects_a_leg_set_kind() {
    assert!(matches!(
        OptStratAdapter::<IronCondor>::from_spec(&leg_set_spec(), ExitPolicy::Expiration),
        Err(BacktestError::Strategy(_))
    ));
    assert!(matches!(
        OptStratAdapter::<ShortStrangle>::from_spec(&leg_set_spec(), ExitPolicy::Expiration),
        Err(BacktestError::Strategy(_))
    ));
}

#[test]
fn test_leg_set_exits_emits_closes_when_the_policy_triggers() {
    let mut rng = ChaCha8Rng::seed_from_u64(121);
    let snap = snapshot(7);
    let legs = open_legs();
    let ctx = ChainContext {
        snapshot: &snap,
        open: &legs,
        pending: &[],
        marks: &ContractMap::new(),
        rng: &mut rng,
        step: StepIndex::new(7),
    };
    let Ok(mut strategy) = LegSetStrategy::from_spec(&leg_set_spec(), ExitPolicy::TimeSteps(1))
    else {
        panic!("the leg set strategy must build from its spec");
    };
    let mut out = Vec::new();
    assert!(matches!(strategy.exits(&ctx, &mut out), Ok(())));
    assert_eq!(out.len(), legs.len(), "every open leg is closed");
    for cmd in &out {
        let OrderCommand::Submit(intent) = cmd else {
            panic!("exits emits Submit intents");
        };
        assert!(matches!(intent.action, PositionAction::Close(_)));
    }
}

#[test]
fn test_leg_set_on_end_flattens_the_open_inventory() {
    let mut rng = ChaCha8Rng::seed_from_u64(122);
    let snap = snapshot(9);
    let legs = open_legs();
    let mut ctx = ChainContext {
        snapshot: &snap,
        open: &legs,
        pending: &[],
        marks: &ContractMap::new(),
        rng: &mut rng,
        step: StepIndex::new(9),
    };
    let Ok(mut strategy) =
        LegSetStrategy::from_spec(&leg_set_spec(), ExitPolicy::TimeSteps(1_000_000))
    else {
        panic!("the leg set strategy must build from its spec");
    };
    let mut out = Vec::new();
    assert!(matches!(strategy.on_end(&mut ctx, &mut out), Ok(())));
    assert_eq!(out.len(), legs.len(), "on_end closes every open leg");
}

#[test]
fn test_leg_set_wrong_expiration_is_an_error_not_a_silent_fill() {
    let mut rng = ChaCha8Rng::seed_from_u64(123);
    let snap = snapshot(0);
    let mut ctx = ChainContext {
        snapshot: &snap,
        open: &[],
        pending: &[],
        marks: &ContractMap::new(),
        rng: &mut rng,
        step: StepIndex::new(0),
    };
    let spec = leg_set_spec_from(vec![leg(
        510_000,
        OptionStyle::Call,
        Side::Short,
        FAR_EXP_NS,
    )]);
    let Ok(mut strategy) = LegSetStrategy::from_spec(&spec, ExitPolicy::Expiration) else {
        panic!("the leg set strategy must build from its spec");
    };
    let mut out = Vec::new();
    assert!(matches!(
        strategy.on_start(&mut ctx, &mut out),
        Err(BacktestError::Execution(_))
    ));
    assert!(out.is_empty(), "no leg opens on the wrong expiration");
}

#[test]
fn test_leg_set_relative_expiry_resolves_to_the_same_contract_as_the_absolute_one() {
    let opened = |expiration: ExpirationDate, seed: u64| -> Vec<i64> {
        let mut rng = ChaCha8Rng::seed_from_u64(seed);
        let snap = multi_expiry_snapshot(0);
        let mut ctx = ChainContext {
            snapshot: &snap,
            open: &[],
            pending: &[],
            marks: &ContractMap::new(),
            rng: &mut rng,
            step: StepIndex::new(0),
        };
        let mut spec_leg = leg(510_000, OptionStyle::Call, Side::Short, EXP_NS);
        spec_leg.expiration = expiration;
        let Ok(mut strategy) = LegSetStrategy::from_spec(
            &leg_set_spec_from(vec![spec_leg]),
            ExitPolicy::Expiration,
        ) else {
            panic!("the leg set strategy must build from its spec");
        };
        let mut out = Vec::new();
        assert!(matches!(strategy.on_start(&mut ctx, &mut out), Ok(())));
        out.iter()
            .map(|cmd| {
                let OrderCommand::Submit(intent) = cmd else {
                    panic!("entry emits Submit intents");
                };
                let Ok(ns) = intent.contract.expiration_ns() else {
                    panic!("the opened contract carries a resolved expiry");
                };
                ns
            })
            .collect()
    };

    let absolute = opened(
        ExpirationDate::DateTime(Instant::from_timestamp_nanos(EXP_NS)),
        130,
    );
    let relative = opened(ExpirationDate::Days(pos(Decimal::new(30, 0))), 131);
    assert_eq!(absolute, vec![EXP_NS], "the absolute spec opens EXP_NS");
    assert_eq!(
        relative, absolute,
        "a relative Days(30) leg opens the same contract as the resolved spec"
    );
}

#[test]
fn test_leg_set_relative_expiry_reads_n_rather_than_ignoring_it() {
    let attempt = |days: Decimal, seed: u64| {
        let mut rng = ChaCha8Rng::seed_from_u64(seed);
        let snap = multi_expiry_snapshot(0);
        let mut ctx = ChainContext {
            snapshot: &snap,
            open: &[],
            pending: &[],
            marks: &ContractMap::new(),
            rng: &mut rng,
            step: StepIndex::new(0),
        };
        let mut spec_leg = leg(510_000, OptionStyle::Call, Side::Short, EXP_NS);
        spec_leg.expiration = ExpirationDate::Days(pos(days));
        let Ok(mut strategy) = LegSetStrategy::from_spec(
            &leg_set_spec_from(vec![spec_leg]),
            ExitPolicy::Expiration,
        ) else {
            panic!("the leg set strategy must build from its spec");
        };
        let mut out = Vec::new();
        let result = strategy.on_start(&mut ctx, &mut out);
        result.map(|()| {
            out.iter()
                .map(|cmd| {
                    let OrderCommand::Submit(intent) = cmd else {
                        panic!("entry emits Submit intents");
                    };
                    intent.contract.expiration_ns().unwrap_or_default()
                })
                .collect::<Vec<i64>>()
        })
    };

    let near = attempt(Decimal::new(30, 0), 132);
    let far = attempt(Decimal::new(37, 0), 133);
    assert_eq!(near.as_deref().ok(), Some(&[EXP_NS][..]));
    assert_eq!(far.as_deref().ok(), Some(&[FAR_EXP_NS][..]));
    assert_ne!(
        near.ok(),
        far.ok(),
        "a different tenor is a different contract"
    );

    assert!(matches!(
        attempt(Decimal::new(90, 0), 134),
        Err(BacktestError::Execution(_))
    ));
}

#[test]
fn test_leg_set_runs_the_canonical_order_not_the_input_order() {
    let mut rng = ChaCha8Rng::seed_from_u64(125);
    let snap = multi_expiry_snapshot(0);
    let emitted = |spec: &StrategySpec, rng: &mut ChaCha8Rng| -> Vec<(i64, u64)> {
        let mut ctx = ChainContext {
            snapshot: &snap,
            open: &[],
            pending: &[],
            marks: &ContractMap::new(),
            rng,
            step: StepIndex::new(0),
        };
        let Ok(mut strategy) = LegSetStrategy::from_spec(spec, ExitPolicy::Expiration) else {
            panic!("the leg set strategy must build from its spec");
        };
        let mut out = Vec::new();
        assert!(matches!(strategy.on_start(&mut ctx, &mut out), Ok(())));
        out.iter()
            .map(|cmd| {
                let OrderCommand::Submit(intent) = cmd else {
                    panic!("entry emits Submit intents");
                };
                let Ok(exp) = intent.contract.expiration_ns() else {
                    panic!("the fixture legs carry resolved expiries");
                };
                (exp, intent.contract.strike.value())
            })
            .collect()
    };

    let mut reversed = leg_set_legs();
    reversed.reverse();
    let canonical = emitted(&leg_set_spec(), &mut rng);
    let permuted = emitted(&leg_set_spec_from(reversed), &mut rng);
    assert_eq!(
        canonical, permuted,
        "both leg orders must submit in the same (canonical) order"
    );
    assert_eq!(
        canonical,
        vec![
            (EXP_NS, 490_000),
            (EXP_NS, 510_000),
            (FAR_EXP_NS, 480_000),
            (FAR_EXP_NS, 520_000),
        ],
        "submission follows the canonical (expiration, strike, ...) order"
    );
}

fn submit(cmd: &OrderCommand) -> &OrderIntent {
    let OrderCommand::Submit(intent) = cmd else {
        panic!("a submitted order");
    };
    intent
}

#[test]
fn condor_opens_as_specified() {
    let Ok(mut adapter) = adapter_from_spec(ExitPolicy::Expiration) else {
        panic!("the iron condor spec builds a valid adapter");
    };
    let snap = snapshot(0);
    let mut out = Vec::new();
    assert!(matches!(adapter.open_entries(&snap, &mut out), Ok(())));
    let opened: Vec<(u64, OptionStyle, Side, u32)> = out
        .iter()
        .map(|cmd| {
            let intent = submit(cmd);
            (
                intent.contract.strike.value(),
                intent.contract.style,
                intent.side,
                intent.quantity.value(),
            )
        })
        .collect();
    assert_eq!(
        opened,
        vec![
            (510_000, OptionStyle::Call, Side::Short, 1),
            (490_000, OptionStyle::Put, Side::Short, 1),
            (520_000, OptionStyle::Call, Side::Long, 1),
            (480_000, OptionStyle::Put, Side::Long, 1),
        ]
    );
}

#[test]
fn unquoted_leg_keeps_the_orders_before_it_and_is_not_entered() {
    let mut snap = snapshot(0);
    let mut quotes = ContractMap::new();
    for (strike, style, mid) in [
        (510_000u64, OptionStyle::Call, 2_000u64),
        (490_000, OptionStyle::Put, 1_800),
    ] {
        let q = quote(strike, style, mid);
        quotes.insert(q.contract.clone(), q);
    }
    snap.quotes = quotes;
    let mut adapter = adapter(ExitPolicy::Expiration);
    let mut out = Vec::new();
    assert!(matches!(
        adapter.open_entries(&snap, &mut out),
        Err(BacktestError::Execution(_))
    ));
    assert_eq!(out.len(), 2, "the two short legs come before the long call");
    assert!(!adapter.has_entered());
}

#[test]
fn condor_with_strikes_out_of_order_is_refused() {
    let StrategySpec::IronCondor(mut inner) = iron_condor_spec() else {
        panic!("iron_condor_spec builds an IronCondor spec");
    };
    inner.long_call_strike = PriceCents::new(505_000);
    assert!(matches!(
        OptStratAdapter::<IronCondor>::from_spec(
            &StrategySpec::IronCondor(inner),
            ExitPolicy::Expiration
        ),
        Err(BacktestError::Strategy(_))
    ));
}

#[test]
fn strangle_with_the_call_below_the_put_is_refused() {
    let StrategySpec::ShortStrangle(mut inner) = short_strangle_spec() else {
        panic!("short_strangle_spec builds a ShortStrangle spec");
    };
    inner.call_strike = PriceCents::new(470_000);
    assert!(matches!(
        OptStratAdapter::<ShortStrangle>::from_spec(
            &StrategySpec::ShortStrangle(inner),
            ExitPolicy::Expiration
        ),
        Err(BacktestError::Strategy(_))
    ));
}

#[test]
fn strangle_strikes_of_zero_are_set_around_the_underlying() {
    let StrategySpec::ShortStrangle(mut inner) = short_strangle_spec() else {
        panic!("short_strangle_spec builds a ShortStrangle spec");
    };
    inner.call_strike = PriceCents::new(0);
    inner.put_strike = PriceCents::new(0);
    let Ok(strangle) = build_short_strangle(&inner) else {
        panic!("strikes of zero are replaced");
    };
    let Ok(legs) = strangle.get_positions() else {
        panic!("a strangle has two legs");
    };
    assert_eq!(legs.len(), 2);
    assert_eq!(legs[0].strike.to_dec(), Decimal::new(5_500, 0));
    assert_eq!(legs[1].strike.to_dec(), Decimal::new(4_500, 0));
}

#[test]
fn owned_order_is_replaced() {
    let mut rng = ChaCha8Rng::seed_from_u64(12);
    let snap = snapshot(0);
    let resting_intent = OrderIntent {
        contract: key(510_000, OptionStyle::Call),
        action: PositionAction::Open,
        side: Side::Short,
        quantity: qty(1),
        limit: Some(PriceCents::new(2_000)),
        tif: TimeInForce::Gtc,
        decision_mid: PriceCents::new(2_000),
    };
    let resting = vec![PendingOrder {
        order_id: OrderId::new(7),
        intent: resting_intent.clone(),
    }];
    let ctx = ChainContext {
        snapshot: &snap,
        open: &[],
        pending: &resting,
        marks: &ContractMap::new(),
        rng: &mut rng,
        step: StepIndex::new(0),
    };
    let mut out = Vec::new();
    let adapter = adapter(ExitPolicy::Expiration);
    assert!(matches!(
        adapter.request_replace(&ctx, OrderId::new(7), resting_intent, &mut out),
        Ok(())
    ));
    assert!(matches!(
        out.as_slice(),
        [OrderCommand::Replace { order_id, .. }] if order_id.value() == 7
    ));
}

#[test]
fn composed_policy_is_recorded_as_it_is_written() {
    let reason = adapter(ExitPolicy::UnderlyingAbove(pos(Decimal::new(5_250, 0)))).exit_reason();
    let ExitReason::Other(text) = reason else {
        panic!("a policy without a reason of its own is recorded in words");
    };
    assert!(text.contains("5250"), "{text}");
}

#[test]
fn percentages_are_met_at_the_very_bound() {
    let check = |policy: ExitPolicy, current: Decimal, is_long: bool| {
        policy_triggered(
            &policy,
            Decimal::new(2_000, 2),
            current,
            0,
            pos(Decimal::new(30, 0)),
            pos(Decimal::new(5_000, 0)),
            is_long,
        )
    };
    let half = Decimal::new(5, 1);
    assert!(check(ExitPolicy::ProfitPercent(half), Decimal::new(3_000, 2), true));
    assert!(!check(ExitPolicy::ProfitPercent(half), Decimal::new(2_999, 2), true));
    assert!(check(ExitPolicy::ProfitPercent(half), Decimal::new(1_000, 2), false));
    assert!(!check(ExitPolicy::ProfitPercent(half), Decimal::new(1_001, 2), false));
    assert!(check(ExitPolicy::LossPercent(half), Decimal::new(1_000, 2), true));
    assert!(check(ExitPolicy::LossPercent(half), Decimal::new(3_000, 2), false));
    assert!(!check(ExitPolicy::LossPercent(half), Decimal::new(2_999, 2), false));
}

#[test]
fn fixed_prices_allow_less_than_a_cent() {
    let check = |policy: ExitPolicy, current: Decimal| {
        policy_triggered(
            &policy,
            Decimal::new(20, 0),
            current,
            3,
            pos(Decimal::new(30, 0)),
            pos(Decimal::new(5_000, 0)),
            true,
        )
    };
    let ten = || pos(Decimal::new(10, 0));
    assert!(check(ExitPolicy::FixedPrice(ten()), Decimal::new(10_009, 3)));
    assert!(!check(ExitPolicy::FixedPrice(ten()), Decimal::new(1_001, 2)));
    assert!(check(ExitPolicy::MinPrice(ten()), Decimal::new(10, 0)));
    assert!(!check(ExitPolicy::MinPrice(ten()), Decimal::new(1_001, 2)));
    assert!(check(ExitPolicy::MaxPrice(ten()), Decimal::new(10, 0)));
    assert!(!check(ExitPolicy::MaxPrice(ten()), Decimal::new(999, 2)));
    assert!(check(ExitPolicy::TimeSteps(3), Decimal::new(10, 0)));
    assert!(!check(ExitPolicy::TimeSteps(4), Decimal::new(10, 0)));
    assert!(check(
        ExitPolicy::DaysToExpiration(pos(Decimal::new(30, 0))),
        Decimal::new(10, 0)
    ));
    assert!(!check(
        ExitPolicy::DaysToExpiration(pos(Decimal::new(29, 0))),
        Decimal::new(10, 0)
    ));
    assert!(check(
        ExitPolicy::UnderlyingPrice(pos(Decimal::new(5_000, 0))),
        Decimal::new(10, 0)
    ));
    assert!(!check(
        ExitPolicy::UnderlyingBelow(pos(Decimal::new(5_000, 0))),
        Decimal::new(10, 0)
    ));
    assert!(!check(
        ExitPolicy::UnderlyingAbove(pos(Decimal::new(5_000, 0))),
        Decimal::new(10, 0)
    ));
}

#[test]
fn all_of_no_policies_is_met_and_one_of_none_is_not() {
    let check = |policy: ExitPolicy| {
        policy_triggered(
            &policy,
            Decimal::new(20, 0),
            Decimal::new(20, 0),
            0,
            pos(Decimal::new(30, 0)),
            pos(Decimal::new(5_000, 0)),
            true,
        )
    };
    assert!(check(ExitPolicy::And(Vec::new())));
    assert!(!check(ExitPolicy::Or(Vec::new())));
    assert!(!check(ExitPolicy::And(vec![
        ExitPolicy::TimeSteps(0),
        ExitPolicy::Expiration,
    ])));
    assert!(check(ExitPolicy::Or(vec![
        ExitPolicy::Expiration,
        ExitPolicy::And(vec![ExitPolicy::TimeSteps(0)]),
    ])));
}

#[test]
fn days_left_are_fractions_of_a_day() {
    let contract = key(510_000, OptionStyle::Call);
    let days = days_to_expiry(&contract, SimTime::new(EXP_NS - NANOS_PER_DAY / 4));
    assert!(matches!(days, Ok(d) if d.to_dec() == Decimal::new(25, 2)));
    let expired = days_to_expiry(&contract, SimTime::new(EXP_NS + 1));
    assert!(matches!(expired, Ok(d) if d.to_dec() == Decimal::new(0, 0)));
    let mut relative = key(510_000, OptionStyle::Call);
    relative.expiration = ExpirationDate::Days(pos(Decimal::new(30, 0)));
    assert!(matches!(
        days_to_expiry(&relative, SimTime::new(TS_NS)),
        Err(BacktestError::Conversion(_))
    ));
}

#[test]
fn relative_expirations_resolve_to_the_nanosecond() {
    let resolved = resolve_expiration(
        &ExpirationDate::Days(pos(Decimal::new(25, 2))),
        SimTime::new(TS_NS),
    );
    let Ok(ExpirationDate::DateTime(t)) = resolved else {
        panic!("a quarter of a day resolves");
    };
    assert_eq!(t.timestamp_nanos_opt(), Some(TS_NS + NANOS_PER_DAY / 4));
    assert!(matches!(
        resolve_expiration(
            &ExpirationDate::Days(pos(Decimal::new(1_000_000, 0))),
            SimTime::new(TS_NS)
        ),
        Err(BacktestError::ArithmeticOverflow)
    ));
}

#[test]
fn contracts_are_rounded_half_to_even() {
    let count = |mantissa: i64, scale: u32| {
        quantity_from_positive(pos(Decimal::new(mantissa, scale)))
    };
    assert!(matches!(count(25, 1), Ok(q) if q.value() == 2));
    assert!(matches!(count(35, 1), Ok(q) if q.value() == 4));
    assert!(matches!(count(5, 1), Err(BacktestError::InvalidQuantity(0))));
    assert!(matches!(
        count(4_294_967_296, 0),
        Err(BacktestError::Strategy(_))
    ));
}

#[test]
fn partly_covered_leg_is_closed_for_the_rest() {
    let leg = OpenPosition {
        position_id: PositionId::new(1),
        contract: key(510_000, OptionStyle::Call),
        side: Side::Short,
        quantity: qty(5),
        entry_premium: PriceCents::new(2_000),
    };
    let resting = PendingOrder {
        order_id: OrderId::new(9),
        intent: OrderIntent {
            contract: leg.contract.clone(),
            action: PositionAction::Close(leg.position_id),
            side: Side::Long,
            quantity: qty(2),
            limit: Some(PriceCents::new(1)),
            tif: TimeInForce::Gtc,
            decision_mid: PriceCents::new(2_000),
        },
    };
    let mut out = Vec::new();
    let result = close_all(&[leg], &[resting], &snapshot(9), &mut out);
    assert!(matches!(result, Ok(())));
    assert_eq!(out.len(), 1);
    assert_eq!(submit(&out[0]).quantity.value(), 3);
    assert_eq!(submit(&out[0]).decision_mid, PriceCents::new(2_000));
    assert_eq!(submit(&out[0]).side, Side::Long);
}

#[test]
fn refused_rate_is_written_with_all_its_places() {
    let mut legs = leg_set_legs();
    legs[0].implied_volatility = Decimal::new(-20, 2);
    let Err(e) = LegSetStrategy::from_spec(&leg_set_spec_from(legs), ExitPolicy::Expiration) else {
        panic!("a negative volatility is refused");
    };
    assert!(e.to_string().contains("-0.20"), "{}", e.to_string());
}

fn refusal_text<T>(r: Result<T, BacktestError>) -> String {
    match r {
        Ok(_) => panic!("a spec of another kind is refused"),
        Err(BacktestError::Strategy(text)) => text,
        Err(other) => panic!("unexpected error {other:?}"),
    }
}

#[test]
fn a_spec_of_another_kind_is_pointed_at_its_constructor() {
    let exit = || ExitPolicy::Expiration;
    assert_eq!(
        refusal_text(OptStratAdapter::<IronCondor>::from_spec(&short_strangle_spec(), exit())),
        "OptStratAdapter::<IronCondor>::from_spec received a short_strangle spec; build it with \
         OptStratAdapter::<ShortStrangle>::from_spec"
    );
    assert_eq!(
        refusal_text(OptStratAdapter::<ShortStrangle>::from_spec(&iron_condor_spec(), exit())),
        "OptStratAdapter::<ShortStrangle>::from_spec received a iron_condor spec; build it with \
         OptStratAdapter::<IronCondor>::from_spec"
    );
    assert_eq!(
        refusal_text(OptStratAdapter::<IronCondor>::from_spec(&leg_set_spec(), exit())),
        "OptStratAdapter::<IronCondor>::from_spec received a legs spec; an explicit leg set has \
         no upstream strategy object — build it with LegSetStrategy::from_spec"
    );
    assert_eq!(
        refusal_text(LegSetStrategy::from_spec(&iron_condor_spec(), exit())),
        "LegSetStrategy::from_spec received a iron_condor spec; build it with \
         OptStratAdapter::from_spec"
    );
}

#[test]
fn copies_say_the_same() {
    let spec = iron_condor_spec();
    assert_eq!(spec.clone(), spec);
    let set = leg_set_spec();
    assert_eq!(set.clone(), set);
    let snap = snapshot(3);
    assert_eq!(snap.clone(), snap);
}

#[test]
fn a_leg_without_a_quote_is_written_out() {
    let StrategySpec::Legs(set) = leg_set_spec() else {
        panic!("a leg set");
    };
    let mut leg = set.legs[0];
    leg.strike = PriceCents::new(1);
    leg.style = OptionStyle::Put;
    leg.expiration = ExpirationDate::DateTime(Instant::from_timestamp_nanos(0));
    match select_leg_set_quote(&snapshot(0), &leg) {
        Err(BacktestError::Execution(text)) => assert_eq!(
            text,
            "no snapshot quote for leg set leg strike 1 style OptionStyle::Put at expiration \
             DateTime(1970-01-01T00:00:00Z) (resolved from DateTime(1970-01-01T00:00:00Z)); a leg \
             set matches its own expiration exactly"
        ),
        other => panic!("expected a refusal, got {other:?}"),
    }
    assert!(matches!(
        quantity_from_positive(pos(Decimal::from_i128_with_scale(50_000_000_000_00, 2))),
        Err(BacktestError::Strategy(text))
            if text == "leg quantity 50000000000 is not a valid u32 contract count"
    ));
}
