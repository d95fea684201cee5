//! The run's fill stream and its per-step position rows.
//!
//! One [`FillRecord`] per executed fill; one [`PositionSnapshot`] per open leg
//! per step, and one terminal row per leg when it is closed in full.

use crate::domain::execution::sign_convention::sign_of;
use crate::domain::money::fits_i64;
use crate::domain::{ContractKey, Fill, PositionId, PriceCents, Side, TradeId};
use crate::engine::exit::ExitReason;
use crate::engine::ledger::{mark_value, PositionMark};
use crate::engine::tradelog::realized_pnl_of;
use crate::error::{BacktestError, ErrorKind};
use crate::text::unsigned_text;
use std::collections::BTreeMap;
use vstd::prelude::*;
use vstd::string::*;

verus! {

/// One executed fill with its lifecycle ids.
#[derive(Debug, PartialEq)]
pub struct FillRecord {
    /// The fill.
    pub fill: Fill,
    /// The trade it belongs to.
    pub trade_id: u64,
    /// The leg it opens or closes.
    pub position_id: u64,
    /// The order that produced it.
    pub order_id: u64,
    /// Its place among the order's fills.
    pub fill_seq: u32,
}

impl Clone for FillRecord {
    fn clone(&self) -> (r: Self)
        ensures
            r == *self,
    {
        FillRecord {
            fill: self.fill.clone(),
            trade_id: self.trade_id,
            position_id: self.position_id,
            order_id: self.order_id,
            fill_seq: self.fill_seq,
        }
    }
}

/// One leg at one step.
#[derive(Debug, PartialEq)]
pub struct PositionSnapshot {
    /// The step.
    pub step: u32,
    /// The step's timestamp (nanoseconds since the Unix epoch).
    pub ts_ns: i64,
    /// The leg.
    pub position_id: u64,
    /// The trade it belongs to.
    pub trade_id: u64,
    /// Its contract.
    pub contract: ContractKey,
    /// The side it was opened on.
    pub side: Side,
    /// How many contracts are open; on a terminal row, how many were closed.
    pub quantity: u32,
    /// The average entry premium, in cents.
    pub avg_price_cents: u64,
    /// The mark, in cents.
    pub mark_cents: u64,
    /// The unrealised profit or loss at the mark, in cents.
    pub unrealized_cents: i64,
    /// Whether the mark was carried forward for want of a quote.
    pub stale_mark: bool,
    /// Why the leg was closed; only on a terminal row.
    pub exit_reason: Option<ExitReason>,
    /// Whether the leg was open when the tape ended.
    pub open_at_end: bool,
}

impl Clone for PositionSnapshot {
    fn clone(&self) -> (r: Self)
        ensures
            r == *self,
    {
        PositionSnapshot {
            step: self.step,
            ts_ns: self.ts_ns,
            position_id: self.position_id,
            trade_id: self.trade_id,
            contract: self.contract.clone(),
            side: self.side,
            quantity: self.quantity,
            avg_price_cents: self.avg_price_cents,
            mark_cents: self.mark_cents,
            unrealized_cents: self.unrealized_cents,
            stale_mark: self.stale_mark,
            exit_reason: match &self.exit_reason {
                Some(reason) => Some(reason.clone()),
                None => None,
            },
            open_at_end: self.open_at_end,
        }
    }
}

/// What is kept of a leg that is still open.
#[derive(Debug, Clone, Copy)]
pub struct LegMeta {
    /// The trade it belongs to.
    pub trade_id: TradeId,
    /// The average entry premium.
    pub entry_premium: PriceCents,
    /// The side it was opened on.
    pub side: Side,
}

/// What a bundle collector holds.
pub struct BundleView {
    /// The fills, in the order they came.
    pub fills: Seq<FillRecord>,
    /// The rows, in the order they came.
    pub positions: Seq<PositionSnapshot>,
    /// The legs still open, by position.
    pub open_legs: Map<u64, LegMeta>,
}

/// Builds the fill stream and the position rows one event at a time.
#[derive(Debug)]
pub struct BundleCollector {
    /// The fills, in the order they came.
    pub fills: Vec<FillRecord>,
    /// The rows, in the order they came.
    pub positions: Vec<PositionSnapshot>,
    /// The legs still open, by position.
    pub open_legs: BTreeMap<u64, LegMeta>,
}

impl View for BundleCollector {
    type V = BundleView;

    open spec fn view(&self) -> BundleView {
        BundleView {
            fills: self.fills@,
            positions: self.positions@,
            open_legs: self.open_legs@,
        }
    }
}

/// What a leg would earn at its mark: a long what the price rose, a short
/// what it fell.
pub open spec fn unrealized_of(
    mark: int,
    entry: int,
    quantity: int,
    multiplier: int,
    side: Side,
) -> int {
    (mark - entry) * quantity * multiplier * sign_of(side)
}

/// What a leg would earn at its mark, or an overflow.
pub fn unrealized_cents(
    mark: PriceCents,
    entry: PriceCents,
    quantity: u32,
    contract_multiplier: u32,
    side: Side,
) -> (r: Result<i64, BacktestError>)
    ensures
        ({
            let value = unrealized_of(
                mark.0 as int,
                entry.0 as int,
                quantity as int,
                contract_multiplier as int,
                side,
            );
            match r {
                Ok(c) => c == value,
                Err(e) => !fits_i64(value) && e.kind() == ErrorKind::ArithmeticOverflow,
            }
        }),
{
    let diff: i128 = mark.0 as i128 - entry.0 as i128;
    assert(-0x1_0000_0000_0000_0000_0000_0000 < diff * quantity
        < 0x1_0000_0000_0000_0000_0000_0000) by (nonlinear_arith)
        requires
            -0x1_0000_0000_0000_0000 < diff < 0x1_0000_0000_0000_0000,
            0 <= quantity < 0x1_0000_0000,
    ;
    let sized: i128 = diff * quantity as i128;
    let ghost full = sized * contract_multiplier;
    assert(full * 1 == full && full * -1 == -full);
    let scaled: i128 = match sized.checked_mul(contract_multiplier as i128) {
        Some(scaled) => scaled,
        None => {
            return Err(BacktestError::ArithmeticOverflow);
        },
    };
    match side {
        Side::Long => if scaled < i64::MIN as i128 || scaled > i64::MAX as i128 {
            Err(BacktestError::ArithmeticOverflow)
        } else {
            Ok(scaled as i64)
        },
        Side::Short => if scaled < -(i64::MAX as i128) || scaled > -(i64::MIN as i128) {
            Err(BacktestError::ArithmeticOverflow)
        } else {
            Ok((-scaled) as i64)
        },
    }
}

/// The bundle after a fill of an open leg was recorded.
pub open spec fn bundle_filled(
    bundle: BundleView,
    fill: Fill,
    order_id: u64,
    trade_id: u64,
    position_id: u64,
    fill_seq: u32,
) -> BundleView {
    BundleView {
        fills: bundle.fills.push(
            FillRecord { fill, trade_id, position_id, order_id, fill_seq },
        ),
        ..bundle
    }
}

/// The bundle after a leg was registered as open.
pub open spec fn bundle_opened(bundle: BundleView, position_id: u64, leg: LegMeta) -> BundleView {
    BundleView { open_legs: bundle.open_legs.insert(position_id, leg), ..bundle }
}

/// What is known of a full close when its terminal row is written.
pub struct TerminalEvent {
    pub contract: ContractKey,
    pub step: u32,
    pub ts_ns: i64,
    pub position: PositionId,
    pub quantity: u32,
    pub snapshot_mark: Option<PriceCents>,
    pub multiplier: u32,
    pub reason: ExitReason,
}

/// The mark of a terminal row: the closing step's mid, else the entry
/// premium.
pub open spec fn terminal_mark(leg: LegMeta, event: TerminalEvent) -> PriceCents {
    match event.snapshot_mark {
        Some(mid) => mid,
        None => leg.entry_premium,
    }
}

/// The bundle after a leg was closed in full: its terminal row is written and
/// the leg is gone.
pub open spec fn bundle_closed(bundle: BundleView, event: TerminalEvent) -> Result<
    BundleView,
    ErrorKind,
> {
    let position = event.position.0;
    if !bundle.open_legs.dom().contains(position) {
        Err(ErrorKind::Execution)
    } else {
        let leg = bundle.open_legs[position];
        let mark = terminal_mark(leg, event);
        let unrealized = unrealized_of(
            mark.0 as int,
            leg.entry_premium.0 as int,
            event.quantity as int,
            event.multiplier as int,
            leg.side,
        );
        if !fits_i64(unrealized) {
            Err(ErrorKind::ArithmeticOverflow)
        } else {
            Ok(
                BundleView {
                    positions: bundle.positions.push(
                        PositionSnapshot {
                            step: event.step,
                            ts_ns: event.ts_ns,
                            position_id: position,
                            trade_id: leg.trade_id.0,
                            contract: event.contract,
                            side: leg.side,
                            quantity: event.quantity,
                            avg_price_cents: leg.entry_premium.0,
                            mark_cents: mark.0,
                            unrealized_cents: unrealized as i64,
                            stale_mark: event.snapshot_mark is None,
                            exit_reason: Some(event.reason),
                            open_at_end: false,
                        },
                    ),
                    open_legs: bundle.open_legs.remove(position),
                    ..bundle
                },
            )
        }
    }
}

/// The row of a marked leg.
pub open spec fn open_row(
    bundle: BundleView,
    step: u32,
    ts_ns: i64,
    mark: PositionMark,
    open_at_end: bool,
) -> Result<PositionSnapshot, ErrorKind> {
    let position = mark.position_id.0;
    if !bundle.open_legs.dom().contains(position) {
        Err(ErrorKind::Execution)
    } else {
        let leg = bundle.open_legs[position];
        let unrealized = unrealized_of(
            mark.mark.0 as int,
            leg.entry_premium.0 as int,
            mark.quantity.n(),
            mark.contract_multiplier as int,
            mark.side,
        );
        if !fits_i64(unrealized) {
            Err(ErrorKind::ArithmeticOverflow)
        } else {
            Ok(
                PositionSnapshot {
                    step,
                    ts_ns,
                    position_id: position,
                    trade_id: leg.trade_id.0,
                    contract: mark.contract,
                    side: mark.side,
                    quantity: mark.quantity.n() as u32,
                    avg_price_cents: leg.entry_premium.0,
                    mark_cents: mark.mark.0,
                    unrealized_cents: unrealized as i64,
                    stale_mark: mark.stale_mark,
                    exit_reason: None,
                    open_at_end,
                },
            )
        }
    }
}

/// The bundle after the rows of some marked legs were written, up to the
/// first that cannot be.
pub open spec fn bundle_rows(
    bundle: BundleView,
    step: u32,
    ts_ns: i64,
    marks: Seq<PositionMark>,
    open_at_end: bool,
) -> (BundleView, Option<ErrorKind>)
    decreases marks.len(),
{
    if marks.len() == 0 {
        (bundle, None)
    } else {
        let (before, error) = bundle_rows(bundle, step, ts_ns, marks.drop_last(), open_at_end);
        match error {
            Some(kind) => (before, Some(kind)),
            None => match open_row(before, step, ts_ns, marks.last(), open_at_end) {
                Ok(row) => (
                    BundleView { positions: before.positions.push(row), ..before },
                    None,
                ),
                Err(kind) => (before, Some(kind)),
            },
        }
    }
}

/// The refusal of an event on a leg that is not open.
fn not_open(what: &str, position_id: PositionId) -> (e: BacktestError)
    ensures
        e.kind() == ErrorKind::Execution,
{
    BacktestError::Execution(
        String::from_str(what).concat(&unsigned_text(position_id.0 as u128)).concat(
            " which is not open",
        ),
    )
}

impl BundleCollector {
    /// An empty collector with room for `fill_capacity` fills.
    pub fn with_capacity(fill_capacity: usize) -> (c: Self)
        ensures
            c@ == (BundleView {
                fills: Seq::empty(),
                positions: Seq::empty(),
                open_legs: Map::empty(),
            }),
    {
        BundleCollector {
            fills: Vec::with_capacity(fill_capacity),
            positions: Vec::new(),
            open_legs: BTreeMap::new(),
        }
    }

    /// Make room for the fills and rows of `open_leg_count` legs over
    /// `step_capacity` steps.
    pub fn reserve(&mut self, open_leg_count: usize, step_capacity: usize)
        ensures
            final(self)@ == old(self)@,
    {
        match open_leg_count.checked_mul(2) {
            Some(want) => {
                let len: usize = self.fills.len();
                if want > len {
                    self.fills.reserve(want - len);
                }
            },
            None => {},
        }
        match step_capacity.checked_mul(open_leg_count) {
            Some(open_rows) => match open_rows.checked_add(open_leg_count) {
                Some(want) => {
                    let len: usize = self.positions.len();
                    if want > len {
                        self.positions.reserve(want - len);
                    }
                },
                None => {},
            },
            None => {},
        }
    }

    /// Register a leg as open, or take down its new average entry.
    pub fn register_open_leg(
        &mut self,
        position_id: PositionId,
        trade_id: TradeId,
        entry_premium: PriceCents,
        side: Side,
    )
        ensures
            final(self)@ == bundle_opened(
                old(self)@,
                position_id.0,
                LegMeta { trade_id, entry_premium, side },
            ),
    {
        self.open_legs.insert(position_id.0, LegMeta { trade_id, entry_premium, side });
    }

    /// Record one fill that opens a leg, at place `fill_seq` of its order.
    pub fn record_open_level(
        &mut self,
        fill: &Fill,
        order_id: u64,
        trade_id: TradeId,
        position_id: PositionId,
        fill_seq: u32,
    )
        ensures
            final(self)@ == bundle_filled(
                old(self)@,
                *fill,
                order_id,
                trade_id.0,
                position_id.0,
                fill_seq,
            ),
    {
        self.fills.push(
            FillRecord {
                fill: fill.clone(),
                trade_id: trade_id.0,
                position_id: position_id.0,
                order_id,
                fill_seq,
            },
        );
    }

    /// Record a leg that one fill opens.
    pub fn record_open_fill(
        &mut self,
        fill: &Fill,
        order_id: u64,
        trade_id: TradeId,
        position_id: PositionId,
    )
        ensures
            final(self)@ == bundle_opened(
                bundle_filled(old(self)@, *fill, order_id, trade_id.0, position_id.0, 0),
                position_id.0,
                LegMeta { trade_id, entry_premium: fill.price, side: fill.side },
            ),
    {
        self.record_open_level(fill, order_id, trade_id, position_id, 0);
        self.register_open_leg(position_id, trade_id, fill.price, fill.side);
    }

    /// Record one fill that closes a leg, at place `fill_seq` of its order. A
    /// refused fill changes nothing.
    pub fn record_close_level(
        &mut self,
        fill: &Fill,
        order_id: u64,
        position_id: PositionId,
        fill_seq: u32,
    ) -> (r: Result<(), BacktestError>)
        ensures
            match r {
                Ok(_) => old(self)@.open_legs.dom().contains(position_id.0) && final(self)@
                    == bundle_filled(
                    old(self)@,
                    *fill,
                    order_id,
                    old(self)@.open_legs[position_id.0].trade_id.0,
                    position_id.0,
                    fill_seq,
                ),
                Err(e) => !old(self)@.open_legs.dom().contains(position_id.0) && final(self)@
                    == old(self)@ && e.kind() == ErrorKind::Execution,
            },
    {
        let trade_id = match self.open_legs.get(&position_id.0) {
            Some(leg) => leg.trade_id,
            None => {
                return Err(not_open("bundle close targets position ", position_id));
            },
        };
        self.record_open_level(fill, order_id, trade_id, position_id, fill_seq);
        Ok(())
    }

    /// Write the terminal row of a leg closed in full, and drop the leg. A
    /// refused close changes nothing.
    pub fn record_close_terminal(
        &mut self,
        contract: &ContractKey,
        step: u32,
        ts_ns: i64,
        position_id: PositionId,
        quantity: u32,
        snapshot_mark: Option<PriceCents>,
        contract_multiplier: u32,
        exit_reason: ExitReason,
    ) -> (r: Result<(), BacktestError>)
        ensures
            ({
                let event = TerminalEvent {
                    contract: *contract,
                    step,
                    ts_ns,
                    position: position_id,
                    quantity,
                    snapshot_mark,
                    multiplier: contract_multiplier,
                    reason: exit_reason,
                };
                match r {
                    Ok(_) => bundle_closed(old(self)@, event) == Ok::<BundleView, ErrorKind>(
                        final(self)@,
                    ),
                    Err(e) => bundle_closed(old(self)@, event) == Err::<BundleView, ErrorKind>(
                        e.kind(),
                    ) && final(self)@ == old(self)@,
                }
            }),
    {
        let leg: LegMeta = match self.open_legs.get(&position_id.0) {
            Some(leg) => *leg,
            None => {
                return Err(not_open("bundle close targets position ", position_id));
            },
        };
        let (mark, stale_mark) = match snapshot_mark {
            Some(mid) => (mid, false),
            None => (leg.entry_premium, true),
        };
        let unrealized: i64 = match unrealized_cents(
            mark,
            leg.entry_premium,
            quantity,
            contract_multiplier,
            leg.side,
        ) {
            Ok(c) => c,
            Err(e) => {
                return Err(e);
            },
        };
        self.positions.push(
            PositionSnapshot {
                step,
                ts_ns,
                position_id: position_id.0,
                trade_id: leg.trade_id.0,
                contract: contract.clone(),
                side: leg.side,
                quantity,
                avg_price_cents: leg.entry_premium.0,
                mark_cents: mark.0,
                unrealized_cents: unrealized,
                stale_mark,
                exit_reason: Some(exit_reason),
                open_at_end: false,
            },
        );
        self.open_legs.remove(&position_id.0);
        Ok(())
    }

    /// Record a close by one fill: the fill, and on a full close the terminal
    /// row. A fill on a leg that is not open changes nothing; a terminal row
    /// that overflows leaves the fill recorded.
    pub fn record_close_fill(
        &mut self,
        fill: &Fill,
        order_id: u64,
        position_id: PositionId,
        full_close: bool,
        snapshot_mark: Option<PriceCents>,
        contract_multiplier: u32,
        exit_reason: ExitReason,
    ) -> (r: Result<(), BacktestError>)
        ensures
            ({
                let before = old(self)@;
                let known = before.open_legs.dom().contains(position_id.0);
                let filled = bundle_filled(
                    before,
                    *fill,
                    order_id,
                    before.open_legs[position_id.0].trade_id.0,
                    position_id.0,
                    0,
                );
                let event = TerminalEvent {
                    contract: fill.contract,
                    step: fill.step.0,
                    ts_ns: fill.ts.0,
                    position: position_id,
                    quantity: fill.quantity.n() as u32,
                    snapshot_mark,
                    multiplier: contract_multiplier,
                    reason: exit_reason,
                };
                match r {
                    Ok(_) => known && (if full_close {
                        bundle_closed(filled, event) == Ok::<BundleView, ErrorKind>(final(self)@)
                    } else {
                        final(self)@ == filled
                    }),
                    Err(e) => if known {
                        full_close && bundle_closed(filled, event) == Err::<BundleView, ErrorKind>(
                            e.kind(),
                        ) && final(self)@ == filled
                    } else {
                        e.kind() == ErrorKind::Execution && final(self)@ == before
                    },
                }
            }),
    {
        match self.record_close_level(fill, order_id, position_id, 0) {
            Ok(_) => {},
            Err(e) => {
                return Err(e);
            },
        }
        if full_close {
            return self.record_close_terminal(
                &fill.contract,
                fill.step.0,
                fill.ts.0,
                position_id,
                fill.quantity.value(),
                snapshot_mark,
                contract_multiplier,
                exit_reason,
            );
        }
        Ok(())
    }

    /// Write one row per marked leg. The rows before the first that cannot be
    /// written stay.
    pub fn collect_step(
        &mut self,
        step: u32,
        ts_ns: i64,
        marks: &[PositionMark],
        open_at_end: bool,
    ) -> (r: Result<(), BacktestError>)
        ensures
            ({
                let (after, error) = bundle_rows(old(self)@, step, ts_ns, marks@, open_at_end);
                &&& final(self)@ == after
                &&& match r {
                    Ok(_) => error is None,
                    Err(e) => error == Some(e.kind()),
                }
            }),
    {
        let mut i: usize = 0;
        assert(marks@.take(0) =~= Seq::<PositionMark>::empty());
        while i < marks.len()
            invariant
                i <= marks.len(),
                bundle_rows(old(self)@, step, ts_ns, marks@.take(i as int), open_at_end) == (
                    self@,
                    None::<ErrorKind>,
                ),
            decreases marks.len() - i,
        {
            let mark = &marks[i];
            proof {
                assert(marks@.take(i + 1).drop_last() =~= marks@.take(i as int));
                assert(marks@.take(i + 1).last() == *mark);
            }
            let leg: LegMeta = match self.open_legs.get(&mark.position_id.0) {
                Some(leg) => *leg,
                None => {
                    proof {
                        lemma_rows_stop(old(self)@, step, ts_ns, marks@, open_at_end, i + 1);
                    }
                    return Err(
                        BacktestError::Execution(
                            String::from_str("position snapshot for leg ").concat(
                                &unsigned_text(mark.position_id.0 as u128),
                            ).concat(" has no recorded open"),
                        ),
                    );
                },
            };
            let unrealized: i64 = match unrealized_cents(
                mark.mark,
                leg.entry_premium,
                mark.quantity.value(),
                mark.contract_multiplier,
                mark.side,
            ) {
                Ok(c) => c,
                Err(e) => {
                    proof {
                        lemma_rows_stop(old(self)@, step, ts_ns, marks@, open_at_end, i + 1);
                    }
                    return Err(e);
                },
            };
            self.positions.push(
                PositionSnapshot {
                    step,
                    ts_ns,
                    position_id: mark.position_id.0,
                    trade_id: leg.trade_id.0,
                    contract: mark.contract.clone(),
                    side: mark.side,
                    quantity: mark.quantity.value(),
                    avg_price_cents: leg.entry_premium.0,
                    mark_cents: mark.mark.0,
                    unrealized_cents: unrealized,
                    stale_mark: mark.stale_mark,
                    exit_reason: None,
                    open_at_end,
                },
            );
            i = i + 1;
        }
        assert(marks@.take(marks@.len() as int) =~= marks@);
        Ok(())
    }

    /// The fills and the rows, in the order they came.
    pub fn into_parts(self) -> (parts: (Vec<FillRecord>, Vec<PositionSnapshot>))
        ensures
            parts.0@ == self@.fills,
            parts.1@ == self@.positions,
    {
        (self.fills, self.positions)
    }
}

/// Once a row cannot be written, no later row changes anything.
proof fn lemma_rows_stop(
    bundle: BundleView,
    step: u32,
    ts_ns: i64,
    marks: Seq<PositionMark>,
    open_at_end: bool,
    k: int,
)
    requires
        0 <= k <= marks.len(),
        bundle_rows(bundle, step, ts_ns, marks.take(k), open_at_end).1 is Some,
    ensures
        bundle_rows(bundle, step, ts_ns, marks, open_at_end) == bundle_rows(
            bundle,
            step,
            ts_ns,
            marks.take(k),
            open_at_end,
        ),
    decreases marks.len() - k,
{
    if k < marks.len() {
        assert(marks.take(k + 1).drop_last() =~= marks.take(k));
        lemma_rows_stop(bundle, step, ts_ns, marks, open_at_end, k + 1);
    } else {
        assert(marks.take(k) =~= marks);
    }
}

/// Where all rows of a step can be written, there is one more row per marked
/// leg, and nothing else changes.
pub proof fn law_one_row_per_open_leg(
    bundle: BundleView,
    step: u32,
    ts_ns: i64,
    marks: Seq<PositionMark>,
    open_at_end: bool,
)
    requires
        bundle_rows(bundle, step, ts_ns, marks, open_at_end).1 is None,
    ensures
        ({
            let after = bundle_rows(bundle, step, ts_ns, marks, open_at_end).0;
            &&& after.fills == bundle.fills
            &&& after.open_legs == bundle.open_legs
            &&& after.positions.len() == bundle.positions.len() + marks.len()
            &&& after.positions.take(bundle.positions.len() as int) == bundle.positions
            &&& forall|i: int|
                0 <= i < marks.len() ==> {
                    let row = #[trigger] after.positions[bundle.positions.len() + i];
                    &&& row.position_id == marks[i].position_id.0
                    &&& row.exit_reason is None
                    &&& row.open_at_end == open_at_end
                }
        }),
    decreases marks.len(),
{
    let n = bundle.positions.len() as int;
    if marks.len() == 0 {
        assert(bundle.positions.take(n) =~= bundle.positions);
    } else {
        law_one_row_per_open_leg(bundle, step, ts_ns, marks.drop_last(), open_at_end);
        let before = bundle_rows(bundle, step, ts_ns, marks.drop_last(), open_at_end).0;
        let after = bundle_rows(bundle, step, ts_ns, marks, open_at_end).0;
        assert(after.positions.take(n) =~= before.positions.take(n));
        assert forall|i: int| 0 <= i < marks.len() implies ({
            let row = #[trigger] after.positions[n + i];
            &&& row.position_id == marks[i].position_id.0
            &&& row.exit_reason is None
            &&& row.open_at_end == open_at_end
        }) by {
            if i < marks.len() - 1 {
                assert(after.positions[n + i] == before.positions[n + i]);
                assert(marks.drop_last()[i] == marks[i]);
            }
        }
    }
}

/// A leg's unrealised result follows the price: a long gains exactly when its
/// mark is above its entry and a short exactly when it is below, and what one
/// gains the other loses.
pub proof fn law_unrealised_follows_the_price(
    mark: int,
    entry: int,
    quantity: int,
    multiplier: int,
)
    requires
        quantity > 0,
        multiplier > 0,
    ensures
        unrealized_of(mark, entry, quantity, multiplier, Side::Long) > 0 <==> mark > entry,
        unrealized_of(mark, entry, quantity, multiplier, Side::Short) > 0 <==> mark < entry,
        unrealized_of(mark, entry, quantity, multiplier, Side::Long) + unrealized_of(
            mark,
            entry,
            quantity,
            multiplier,
            Side::Short,
        ) == 0,
{
    let d = mark - entry;
    let size = d * quantity * multiplier;
    assert((size > 0) == (d > 0) && (size < 0) == (d < 0)) by (nonlinear_arith)
        requires
            size == d * quantity * multiplier,
            quantity > 0,
            multiplier > 0,
    ;
    assert(size * 1 == size && size * -1 == -size) by (nonlinear_arith);
}

/// A cent on the mark of one contract is worth the multiplier: to a long as
/// the mark rises, to a short as it falls.
pub proof fn law_unrealised_grows_by_the_cent(
    mark: int,
    entry: int,
    cents: int,
    quantity: int,
    multiplier: int,
)
    ensures
        unrealized_of(mark + cents, entry, quantity, multiplier, Side::Long) == unrealized_of(
            mark,
            entry,
            quantity,
            multiplier,
            Side::Long,
        ) + cents * quantity * multiplier,
        unrealized_of(mark + cents, entry, quantity, multiplier, Side::Short) == unrealized_of(
            mark,
            entry,
            quantity,
            multiplier,
            Side::Short,
        ) - cents * quantity * multiplier,
        unrealized_of(entry, entry, quantity, multiplier, Side::Long) == 0,
        unrealized_of(entry, entry, quantity, multiplier, Side::Short) == 0,
{
    let before = (mark - entry) * quantity * multiplier;
    let after = (mark + cents - entry) * quantity * multiplier;
    let more = cents * quantity * multiplier;
    assert(after == before + more) by (nonlinear_arith)
        requires
            before == (mark - entry) * quantity * multiplier,
            after == (mark + cents - entry) * quantity * multiplier,
            more == cents * quantity * multiplier,
    ;
    assert(after * 1 == after && after * -1 == -after) by (nonlinear_arith);
    assert(before * 1 == before && before * -1 == -before) by (nonlinear_arith);
    let none = (entry - entry) * quantity * multiplier;
    assert(none == 0 && none * 1 == 0 && none * -1 == 0) by (nonlinear_arith)
        requires
            none == (entry - entry) * quantity * multiplier,
    ;
}

/// Closing a leg at its mark realises, before the fees of the close, what was
/// unrealised.
pub proof fn law_closing_at_the_mark_realises(
    side: Side,
    mark: int,
    entry: int,
    quantity: int,
    multiplier: int,
    fees: int,
)
    ensures
        realized_pnl_of(side, entry, mark, quantity, multiplier, fees) + fees == unrealized_of(
            mark,
            entry,
            quantity,
            multiplier,
            side,
        ),
{
    let size = (mark - entry) * quantity * multiplier;
    assert(size * 1 == size && size * -1 == -size) by (nonlinear_arith);
    assert((entry - mark) * quantity * multiplier == -size) by (nonlinear_arith)
        requires
            size == (mark - entry) * quantity * multiplier,
    ;
}

/// The unrealised result of a marked leg is what the leg is worth at its mark
/// less what it was worth at its entry.
pub proof fn law_unrealised_is_the_change_of_value(m: PositionMark, entered: PositionMark)
    requires
        entered.side == m.side,
        entered.quantity == m.quantity,
        entered.contract_multiplier == m.contract_multiplier,
    ensures
        unrealized_of(
            m.mark.0 as int,
            entered.mark.0 as int,
            m.quantity.n(),
            m.contract_multiplier as int,
            m.side,
        ) == mark_value(m) - mark_value(entered),
{
    let (a, b) = (m.mark.0 as int, entered.mark.0 as int);
    let (q, k) = (m.quantity.n(), m.contract_multiplier as int);
    let s = sign_of(m.side);
    assert((a - b) * q * k * s == s * (a * q * k) - s * (b * q * k)) by (nonlinear_arith);
}

/// A row says of its leg what was marked and what is known of its entry, and
/// carries the leg's unrealised result.
pub proof fn law_rows_say_what_was_marked(
    bundle: BundleView,
    step: u32,
    ts_ns: i64,
    marks: Seq<PositionMark>,
    open_at_end: bool,
    i: int,
)
    requires
        bundle_rows(bundle, step, ts_ns, marks, open_at_end).1 is None,
        0 <= i < marks.len(),
    ensures
        ({
            let row = bundle_rows(bundle, step, ts_ns, marks, open_at_end).0.positions[
            bundle.positions.len() + i];
            let m = marks[i];
            let leg = bundle.open_legs[m.position_id.0];
            let gain = (m.mark.0 - leg.entry_premium.0) * m.quantity.n() * m.contract_multiplier;
            &&& bundle.open_legs.dom().contains(m.position_id.0)
            &&& row.step == step && row.ts_ns == ts_ns
            &&& row.position_id == m.position_id.0
            &&& row.trade_id == leg.trade_id.0
            &&& row.contract == m.contract
            &&& row.side == m.side
            &&& row.quantity == m.quantity.n()
            &&& row.avg_price_cents == leg.entry_premium.0
            &&& row.mark_cents == m.mark.0
            &&& row.unrealized_cents == if m.side is Long {
                gain
            } else {
                -gain
            }
            &&& row.stale_mark == m.stale_mark
            &&& row.exit_reason is None
            &&& row.open_at_end == open_at_end
        }),
    decreases marks.len(),
{
    let front = marks.drop_last();
    let before = bundle_rows(bundle, step, ts_ns, front, open_at_end).0;
    let after = bundle_rows(bundle, step, ts_ns, marks, open_at_end).0;
    law_one_row_per_open_leg(bundle, step, ts_ns, front, open_at_end);
    let n = bundle.positions.len() as int;
    if i < front.len() {
        law_rows_say_what_was_marked(bundle, step, ts_ns, front, open_at_end, i);
        assert(front[i] == marks[i]);
        assert(after.positions[n + i] == before.positions[n + i]);
    } else {
        let m = marks.last();
        m.quantity.lemma_of();
        let leg = bundle.open_legs[m.position_id.0];
        let gain = (m.mark.0 - leg.entry_premium.0) * m.quantity.n() * m.contract_multiplier;
        assert(gain * 1 == gain && gain * -1 == -gain) by (nonlinear_arith);
    }
}

/// A leg closed in full leaves one terminal row behind and is no longer open.
/// The row carries the reason, and the leg's result at the closing step's mid,
/// which is nothing where there is no mid and the entry stands in for it.
pub proof fn law_terminal_row_ends_its_leg(bundle: BundleView, event: TerminalEvent)
    ensures
        ({
            let position = event.position.0;
            let known = bundle.open_legs.dom().contains(position);
            match bundle_closed(bundle, event) {
                Ok(after) => {
                    let leg = bundle.open_legs[position];
                    let row = after.positions.last();
                    let gain = (row.mark_cents - leg.entry_premium.0) * event.quantity
                        * event.multiplier;
                    &&& known
                    &&& !after.open_legs.dom().contains(position)
                    &&& forall|other: u64| #[trigger] bundle.open_legs.dom().contains(other)
                        && other != position ==> after.open_legs.dom().contains(other)
                        && after.open_legs[other] == bundle.open_legs[other]
                    &&& after.fills == bundle.fills
                    &&& after.positions.len() == bundle.positions.len() + 1
                    &&& after.positions.drop_last() == bundle.positions
                    &&& row.step == event.step && row.ts_ns == event.ts_ns
                    &&& row.position_id == position
                    &&& row.trade_id == leg.trade_id.0
                    &&& row.contract == event.contract
                    &&& row.side == leg.side
                    &&& row.quantity == event.quantity
                    &&& row.avg_price_cents == leg.entry_premium.0
                    &&& event.snapshot_mark matches Some(mid) ==> row.mark_cents == mid.0
                        && !row.stale_mark
                    &&& event.snapshot_mark is None ==> row.mark_cents == leg.entry_premium.0
                        && row.stale_mark && row.unrealized_cents == 0
                    &&& row.unrealized_cents == if leg.side is Long {
                        gain
                    } else {
                        -gain
                    }
                    &&& row.exit_reason == Some(event.reason)
                    &&& !row.open_at_end
                },
                Err(kind) => if known {
                    let leg = bundle.open_legs[position];
                    let mark = match event.snapshot_mark {
                        Some(mid) => mid.0,
                        None => leg.entry_premium.0,
                    };
                    let rise = (mark - leg.entry_premium.0) * event.quantity * event.multiplier;
                    let gain = if leg.side is Long {
                        rise
                    } else {
                        -rise
                    };
                    &&& kind == ErrorKind::ArithmeticOverflow
                    &&& gain < -0x8000_0000_0000_0000 || gain >= 0x8000_0000_0000_0000
                } else {
                    kind == ErrorKind::Execution
                },
            }
        }),
{
    let leg = bundle.open_legs[event.position.0];
    let mark = terminal_mark(leg, event);
    let gain = (mark.0 - leg.entry_premium.0) * event.quantity * event.multiplier;
    assert(gain * 1 == gain && gain * -1 == -gain) by (nonlinear_arith);
    if bundle_closed(bundle, event) is Ok {
        let after = bundle_closed(bundle, event)->Ok_0;
        assert(mark.0 == leg.entry_premium.0 ==> gain == 0) by (nonlinear_arith)
            requires
                gain == (mark.0 - leg.entry_premium.0) * event.quantity * event.multiplier,
        ;
        assert(after.positions.drop_last() =~= bundle.positions);
    }
}

/// The rows of a step are written where every marked leg is known and no
/// result runs over, and a leg that is not known ends them.
pub proof fn law_rows_are_written_of_known_legs(
    bundle: BundleView,
    step: u32,
    ts_ns: i64,
    marks: Seq<PositionMark>,
    open_at_end: bool,
)
    ensures
        ({
            let error = bundle_rows(bundle, step, ts_ns, marks, open_at_end).1;
            &&& (forall|i: int|
                0 <= i < marks.len() ==> {
                    let m = #[trigger] marks[i];
                    let leg = bundle.open_legs[m.position_id.0];
                    let rise = (m.mark.0 - leg.entry_premium.0) * m.quantity.n()
                        * m.contract_multiplier;
                    &&& bundle.open_legs.dom().contains(m.position_id.0)
                    &&& -0x8000_0000_0000_0000 < rise < 0x8000_0000_0000_0000
                }) ==> error is None
            &&& (exists|i: int|
                0 <= i < marks.len() && !bundle.open_legs.dom().contains(
                    (#[trigger] marks[i]).position_id.0,
                )) ==> error is Some
        }),
    decreases marks.len(),
{
    if marks.len() > 0 {
        let front = marks.drop_last();
        law_rows_are_written_of_known_legs(bundle, step, ts_ns, front, open_at_end);
        let m = marks.last();
        assert(m == marks[marks.len() - 1]);
        assert forall|i: int| 0 <= i < front.len() implies #[trigger] front[i] == marks[i] by {}
        let before = bundle_rows(bundle, step, ts_ns, front, open_at_end);
        if before.1 is None {
            law_one_row_per_open_leg(bundle, step, ts_ns, front, open_at_end);
        }
        let leg = bundle.open_legs[m.position_id.0];
        let rise = (m.mark.0 - leg.entry_premium.0) * m.quantity.n() * m.contract_multiplier;
        assert(rise * 1 == rise && rise * -1 == -rise) by (nonlinear_arith);
        if exists|i: int|
            0 <= i < marks.len() && !bundle.open_legs.dom().contains(
                (#[trigger] marks[i]).position_id.0,
            ) {
            let i = choose|i: int|
                0 <= i < marks.len() && !bundle.open_legs.dom().contains(
                    (#[trigger] marks[i]).position_id.0,
                );
            if i < front.len() {
                assert(front[i] == marks[i]);
            }
        }
    }
}

/// A recorded fill is the last of the stream, with its ids, and nothing else
/// changes; a registered leg is known from then on, and no fill or row is.
pub proof fn law_records_add_one_thing(
    bundle: BundleView,
    fill: Fill,
    order_id: u64,
    trade_id: u64,
    position_id: u64,
    fill_seq: u32,
    leg: LegMeta,
)
    ensures
        ({
            let filled = bundle_filled(bundle, fill, order_id, trade_id, position_id, fill_seq);
            let opened = bundle_opened(bundle, position_id, leg);
            let record = filled.fills.last();
            &&& filled.fills.drop_last() == bundle.fills
            &&& filled.fills.len() == bundle.fills.len() + 1
            &&& record.fill == fill
            &&& record.order_id == order_id
            &&& record.trade_id == trade_id
            &&& record.position_id == position_id
            &&& record.fill_seq == fill_seq
            &&& filled.positions == bundle.positions
            &&& filled.open_legs == bundle.open_legs
            &&& opened.fills == bundle.fills
            &&& opened.positions == bundle.positions
            &&& opened.open_legs.dom().contains(position_id)
            &&& opened.open_legs[position_id] == leg
            &&& forall|other: u64| #[trigger] bundle.open_legs.dom().contains(other) && other
                != position_id ==> opened.open_legs.dom().contains(other)
                && opened.open_legs[other] == bundle.open_legs[other]
        }),
{
    let filled = bundle_filled(bundle, fill, order_id, trade_id, position_id, fill_seq);
    assert(filled.fills.drop_last() =~= bundle.fills);
}

} // verus!
