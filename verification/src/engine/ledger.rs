//! The mark-to-market ledger.
//!
//! Cash moves only through fills and their fees. Once per step the open legs
//! are marked at the snapshot's mids, and the ledger yields one equity point:
//! equity is cash plus the marked value of the legs.

use crate::domain::contract::KeyView;
use crate::domain::decimal::Decimal;
use crate::domain::execution::sign_convention::{
    sign_of, spread_capture_cents, sum_cents, sums_fit,
};
use crate::domain::money::fits_i64;
use crate::domain::{
    Cents, ChainSnapshot, ContractKey, ContractMap, Drawdown, EquityPoint, Fill, OpenPosition,
    PositionId, PriceCents, Quantity, QuoteView, Side, SimTime, StepIndex,
};
use crate::error::{BacktestError, ErrorKind};
use vstd::prelude::*;

verus! {

/// The sensitivities of one contract, per unit.
#[derive(Debug, Clone, Copy, PartialEq)]
pub struct UnitGreeks {
    /// Delta.
    pub delta: Decimal,
    /// Gamma.
    pub gamma: Decimal,
    /// Theta.
    pub theta: Decimal,
    /// Vega.
    pub vega: Decimal,
    /// The implied volatility they were quoted at.
    pub implied_volatility: Decimal,
}

/// The sensitivities that a quote carries.
pub open spec fn greeks_of(quote: QuoteView) -> UnitGreeks {
    UnitGreeks {
        delta: quote.delta,
        gamma: quote.gamma,
        theta: quote.theta,
        vega: quote.vega,
        implied_volatility: quote.implied_volatility,
    }
}

/// One leg as the ledger marked it.
#[derive(Debug, PartialEq)]
pub struct PositionMark {
    /// The leg.
    pub position_id: PositionId,
    /// Its contract.
    pub contract: ContractKey,
    /// Bought or sold.
    pub side: Side,
    /// How many contracts.
    pub quantity: Quantity,
    /// How many units one contract stands for.
    pub contract_multiplier: u32,
    /// The mark per contract.
    pub mark: PriceCents,
    /// Whether the mark was carried forward for want of a quote.
    pub stale_mark: bool,
    /// The sensitivities as of the previous snapshot, where there are any.
    pub prior_greeks: Option<UnitGreeks>,
}

impl Clone for PositionMark {
    fn clone(&self) -> (r: Self)
        ensures
            r == *self,
    {
        PositionMark {
            position_id: self.position_id,
            contract: self.contract.clone(),
            side: self.side,
            quantity: self.quantity,
            contract_multiplier: self.contract_multiplier,
            mark: self.mark,
            stale_mark: self.stale_mark,
            prior_greeks: self.prior_greeks,
        }
    }
}

/// What a ledger holds.
pub struct LedgerView {
    /// Cash, in cents.
    pub cash: int,
    /// The highest equity so far, in cents.
    pub peak: int,
    /// The last known mid of each contract marked so far.
    pub marks: Map<KeyView, PriceCents>,
    /// The last known sensitivities of each contract marked so far.
    pub greeks: Map<KeyView, UnitGreeks>,
    /// The slippage of each fill since the last equity point.
    pub slippages: Seq<Cents>,
    /// The fees of each fill since the last equity point.
    pub fee_entries: Seq<Cents>,
    /// The equity of the last equity point, or the initial capital.
    pub prior_equity: int,
    /// The spread captured by the last step's fills.
    pub spread_capture: int,
    /// The fees of the last step's fills.
    pub fees: int,
    /// The change of equity over the last step.
    pub step_pnl: int,
    /// The legs held at the end of the last step, as marked.
    pub position_marks: Seq<PositionMark>,
    /// The legs held at the beginning of the last step.
    pub attribution_marks: Seq<PositionMark>,
}

/// The run's cash-and-mark ledger.
#[derive(Debug)]
pub struct Ledger {
    cash: Cents,
    running_peak: i64,
    marks: ContractMap<PriceCents>,
    greeks: ContractMap<UnitGreeks>,
    slippages: Vec<Cents>,
    fee_entries: Vec<Cents>,
    prior_equity: i64,
    spread_capture: Cents,
    fees: Cents,
    step_pnl: Cents,
    position_marks: Vec<PositionMark>,
    attribution_marks: Vec<PositionMark>,
}

impl Clone for Ledger {
    fn clone(&self) -> (r: Self)
        ensures
            r@ == self@,
    {
        let marks = self.marks.clone();
        assert(marks.entries() =~= self.marks.entries());
        let greeks = self.greeks.clone();
        assert(greeks.entries() =~= self.greeks.entries());
        let slippages = self.slippages.clone();
        assert(slippages@ =~= self.slippages@);
        let fee_entries = self.fee_entries.clone();
        assert(fee_entries@ =~= self.fee_entries@);
        let position_marks = self.position_marks.clone();
        assert(position_marks@ =~= self.position_marks@);
        let attribution_marks = self.attribution_marks.clone();
        assert(attribution_marks@ =~= self.attribution_marks@);
        Ledger {
            cash: self.cash,
            running_peak: self.running_peak,
            marks,
            greeks,
            slippages,
            fee_entries,
            prior_equity: self.prior_equity,
            spread_capture: self.spread_capture,
            fees: self.fees,
            step_pnl: self.step_pnl,
            position_marks,
            attribution_marks,
        }
    }
}

impl View for Ledger {
    type V = LedgerView;

    closed spec fn view(&self) -> LedgerView {
        LedgerView {
            cash: self.cash.0 as int,
            peak: self.running_peak as int,
            marks: self.marks@,
            greeks: self.greeks@,
            slippages: self.slippages@,
            fee_entries: self.fee_entries@,
            prior_equity: self.prior_equity as int,
            spread_capture: self.spread_capture.0 as int,
            fees: self.fees.0 as int,
            step_pnl: self.step_pnl.0 as int,
            position_marks: self.position_marks@,
            attribution_marks: self.attribution_marks@,
        }
    }
}

/// What a fill does to cash: a sale credits, a purchase debits, and the fee is
/// paid either way.
pub open spec fn cash_flow(fill: Fill, multiplier: int) -> int {
    -sign_of(fill.side) * (fill.price.0 * fill.quantity.n() * multiplier) - fill.fees.0
}

/// The ledger after a fill.
pub open spec fn after_fill(ledger: LedgerView, fill: Fill, multiplier: int) -> LedgerView {
    LedgerView {
        cash: ledger.cash + cash_flow(fill, multiplier),
        slippages: ledger.slippages.push(fill.slippage),
        fee_entries: ledger.fee_entries.push(fill.fees),
        ..ledger
    }
}

/// Whether a fill's cash flow and the cash behind it stay in range.
pub open spec fn fill_fits(ledger: LedgerView, fill: Fill, multiplier: int) -> bool {
    fits_i64(cash_flow(fill, multiplier)) && fits_i64(ledger.cash + cash_flow(fill, multiplier))
}

/// The mark of a leg: the snapshot's mid where the contract is quoted, else
/// its last known mid, else the leg's entry premium.
pub open spec fn mark_of(
    marks: Map<KeyView, PriceCents>,
    snapshot: ChainSnapshot,
    leg: OpenPosition,
) -> PriceCents {
    if snapshot.quotes@.dom().contains(leg.contract@) {
        snapshot.quotes@[leg.contract@].mid
    } else if marks.dom().contains(leg.contract@) {
        marks[leg.contract@]
    } else {
        leg.entry_premium
    }
}

/// The last known sensitivities of a contract.
pub open spec fn known_greeks(
    greeks: Map<KeyView, UnitGreeks>,
    contract: ContractKey,
) -> Option<UnitGreeks> {
    if greeks.dom().contains(contract@) {
        Some(greeks[contract@])
    } else {
        None
    }
}

/// A leg as it is marked at a snapshot.
pub open spec fn marked_leg(
    ledger: LedgerView,
    snapshot: ChainSnapshot,
    leg: OpenPosition,
) -> PositionMark {
    PositionMark {
        position_id: leg.position_id,
        contract: leg.contract,
        side: leg.side,
        quantity: leg.quantity,
        contract_multiplier: snapshot.spec.contract_multiplier,
        mark: mark_of(ledger.marks, snapshot, leg),
        stale_mark: !snapshot.quotes@.dom().contains(leg.contract@),
        prior_greeks: known_greeks(ledger.greeks, leg.contract),
    }
}

/// A leg as it was held at the beginning of a step: at its last known mark,
/// or at its entry premium where it has none.
pub open spec fn held_leg(ledger: LedgerView, multiplier: u32, leg: OpenPosition) -> PositionMark {
    PositionMark {
        position_id: leg.position_id,
        contract: leg.contract,
        side: leg.side,
        quantity: leg.quantity,
        contract_multiplier: multiplier,
        mark: if ledger.marks.dom().contains(leg.contract@) {
            ledger.marks[leg.contract@]
        } else {
            leg.entry_premium
        },
        stale_mark: !ledger.marks.dom().contains(leg.contract@),
        prior_greeks: known_greeks(ledger.greeks, leg.contract),
    }
}

/// The size of a marked leg: mark times contracts times multiplier.
pub open spec fn mark_size(m: PositionMark) -> int {
    m.mark.0 * m.quantity.n() * m.contract_multiplier
}

/// The value of a marked leg: an asset where bought, a liability where sold.
pub open spec fn mark_value(m: PositionMark) -> int {
    sign_of(m.side) * mark_size(m)
}

/// The value of some marked legs.
pub open spec fn marks_value(marks: Seq<PositionMark>) -> int
    decreases marks.len(),
{
    if marks.len() == 0 {
        0
    } else {
        marks_value(marks.drop_last()) + mark_value(marks.last())
    }
}

/// Whether `n` is an `i128`.
pub open spec fn fits_i128(n: int) -> bool {
    i128::MIN <= n <= i128::MAX
}

/// Whether the legs can be valued one by one without leaving `i128`.
pub open spec fn marks_fit(marks: Seq<PositionMark>) -> bool {
    &&& forall|k: int| 0 <= k < marks.len() ==> fits_i128(mark_size(#[trigger] marks[k]))
    &&& forall|k: int| 0 <= k <= marks.len() ==> fits_i128(#[trigger] marks_value(marks.take(k)))
}

/// The open legs, marked at a snapshot.
pub open spec fn marked_legs(
    ledger: LedgerView,
    snapshot: ChainSnapshot,
    open: Seq<OpenPosition>,
) -> Seq<PositionMark> {
    Seq::new(open.len(), |i: int| marked_leg(ledger, snapshot, open[i]))
}

/// The known mids after the legs were marked: the quoted ones are new.
pub open spec fn refreshed_marks(
    marks: Map<KeyView, PriceCents>,
    snapshot: ChainSnapshot,
    open: Seq<OpenPosition>,
) -> Map<KeyView, PriceCents>
    decreases open.len(),
{
    if open.len() == 0 {
        marks
    } else {
        let before = refreshed_marks(marks, snapshot, open.drop_last());
        let k = open.last().contract@;
        if snapshot.quotes@.dom().contains(k) {
            before.insert(k, snapshot.quotes@[k].mid)
        } else {
            before
        }
    }
}

/// The known sensitivities after the legs were marked: the quoted ones are
/// new.
pub open spec fn refreshed_greeks(
    greeks: Map<KeyView, UnitGreeks>,
    snapshot: ChainSnapshot,
    open: Seq<OpenPosition>,
) -> Map<KeyView, UnitGreeks>
    decreases open.len(),
{
    if open.len() == 0 {
        greeks
    } else {
        let before = refreshed_greeks(greeks, snapshot, open.drop_last());
        let k = open.last().contract@;
        if snapshot.quotes@.dom().contains(k) {
            before.insert(k, greeks_of(snapshot.quotes@[k]))
        } else {
            before
        }
    }
}

/// The larger of two numbers.
pub open spec fn larger(a: int, b: int) -> int {
    if a > b {
        a
    } else {
        b
    }
}

/// Whether a step can be settled: all its sums stay in range.
pub open spec fn settle_fits(
    ledger: LedgerView,
    open: Seq<OpenPosition>,
    snapshot: ChainSnapshot,
) -> bool {
    let marks = marked_legs(ledger, snapshot, open);
    let equity = ledger.cash + marks_value(marks);
    &&& marks_fit(marks)
    &&& fits_i64(marks_value(marks))
    &&& fits_i64(equity)
    &&& sums_fit(ledger.slippages)
    &&& fits_i64(-sum_cents(ledger.slippages))
    &&& sums_fit(ledger.fee_entries)
    &&& fits_i64(equity - ledger.prior_equity)
}

/// The ledger after a step was settled.
pub open spec fn after_settle(
    ledger: LedgerView,
    open: Seq<OpenPosition>,
    snapshot: ChainSnapshot,
) -> LedgerView {
    let marks = marked_legs(ledger, snapshot, open);
    let equity = ledger.cash + marks_value(marks);
    LedgerView {
        cash: ledger.cash,
        peak: larger(equity, ledger.peak),
        marks: refreshed_marks(ledger.marks, snapshot, open),
        greeks: refreshed_greeks(ledger.greeks, snapshot, open),
        slippages: Seq::empty(),
        fee_entries: Seq::empty(),
        prior_equity: equity,
        spread_capture: -sum_cents(ledger.slippages),
        fees: sum_cents(ledger.fee_entries),
        step_pnl: equity - ledger.prior_equity,
        position_marks: marks,
        attribution_marks: ledger.attribution_marks,
    }
}

/// The drawdown of an equity against a peak: nothing where the peak is not
/// positive.
pub open spec fn drawdown_of(equity: int, peak: int) -> Drawdown {
    Drawdown {
        below_peak: if peak <= 0 {
            0
        } else {
            (equity - peak) as i128
        },
        peak: peak as i64,
    }
}

/// The equity point of a settled step.
pub open spec fn settled_point(
    ledger: LedgerView,
    step: StepIndex,
    ts: SimTime,
    open: Seq<OpenPosition>,
    snapshot: ChainSnapshot,
) -> EquityPoint {
    let value = marks_value(marked_legs(ledger, snapshot, open));
    let equity = ledger.cash + value;
    EquityPoint {
        step: step.0,
        ts_ns: ts.0,
        cash_cents: ledger.cash as i64,
        position_value_cents: value as i64,
        equity_cents: equity as i64,
        drawdown: drawdown_of(equity, larger(equity, ledger.peak)),
    }
}

/// `price * quantity * multiplier`, where an `i128` can hold it.
pub(crate) fn scaled(price: u64, quantity: u32, multiplier: u32) -> (r: Option<i128>)
    ensures
        r == (if price * quantity * multiplier <= i128::MAX {
            Some((price * quantity * multiplier) as i128)
        } else {
            None
        }),
        price * quantity * multiplier >= 0,
{
    assert(0 <= price * quantity <= 0xffff_ffff_ffff_ffff * 0xffff_ffff) by (nonlinear_arith)
        requires
            0 <= price <= 0xffff_ffff_ffff_ffff,
            0 <= quantity <= 0xffff_ffff,
    ;
    let notional: u128 = price as u128 * quantity as u128;
    assert(0 <= notional * multiplier <= 0xffff_ffff_ffff_ffff * 0xffff_ffff * 0xffff_ffff)
        by (nonlinear_arith)
        requires
            0 <= notional <= 0xffff_ffff_ffff_ffff * 0xffff_ffff,
            0 <= multiplier <= 0xffff_ffff,
    ;
    let product: u128 = notional * multiplier as u128;
    if product <= 0x7fff_ffff_ffff_ffff_ffff_ffff_ffff_ffff {
        Some(product as i128)
    } else {
        None
    }
}

impl Ledger {
    /// A ledger that holds the initial capital and nothing else.
    pub fn new(initial_capital: Cents) -> (l: Self)
        ensures
            l@ == (LedgerView {
                cash: initial_capital.0 as int,
                peak: initial_capital.0 as int,
                marks: Map::empty(),
                greeks: Map::empty(),
                slippages: Seq::empty(),
                fee_entries: Seq::empty(),
                prior_equity: initial_capital.0 as int,
                spread_capture: 0,
                fees: 0,
                step_pnl: 0,
                position_marks: Seq::empty(),
                attribution_marks: Seq::empty(),
            }),
    {
        Ledger {
            cash: initial_capital,
            running_peak: initial_capital.0,
            marks: ContractMap::new(),
            greeks: ContractMap::new(),
            slippages: Vec::new(),
            fee_entries: Vec::new(),
            prior_equity: initial_capital.0,
            spread_capture: Cents(0),
            fees: Cents(0),
            step_pnl: Cents(0),
            position_marks: Vec::new(),
            attribution_marks: Vec::new(),
        }
    }

    /// The cash balance.
    pub fn cash(&self) -> (c: Cents)
        ensures
            c.0 == self@.cash,
    {
        self.cash
    }

    /// The last known mids.
    pub fn marks(&self) -> (m: &ContractMap<PriceCents>)
        ensures
            m@ == self@.marks,
    {
        &self.marks
    }

    /// The legs held at the end of the last settled step.
    pub fn position_marks(&self) -> (m: &Vec<PositionMark>)
        ensures
            m@ == self@.position_marks,
    {
        &self.position_marks
    }

    /// The legs held at the beginning of the step.
    pub fn attribution_marks(&self) -> (m: &Vec<PositionMark>)
        ensures
            m@ == self@.attribution_marks,
    {
        &self.attribution_marks
    }

    /// The spread captured by the last settled step's fills.
    pub fn spread_capture(&self) -> (c: Cents)
        ensures
            c.0 == self@.spread_capture,
    {
        self.spread_capture
    }

    /// The fees of the last settled step's fills.
    pub fn fees(&self) -> (c: Cents)
        ensures
            c.0 == self@.fees,
    {
        self.fees
    }

    /// The change of equity over the last settled step.
    pub fn step_pnl(&self) -> (c: Cents)
        ensures
            c.0 == self@.step_pnl,
    {
        self.step_pnl
    }

    /// Apply one fill's cash flow. A refused fill changes nothing.
    pub fn apply_fill(&mut self, fill: &Fill, contract_multiplier: u32) -> (r: Result<
        (),
        BacktestError,
    >)
        ensures
            match r {
                Ok(_) => fill_fits(old(self)@, *fill, contract_multiplier as int) && final(self)@
                    == after_fill(old(self)@, *fill, contract_multiplier as int),
                Err(e) => !fill_fits(old(self)@, *fill, contract_multiplier as int) && final(self)@
                    == old(self)@ && e.kind() == ErrorKind::ArithmeticOverflow,
            },
    {
        let ghost gross = fill.price.0 * fill.quantity.n() * contract_multiplier;
        let gross: i128 = match scaled(fill.price.0, fill.quantity.value(), contract_multiplier) {
            Some(gross) => gross,
            None => {
                assert(sign_of(fill.side) * gross == gross || sign_of(fill.side) * gross == -gross);
                return Err(BacktestError::ArithmeticOverflow);
            },
        };
        let flow: i128 = match fill.side {
            Side::Long => -gross,
            Side::Short => gross,
        };
        let net: i128 = match flow.checked_sub(fill.fees.0 as i128) {
            Some(net) => net,
            None => {
                return Err(BacktestError::ArithmeticOverflow);
            },
        };
        if net < i64::MIN as i128 || net > i64::MAX as i128 {
            return Err(BacktestError::ArithmeticOverflow);
        }
        let cash = match self.cash.checked_add(Cents(net as i64)) {
            Ok(cash) => cash,
            Err(e) => {
                return Err(e);
            },
        };
        self.cash = cash;
        self.slippages.push(fill.slippage);
        self.fee_entries.push(fill.fees);
        Ok(())
    }

    /// The sensitivities last known of a contract.
    fn greeks_for(&self, contract: &ContractKey) -> (g: Option<UnitGreeks>)
        ensures
            g == known_greeks(self@.greeks, *contract),
    {
        match self.greeks.get(contract) {
            Some(g) => Some(*g),
            None => None,
        }
    }

    /// The mark of a leg at a snapshot.
    fn resolve_mark(&self, leg: &OpenPosition, snapshot: &ChainSnapshot) -> (m: PriceCents)
        ensures
            m == mark_of(self@.marks, *snapshot, *leg),
    {
        match snapshot.quotes.get(&leg.contract) {
            Some(quote) => quote.mid,
            None => match self.marks.get(&leg.contract) {
                Some(mark) => *mark,
                None => leg.entry_premium,
            },
        }
    }

    /// Take down the legs held at the beginning of a step, before its
    /// snapshot is marked.
    pub fn collect_attribution_marks(&mut self, begin: &[OpenPosition], contract_multiplier: u32)
        ensures
            final(self)@ == (LedgerView {
                attribution_marks: Seq::new(
                    begin@.len(),
                    |i: int| held_leg(old(self)@, contract_multiplier, begin@[i]),
                ),
                ..old(self)@
            }),
    {
        let mut held: Vec<PositionMark> = Vec::new();
        let mut i: usize = 0;
        while i < begin.len()
            invariant
                i <= begin.len(),
                held@.len() == i,
                forall|k: int|
                    0 <= k < i ==> #[trigger] held@[k] == held_leg(
                        self@,
                        contract_multiplier,
                        begin@[k],
                    ),
            decreases begin.len() - i,
        {
            let leg = &begin[i];
            let (mark, stale_mark) = match self.marks.get(&leg.contract) {
                Some(mark) => (*mark, false),
                None => (leg.entry_premium, true),
            };
            held.push(
                PositionMark {
                    position_id: leg.position_id,
                    contract: leg.contract.clone(),
                    side: leg.side,
                    quantity: leg.quantity,
                    contract_multiplier,
                    mark,
                    stale_mark,
                    prior_greeks: self.greeks_for(&leg.contract),
                },
            );
            i = i + 1;
        }
        assert(held@ =~= Seq::new(
            begin@.len(),
            |i: int| held_leg(self@, contract_multiplier, begin@[i]),
        ));
        self.attribution_marks = held;
    }
}

impl Ledger {
    /// Mark the open legs, in order.
    fn mark_legs(&self, open: &[OpenPosition], snapshot: &ChainSnapshot) -> (marks: Vec<
        PositionMark,
    >)
        ensures
            marks@ == marked_legs(self@, *snapshot, open@),
    {
        let mut marks: Vec<PositionMark> = Vec::new();
        let mut i: usize = 0;
        while i < open.len()
            invariant
                i <= open.len(),
                marks@.len() == i,
                forall|k: int|
                    0 <= k < i ==> #[trigger] marks@[k] == marked_leg(self@, *snapshot, open@[k]),
            decreases open.len() - i,
        {
            let leg = &open[i];
            let quoted = snapshot.quotes.get(&leg.contract).is_some();
            marks.push(
                PositionMark {
                    position_id: leg.position_id,
                    contract: leg.contract.clone(),
                    side: leg.side,
                    quantity: leg.quantity,
                    contract_multiplier: snapshot.spec.contract_multiplier,
                    mark: self.resolve_mark(leg, snapshot),
                    stale_mark: !quoted,
                    prior_greeks: self.greeks_for(&leg.contract),
                },
            );
            i = i + 1;
        }
        assert(marks@ =~= marked_legs(self@, *snapshot, open@));
        marks
    }

    /// Refresh the known mids and sensitivities of the quoted legs.
    fn refresh(&mut self, open: &[OpenPosition], snapshot: &ChainSnapshot)
        ensures
            final(self)@ == (LedgerView {
                marks: refreshed_marks(old(self)@.marks, *snapshot, open@),
                greeks: refreshed_greeks(old(self)@.greeks, *snapshot, open@),
                ..old(self)@
            }),
    {
        let ghost before = self@;
        let mut i: usize = 0;
        assert(open@.take(0) =~= Seq::<OpenPosition>::empty());
        while i < open.len()
            invariant
                i <= open.len(),
                self@ == (LedgerView {
                    marks: refreshed_marks(before.marks, *snapshot, open@.take(i as int)),
                    greeks: refreshed_greeks(before.greeks, *snapshot, open@.take(i as int)),
                    ..before
                }),
            decreases open.len() - i,
        {
            let leg = &open[i];
            let ghost next = open@.take(i + 1);
            assert(next.drop_last() =~= open@.take(i as int));
            assert(next.last() == *leg);
            match snapshot.quotes.get(&leg.contract) {
                Some(quote) => {
                    self.marks.insert(leg.contract.clone(), quote.mid);
                    self.greeks.insert(
                        leg.contract.clone(),
                        UnitGreeks {
                            delta: quote.delta,
                            gamma: quote.gamma,
                            theta: quote.theta,
                            vega: quote.vega,
                            implied_volatility: quote.implied_volatility,
                        },
                    );
                },
                None => {},
            }
            i = i + 1;
        }
        assert(open@.take(open@.len() as int) =~= open@);
    }

    /// `(equity - peak) / peak`, as an exact ratio.
    fn drawdown(&self, equity_cents: i64, peak: i64) -> (d: Drawdown)
        ensures
            d == drawdown_of(equity_cents as int, peak as int),
    {
        if peak <= 0 {
            return Drawdown { below_peak: 0, peak };
        }
        Drawdown { below_peak: equity_cents as i128 - peak as i128, peak }
    }

    /// Mark the open legs at the snapshot and emit the step's one equity
    /// point. A step that cannot be settled changes nothing.
    pub fn settle(
        &mut self,
        step: StepIndex,
        ts: SimTime,
        open: &[OpenPosition],
        snapshot: &ChainSnapshot,
    ) -> (r: Result<EquityPoint, BacktestError>)
        ensures
            match r {
                Ok(point) => settle_fits(old(self)@, open@, *snapshot) && final(self)@
                    == after_settle(old(self)@, open@, *snapshot) && point == settled_point(
                    old(self)@,
                    step,
                    ts,
                    open@,
                    *snapshot,
                ),
                Err(e) => !settle_fits(old(self)@, open@, *snapshot) && final(self)@ == old(self)@
                    && e.kind() == ErrorKind::ArithmeticOverflow,
            },
    {
        let marks = self.mark_legs(open, snapshot);
        let value: i64 = match value_of(&marks) {
            Ok(value) => value,
            Err(e) => {
                return Err(e);
            },
        };
        let equity: i64 = match self.cash.0.checked_add(value) {
            Some(equity) => equity,
            None => {
                return Err(BacktestError::ArithmeticOverflow);
            },
        };
        let spread_capture = match spread_capture_cents(self.slippages.as_slice()) {
            Ok(c) => c,
            Err(e) => {
                return Err(e);
            },
        };
        let fees = match total_cents(&self.fee_entries) {
            Ok(c) => c,
            Err(e) => {
                return Err(e);
            },
        };
        let step_pnl: i64 = match equity.checked_sub(self.prior_equity) {
            Some(pnl) => pnl,
            None => {
                return Err(BacktestError::ArithmeticOverflow);
            },
        };
        let peak: i64 = if equity > self.running_peak {
            equity
        } else {
            self.running_peak
        };
        let drawdown = self.drawdown(equity, peak);
        let point = EquityPoint::new(step.0, ts.0, self.cash.0, value, equity, drawdown);
        self.refresh(open, snapshot);
        self.running_peak = peak;
        self.slippages = Vec::new();
        self.fee_entries = Vec::new();
        self.prior_equity = equity;
        self.spread_capture = spread_capture;
        self.fees = fees;
        self.step_pnl = Cents(step_pnl);
        self.position_marks = marks;
        assert(self@.slippages =~= Seq::<Cents>::empty());
        assert(self@.fee_entries =~= Seq::<Cents>::empty());
        Ok(point)
    }
}

/// The value of some marked legs, or an overflow.
fn value_of(marks: &Vec<PositionMark>) -> (r: Result<i64, BacktestError>)
    ensures
        match r {
            Ok(value) => marks_fit(marks@) && value == marks_value(marks@),
            Err(e) => !(marks_fit(marks@) && fits_i64(marks_value(marks@))) && e.kind()
                == ErrorKind::ArithmeticOverflow,
        },
{
    let mut total: i128 = 0;
    let mut i: usize = 0;
    assert(marks@.take(0) =~= Seq::<PositionMark>::empty());
    while i < marks.len()
        invariant
            i <= marks.len(),
            total == marks_value(marks@.take(i as int)),
            forall|k: int| 0 <= k < i ==> fits_i128(mark_size(#[trigger] marks@[k])),
            forall|k: int| 0 <= k <= i ==> fits_i128(#[trigger] marks_value(marks@.take(k))),
        decreases marks.len() - i,
    {
        let m = &marks[i];
        let ghost next = marks@.take(i + 1);
        assert(next.drop_last() =~= marks@.take(i as int));
        assert(next.last() == *m);
        let size: i128 = match scaled(m.mark.0, m.quantity.value(), m.contract_multiplier) {
            Some(size) => size,
            None => {
                assert(!fits_i128(mark_size(marks@[i as int])));
                return Err(BacktestError::ArithmeticOverflow);
            },
        };
        let value: i128 = match m.side {
            Side::Long => size,
            Side::Short => -size,
        };
        assert(value == mark_value(*m));
        total = match total.checked_add(value) {
            Some(sum) => sum,
            None => {
                assert(!fits_i128(marks_value(marks@.take(i + 1))));
                return Err(BacktestError::ArithmeticOverflow);
            },
        };
        i = i + 1;
    }
    assert(marks@.take(marks@.len() as int) =~= marks@);
    if total < i64::MIN as i128 || total > i64::MAX as i128 {
        return Err(BacktestError::ArithmeticOverflow);
    }
    Ok(total as i64)
}

/// The sum of some amounts, or an overflow.
fn total_cents(amounts: &Vec<Cents>) -> (r: Result<Cents, BacktestError>)
    ensures
        match r {
            Ok(c) => sums_fit(amounts@) && c.0 == sum_cents(amounts@),
            Err(e) => !sums_fit(amounts@) && e.kind() == ErrorKind::ArithmeticOverflow,
        },
{
    let mut total: Cents = Cents(0);
    let mut i: usize = 0;
    assert(amounts@.take(0) =~= Seq::<Cents>::empty());
    while i < amounts.len()
        invariant
            i <= amounts.len(),
            total.0 == sum_cents(amounts@.take(i as int)),
            forall|k: int| 0 <= k <= i ==> fits_i64(#[trigger] sum_cents(amounts@.take(k))),
        decreases amounts.len() - i,
    {
        let ghost next = amounts@.take(i + 1);
        assert(next.drop_last() =~= amounts@.take(i as int));
        total = match total.checked_add(amounts[i]) {
            Ok(sum) => sum,
            Err(e) => {
                assert(!fits_i64(sum_cents(amounts@.take(i + 1))));
                return Err(e);
            },
        };
        i = i + 1;
    }
    assert(amounts@.take(amounts@.len() as int) =~= amounts@);
    Ok(total)
}

/// The valuation identity: at every settled step, equity is cash plus
/// position value.
pub proof fn law_equity_is_cash_plus_positions(
    ledger: LedgerView,
    step: StepIndex,
    ts: SimTime,
    open: Seq<OpenPosition>,
    snapshot: ChainSnapshot,
)
    requires
        fits_i64(ledger.cash),
        settle_fits(ledger, open, snapshot),
    ensures
        ({
            let p = settled_point(ledger, step, ts, open, snapshot);
            &&& p.equity_cents == p.cash_cents + p.position_value_cents
            &&& p.cash_cents == ledger.cash
            &&& p.equity_cents == after_settle(ledger, open, snapshot).prior_equity
        }),
{
}

/// Cash moves only through fills: settling a step leaves it as it was.
pub proof fn law_settling_moves_no_cash(
    ledger: LedgerView,
    open: Seq<OpenPosition>,
    snapshot: ChainSnapshot,
)
    ensures
        after_settle(ledger, open, snapshot).cash == ledger.cash,
{
}

/// The peak never falls, no settled equity stands above it, and so no
/// drawdown is above zero.
pub proof fn law_peak_bounds_equity(
    ledger: LedgerView,
    step: StepIndex,
    ts: SimTime,
    open: Seq<OpenPosition>,
    snapshot: ChainSnapshot,
)
    requires
        fits_i64(ledger.cash),
        fits_i64(ledger.peak),
        settle_fits(ledger, open, snapshot),
    ensures
        ({
            let p = settled_point(ledger, step, ts, open, snapshot);
            let after = after_settle(ledger, open, snapshot);
            &&& after.peak >= ledger.peak
            &&& after.peak >= p.equity_cents
            &&& p.drawdown.peak == after.peak
            &&& p.drawdown.below_peak <= 0
            &&& after.peak > 0 ==> p.drawdown.below_peak == p.equity_cents - after.peak
        }),
{
}

/// The changes of equity over the steps add up to what equity gained over
/// the initial capital.
pub proof fn law_step_pnl_chains(
    ledger: LedgerView,
    open1: Seq<OpenPosition>,
    snapshot1: ChainSnapshot,
    filled: LedgerView,
    open2: Seq<OpenPosition>,
    snapshot2: ChainSnapshot,
)
    requires
        filled.prior_equity == after_settle(ledger, open1, snapshot1).prior_equity,
    ensures
        after_settle(ledger, open1, snapshot1).step_pnl + after_settle(
            filled,
            open2,
            snapshot2,
        ).step_pnl == after_settle(filled, open2, snapshot2).prior_equity - ledger.prior_equity,
{
}

/// A contract that is not quoted keeps its mark: settling at a snapshot
/// without it leaves its known mid alone, and marks its legs with it.
pub proof fn law_absent_contract_carries_its_mark(
    ledger: LedgerView,
    open: Seq<OpenPosition>,
    snapshot: ChainSnapshot,
    leg: OpenPosition,
)
    requires
        !snapshot.quotes@.dom().contains(leg.contract@),
        ledger.marks.dom().contains(leg.contract@),
    ensures
        mark_of(ledger.marks, snapshot, leg) == ledger.marks[leg.contract@],
        refreshed_marks(ledger.marks, snapshot, open).dom().contains(leg.contract@),
        refreshed_marks(ledger.marks, snapshot, open)[leg.contract@]
            == ledger.marks[leg.contract@],
    decreases open.len(),
{
    if open.len() > 0 {
        law_absent_contract_carries_its_mark(ledger, open.drop_last(), snapshot, leg);
    }
}

/// A purchase pays its price and a sale brings it in, each less its fees.
pub proof fn law_purchases_pay_and_sales_bring_in(fill: Fill, multiplier: int)
    ensures
        fill.side is Long ==> cash_flow(fill, multiplier) + fill.fees.0 == -(fill.price.0
            * fill.quantity.n() * multiplier),
        fill.side is Short ==> cash_flow(fill, multiplier) + fill.fees.0 == fill.price.0
            * fill.quantity.n() * multiplier,
{
    let worth = fill.price.0 * fill.quantity.n() * multiplier;
    let s = sign_of(fill.side);
    assert(s == 1 ==> -s * worth == -worth) by (nonlinear_arith);
    assert(s == -1 ==> -s * worth == worth) by (nonlinear_arith);
}

/// A fill moves cash and is taken down for the step's figures; marks, peak and
/// equity stay until the step is settled.
pub proof fn law_fill_moves_cash_alone(ledger: LedgerView, fill: Fill, multiplier: int)
    ensures
        ({
            let after = after_fill(ledger, fill, multiplier);
            let worth = fill.price.0 * fill.quantity.n() * multiplier;
            &&& after.cash == ledger.cash - fill.fees.0 + if fill.side is Long {
                -worth
            } else {
                worth
            }
            &&& after.slippages == ledger.slippages + seq![fill.slippage]
            &&& after.fee_entries == ledger.fee_entries + seq![fill.fees]
            &&& after.peak == ledger.peak
            &&& after.marks == ledger.marks
            &&& after.greeks == ledger.greeks
            &&& after.prior_equity == ledger.prior_equity
            &&& after.spread_capture == ledger.spread_capture
            &&& after.fees == ledger.fees
            &&& after.step_pnl == ledger.step_pnl
            &&& after.position_marks == ledger.position_marks
            &&& after.attribution_marks == ledger.attribution_marks
        }),
{
    law_purchases_pay_and_sales_bring_in(fill, multiplier);
    let after = after_fill(ledger, fill, multiplier);
    assert(after.slippages =~= ledger.slippages + seq![fill.slippage]);
    assert(after.fee_entries =~= ledger.fee_entries + seq![fill.fees]);
}

/// Trading at the mark costs its fees and nothing else: what cash pays or
/// brings in is what the leg is then worth.
pub proof fn law_trading_at_the_mark_costs_its_fees(fill: Fill, m: PositionMark)
    requires
        m.side == fill.side,
        m.quantity == fill.quantity,
        m.mark == fill.price,
    ensures
        cash_flow(fill, m.contract_multiplier as int) + mark_value(m) == -fill.fees.0,
{
    let worth = mark_size(m);
    let s = sign_of(m.side);
    assert(-s * worth + s * worth == 0) by (nonlinear_arith);
}

/// A bought leg is worth its mark times its contracts times the multiplier, a
/// sold one as much less than nothing.
pub proof fn law_longs_are_assets_and_shorts_liabilities(m: PositionMark)
    ensures
        m.side is Long ==> mark_value(m) == m.mark.0 * m.quantity.n() * m.contract_multiplier,
        m.side is Short ==> mark_value(m) == -(m.mark.0 * m.quantity.n()
            * m.contract_multiplier),
{
    let worth = mark_size(m);
    let s = sign_of(m.side);
    assert(s == 1 ==> s * worth == worth) by (nonlinear_arith);
    assert(s == -1 ==> s * worth == -worth) by (nonlinear_arith);
}

/// What some legs are worth is the sum of what each is worth: no leg is worth
/// nothing, and legs taken together are worth what they are apart.
pub proof fn law_values_add_up(a: Seq<PositionMark>, b: Seq<PositionMark>, m: PositionMark)
    ensures
        marks_value(Seq::empty()) == 0,
        marks_value(seq![m]) == mark_value(m),
        marks_value(a + b) == marks_value(a) + marks_value(b),
    decreases b.len(),
{
    assert(seq![m].drop_last() =~= Seq::<PositionMark>::empty());
    assert(marks_value(seq![m].drop_last()) == 0);
    if b.len() == 0 {
        assert(a + b =~= a);
    } else {
        law_values_add_up(a, b.drop_last(), m);
        assert((a + b).drop_last() =~= a + b.drop_last());
        assert((a + b).last() == b.last());
    }
}

/// The mark of a leg is the quoted mid where there is one, whatever was known
/// before; without a quote it is the last known mid, and without that the entry
/// premium. It is stale exactly where there is no quote.
pub proof fn law_mark_prefers_the_quote(
    ledger: LedgerView,
    snapshot: ChainSnapshot,
    leg: OpenPosition,
)
    ensures
        ({
            let m = marked_leg(ledger, snapshot, leg);
            let quoted = snapshot.quotes@.dom().contains(leg.contract@);
            let known = ledger.marks.dom().contains(leg.contract@);
            &&& quoted ==> m.mark == snapshot.quotes@[leg.contract@].mid && !m.stale_mark
            &&& !quoted && known ==> m.mark == ledger.marks[leg.contract@] && m.stale_mark
            &&& !quoted && !known ==> m.mark == leg.entry_premium && m.stale_mark
            &&& m.mark == mark_of(ledger.marks, snapshot, leg)
            &&& m.position_id == leg.position_id
            &&& m.contract == leg.contract
            &&& m.side == leg.side
            &&& m.quantity == leg.quantity
            &&& m.contract_multiplier == snapshot.spec.contract_multiplier
            &&& ledger.greeks.dom().contains(leg.contract@) ==> m.prior_greeks == Some(
                ledger.greeks[leg.contract@],
            )
            &&& !ledger.greeks.dom().contains(leg.contract@) ==> m.prior_greeks is None
        }),
{
}

/// A leg held into a step is taken down at what was known of it before the
/// step: nothing of the step's own quotes shows.
pub proof fn law_held_leg_shows_the_step_before(
    ledger: LedgerView,
    multiplier: u32,
    leg: OpenPosition,
)
    ensures
        ({
            let m = held_leg(ledger, multiplier, leg);
            let known = ledger.marks.dom().contains(leg.contract@);
            &&& known ==> m.mark == ledger.marks[leg.contract@] && !m.stale_mark
            &&& !known ==> m.mark == leg.entry_premium && m.stale_mark
            &&& m.position_id == leg.position_id
            &&& m.contract == leg.contract
            &&& m.side == leg.side
            &&& m.quantity == leg.quantity
            &&& m.contract_multiplier == multiplier
            &&& ledger.greeks.dom().contains(leg.contract@) ==> m.prior_greeks == Some(
                ledger.greeks[leg.contract@],
            )
            &&& !ledger.greeks.dom().contains(leg.contract@) ==> m.prior_greeks is None
        }),
{
}

/// Settling a step takes down the quoted mid and sensitivities of every
/// contract held, and of no other.
pub proof fn law_settling_learns_what_is_quoted(
    ledger: LedgerView,
    open: Seq<OpenPosition>,
    snapshot: ChainSnapshot,
    key: KeyView,
)
    ensures
        ({
            let after = after_settle(ledger, open, snapshot);
            let held = exists|i: int| 0 <= i < open.len() && (#[trigger] open[i]).contract@ == key;
            let quote = snapshot.quotes@[key];
            if held && snapshot.quotes@.dom().contains(key) {
                &&& after.marks.dom().contains(key)
                &&& after.marks[key] == quote.mid
                &&& after.greeks.dom().contains(key)
                &&& after.greeks[key].delta == quote.delta
                &&& after.greeks[key].gamma == quote.gamma
                &&& after.greeks[key].theta == quote.theta
                &&& after.greeks[key].vega == quote.vega
                &&& after.greeks[key].implied_volatility == quote.implied_volatility
            } else {
                &&& after.marks.dom().contains(key) == ledger.marks.dom().contains(key)
                &&& after.marks[key] == ledger.marks[key]
                &&& after.greeks.dom().contains(key) == ledger.greeks.dom().contains(key)
                &&& after.greeks[key] == ledger.greeks[key]
            }
        }),
    decreases open.len(),
{
    if open.len() > 0 {
        let front = open.drop_last();
        law_settling_learns_what_is_quoted(ledger, front, snapshot, key);
        assert(open.last() == open[open.len() - 1]);
        if exists|i: int| 0 <= i < front.len() && (#[trigger] front[i]).contract@ == key {
            let i = choose|i: int| 0 <= i < front.len() && (#[trigger] front[i]).contract@ == key;
            assert(open[i] == front[i]);
        }
        if exists|i: int| 0 <= i < open.len() && (#[trigger] open[i]).contract@ == key {
            let i = choose|i: int| 0 <= i < open.len() && (#[trigger] open[i]).contract@ == key;
            if i < front.len() {
                assert(front[i] == open[i]);
            }
        }
    }
}

/// A settled step reports its own fills and starts the next with none: the
/// spread captured is what slippage did not cost, the fees are those paid, the
/// profit is the change of equity, and the legs are those held, as marked.
pub proof fn law_settled_step_reports_its_own(
    ledger: LedgerView,
    open: Seq<OpenPosition>,
    snapshot: ChainSnapshot,
    i: int,
)
    requires
        0 <= i < open.len(),
    ensures
        ({
            let after = after_settle(ledger, open, snapshot);
            let equity = ledger.cash + marks_value(after.position_marks);
            &&& after.slippages.len() == 0
            &&& after.fee_entries.len() == 0
            &&& after.spread_capture + sum_cents(ledger.slippages) == 0
            &&& after.fees == sum_cents(ledger.fee_entries)
            &&& after.prior_equity == equity
            &&& after.step_pnl == equity - ledger.prior_equity
            &&& after.peak == equity || after.peak == ledger.peak
            &&& after.peak >= equity && after.peak >= ledger.peak
            &&& after.position_marks.len() == open.len()
            &&& after.position_marks[i] == marked_leg(ledger, snapshot, open[i])
            &&& after.attribution_marks == ledger.attribution_marks
        }),
{
}

/// A point is of its step and time, and its drawdown is nothing as long as
/// equity was never above zero.
pub proof fn law_point_is_of_its_step(
    ledger: LedgerView,
    step: StepIndex,
    ts: SimTime,
    open: Seq<OpenPosition>,
    snapshot: ChainSnapshot,
)
    requires
        fits_i64(ledger.cash),
        fits_i64(ledger.peak),
        settle_fits(ledger, open, snapshot),
    ensures
        ({
            let p = settled_point(ledger, step, ts, open, snapshot);
            &&& p.step == step.0
            &&& p.ts_ns == ts.0
            &&& p.position_value_cents == marks_value(marked_legs(ledger, snapshot, open))
            &&& p.drawdown.peak <= 0 ==> p.drawdown.below_peak == 0
            &&& p.equity_cents > ledger.peak ==> p.drawdown.below_peak == 0
            &&& p.drawdown.peak > 0 ==> p.drawdown.peak + p.drawdown.below_peak == p.equity_cents
        }),
{
}

/// Cash may fall below zero: a fill is refused only where what it moves, or
/// the cash behind it, does not fit sixty-four bits.
pub proof fn law_fill_is_refused_on_overflow_alone(
    ledger: LedgerView,
    fill: Fill,
    multiplier: int,
)
    ensures
        ({
            let worth = fill.price.0 * fill.quantity.n() * multiplier;
            let flow = if fill.side is Long {
                -worth - fill.fees.0
            } else {
                worth - fill.fees.0
            };
            fill_fits(ledger, fill, multiplier) <==> {
                &&& -0x8000_0000_0000_0000 <= flow < 0x8000_0000_0000_0000
                &&& -0x8000_0000_0000_0000 <= ledger.cash + flow < 0x8000_0000_0000_0000
            }
        }),
{
    law_purchases_pay_and_sales_bring_in(fill, multiplier);
}

/// A ledger without legs and without fills settles, whatever its cash.
pub proof fn law_idle_ledger_settles(ledger: LedgerView, snapshot: ChainSnapshot)
    requires
        fits_i64(ledger.cash),
        fits_i64(ledger.cash - ledger.prior_equity),
        ledger.slippages.len() == 0,
        ledger.fee_entries.len() == 0,
    ensures
        settle_fits(ledger, Seq::empty(), snapshot),
        after_settle(ledger, Seq::empty(), snapshot).prior_equity == ledger.cash,
        after_settle(ledger, Seq::empty(), snapshot).marks == ledger.marks,
{
    let none = marked_legs(ledger, snapshot, Seq::empty());
    assert(none =~= Seq::<PositionMark>::empty());
    assert forall|k: int| 0 <= k <= none.len() implies fits_i128(
        #[trigger] marks_value(none.take(k)),
    ) by {
        assert(none.take(k) =~= none);
    }
    assert forall|k: int| 0 <= k <= ledger.slippages.len() implies fits_i64(
        #[trigger] sum_cents(ledger.slippages.take(k)),
    ) by {
        assert(ledger.slippages.take(k).len() == 0);
    }
    assert forall|k: int| 0 <= k <= ledger.fee_entries.len() implies fits_i64(
        #[trigger] sum_cents(ledger.fee_entries.take(k)),
    ) by {
        assert(ledger.fee_entries.take(k).len() == 0);
    }
}

} // verus!
