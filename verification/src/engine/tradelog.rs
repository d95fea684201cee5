//! The trade log: one record per realised close.

use crate::domain::money::fits_i64;
use crate::domain::{Cents, ContractKey, PositionId, PriceCents, Quantity, Side, TradeId};
use crate::engine::exit::ExitReason;
use crate::error::{BacktestError, ErrorKind};
use crate::text::unsigned_text;
use std::collections::BTreeMap;
use vstd::prelude::*;
use vstd::string::*;

verus! {

/// One realised close of a leg, in part or whole.
#[derive(Debug, PartialEq)]
pub struct ClosedTrade {
    /// The trade the leg belonged to.
    pub trade_id: TradeId,
    /// The leg.
    pub position_id: PositionId,
    /// Its contract.
    pub contract: ContractKey,
    /// The side the leg was opened on.
    pub side: Side,
    /// How many contracts were closed.
    pub quantity: Quantity,
    /// How many units one contract stands for.
    pub contract_multiplier: u32,
    /// The entry premium per contract.
    pub entry_premium: PriceCents,
    /// The exit price per contract.
    pub exit_price: PriceCents,
    /// The fees of the close.
    pub close_fees: Cents,
    /// The signed slippage of the close.
    pub close_slippage: Cents,
    /// The realised profit or loss, net of the fees of the close.
    pub realized_pnl: Cents,
    /// When the leg was opened (nanoseconds since the Unix epoch).
    pub entry_ts: i64,
    /// When it was closed (nanoseconds since the Unix epoch).
    pub exit_ts: i64,
    /// Why.
    pub exit_reason: ExitReason,
}

impl Clone for ClosedTrade {
    fn clone(&self) -> (r: Self)
        ensures
            r == *self,
    {
        ClosedTrade {
            trade_id: self.trade_id,
            position_id: self.position_id,
            contract: self.contract.clone(),
            side: self.side,
            quantity: self.quantity,
            contract_multiplier: self.contract_multiplier,
            entry_premium: self.entry_premium,
            exit_price: self.exit_price,
            close_fees: self.close_fees,
            close_slippage: self.close_slippage,
            realized_pnl: self.realized_pnl,
            entry_ts: self.entry_ts,
            exit_ts: self.exit_ts,
            exit_reason: self.exit_reason.clone(),
        }
    }
}

/// What the log keeps of a leg that is still open.
#[derive(Debug)]
pub struct OpenLeg {
    /// The trade the leg belongs to.
    pub trade_id: TradeId,
    /// Its contract.
    pub contract: ContractKey,
    /// The side it was opened on.
    pub side: Side,
    /// The entry premium per contract.
    pub entry_premium: PriceCents,
    /// When it was opened.
    pub entry_ts: i64,
    /// How many contracts are still open.
    pub remaining: u32,
}

/// What a trade log holds.
pub struct TradeLogView {
    /// The legs still open, by position.
    pub open: Map<u64, OpenLeg>,
    /// The realised closes, in the order they came.
    pub closed: Seq<ClosedTrade>,
}

/// Builds the trade log one open and one close at a time.
#[derive(Debug)]
pub struct TradeLogCollector {
    /// The legs still open, by position.
    pub open: BTreeMap<u64, OpenLeg>,
    /// The realised closes, in the order they came.
    pub closed: Vec<ClosedTrade>,
}

impl View for TradeLogCollector {
    type V = TradeLogView;

    open spec fn view(&self) -> TradeLogView {
        TradeLogView { open: self.open@, closed: self.closed@ }
    }
}

/// What closing a leg earned: the premium round trip over all contracts, net
/// of the fees of the close. A long earns what the price rose, a short what it
/// fell.
pub open spec fn realized_pnl_of(
    side: Side,
    entry: int,
    exit: int,
    quantity: int,
    multiplier: int,
    fees: int,
) -> int {
    match side {
        Side::Long => (exit - entry) * quantity * multiplier - fees,
        Side::Short => (entry - exit) * quantity * multiplier - fees,
    }
}

/// `difference * quantity * multiplier - fees` in cents, or an overflow.
fn scaled_difference(difference: i128, quantity: u32, multiplier: u32, fees: i64) -> (r: Result<
    Cents,
    BacktestError,
>)
    requires
        -0x1_0000_0000_0000_0000 < difference < 0x1_0000_0000_0000_0000,
    ensures
        match r {
            Ok(c) => c.0 == difference * quantity * multiplier - fees,
            Err(e) => !fits_i64(difference * quantity * multiplier - fees) && e.kind()
                == ErrorKind::ArithmeticOverflow,
        },
{
    assert(-0x1_0000_0000_0000_0000_0000_0000 < difference * quantity
        < 0x1_0000_0000_0000_0000_0000_0000) by (nonlinear_arith)
        requires
            -0x1_0000_0000_0000_0000 < difference < 0x1_0000_0000_0000_0000,
            0 <= quantity < 0x1_0000_0000,
    ;
    let sized: i128 = difference * quantity as i128;
    let gross: i128 = match sized.checked_mul(multiplier as i128) {
        Some(gross) => gross,
        None => {
            return Err(BacktestError::ArithmeticOverflow);
        },
    };
    let net: i128 = match gross.checked_sub(fees as i128) {
        Some(net) => net,
        None => {
            return Err(BacktestError::ArithmeticOverflow);
        },
    };
    if net < i64::MIN as i128 || net > i64::MAX as i128 {
        return Err(BacktestError::ArithmeticOverflow);
    }
    Ok(Cents(net as i64))
}

/// What closing a leg earned, or an overflow.
pub fn realized_pnl_cents(
    side: Side,
    entry_premium: PriceCents,
    exit_price: PriceCents,
    quantity: Quantity,
    contract_multiplier: u32,
    close_fees: Cents,
) -> (r: Result<Cents, BacktestError>)
    ensures
        match r {
            Ok(c) => c.0 == realized_pnl_of(
                side,
                entry_premium.0 as int,
                exit_price.0 as int,
                quantity.n(),
                contract_multiplier as int,
                close_fees.0 as int,
            ),
            Err(e) => !fits_i64(
                realized_pnl_of(
                    side,
                    entry_premium.0 as int,
                    exit_price.0 as int,
                    quantity.n(),
                    contract_multiplier as int,
                    close_fees.0 as int,
                ),
            ) && e.kind() == ErrorKind::ArithmeticOverflow,
        },
{
    let entry: i128 = entry_premium.0 as i128;
    let exit: i128 = exit_price.0 as i128;
    let difference: i128 = match side {
        Side::Long => exit - entry,
        Side::Short => entry - exit,
    };
    scaled_difference(difference, quantity.value(), contract_multiplier, close_fees.0)
}

/// The log after a leg was opened.
pub open spec fn log_opened(log: TradeLogView, position: u64, leg: OpenLeg) -> TradeLogView {
    TradeLogView { open: log.open.insert(position, leg), closed: log.closed }
}

/// The log after an open leg grew: the added contracts are open too, and the
/// entry premium is the new average.
pub open spec fn log_extended(
    log: TradeLogView,
    position: u64,
    added: int,
    entry: PriceCents,
) -> Result<TradeLogView, ErrorKind> {
    if !log.open.dom().contains(position) {
        Err(ErrorKind::Execution)
    } else if log.open[position].remaining + added > u32::MAX {
        Err(ErrorKind::ArithmeticOverflow)
    } else {
        Ok(
            TradeLogView {
                open: log.open.insert(
                    position,
                    OpenLeg {
                        entry_premium: entry,
                        remaining: (log.open[position].remaining + added) as u32,
                        ..log.open[position]
                    },
                ),
                closed: log.closed,
            },
        )
    }
}

/// What is known of a close when it is recorded.
pub struct CloseEvent {
    pub position: PositionId,
    pub exit_price: PriceCents,
    pub fees: Cents,
    pub slippage: Cents,
    pub exit_ts: i64,
    pub quantity: Quantity,
    pub multiplier: u32,
    pub reason: ExitReason,
}

/// What a close earned, given the leg it closes.
pub open spec fn close_pnl(leg: OpenLeg, close: CloseEvent) -> int {
    realized_pnl_of(
        leg.side,
        leg.entry_premium.0 as int,
        close.exit_price.0 as int,
        close.quantity.n(),
        close.multiplier as int,
        close.fees.0 as int,
    )
}

/// The record of a close, given the leg it closes.
pub open spec fn closed_trade(leg: OpenLeg, close: CloseEvent) -> ClosedTrade {
    ClosedTrade {
        trade_id: leg.trade_id,
        position_id: close.position,
        contract: leg.contract,
        side: leg.side,
        quantity: close.quantity,
        contract_multiplier: close.multiplier,
        entry_premium: leg.entry_premium,
        exit_price: close.exit_price,
        close_fees: close.fees,
        close_slippage: close.slippage,
        realized_pnl: Cents(close_pnl(leg, close) as i64),
        entry_ts: leg.entry_ts,
        exit_ts: close.exit_ts,
        exit_reason: close.reason,
    }
}

/// The log after a close: one record more, and a leg that is smaller, or gone
/// where nothing of it is left.
pub open spec fn log_closed(log: TradeLogView, close: CloseEvent) -> Result<
    TradeLogView,
    ErrorKind,
> {
    let position = close.position.0;
    if !log.open.dom().contains(position) {
        Err(ErrorKind::Execution)
    } else {
        let leg = log.open[position];
        if !fits_i64(close_pnl(leg, close)) {
            Err(ErrorKind::ArithmeticOverflow)
        } else {
            Ok(
                TradeLogView {
                    open: if close.quantity.n() >= leg.remaining {
                        log.open.remove(position)
                    } else {
                        log.open.insert(
                            position,
                            OpenLeg {
                                remaining: (leg.remaining - close.quantity.n()) as u32,
                                ..leg
                            },
                        )
                    },
                    closed: log.closed.push(closed_trade(leg, close)),
                },
            )
        }
    }
}

/// The refusal of an event on a leg that is not open.
fn not_open(what: &str, position_id: PositionId) -> (e: BacktestError)
    ensures
        e.kind() == ErrorKind::Execution,
{
    BacktestError::Execution(
        String::from_str(what).concat(" targets position ").concat(
            &unsigned_text(position_id.0 as u128),
        ).concat(" which is not open"),
    )
}

impl TradeLogCollector {
    /// An empty log with room for `open_capacity` closes.
    pub fn with_capacity(open_capacity: usize) -> (c: Self)
        ensures
            c@ == (TradeLogView { open: Map::empty(), closed: Seq::empty() }),
    {
        TradeLogCollector { open: BTreeMap::new(), closed: Vec::with_capacity(open_capacity) }
    }

    /// Make room for `expected_closes` closes.
    pub fn reserve(&mut self, expected_closes: usize)
        ensures
            final(self)@ == old(self)@,
    {
        let len: usize = self.closed.len();
        if expected_closes > len {
            self.closed.reserve(expected_closes - len);
        }
    }

    /// Record that a leg was opened.
    pub fn record_open(
        &mut self,
        position_id: PositionId,
        trade_id: TradeId,
        contract: ContractKey,
        side: Side,
        quantity: Quantity,
        entry_premium: PriceCents,
        entry_ts: i64,
    )
        ensures
            final(self)@ == log_opened(
                old(self)@,
                position_id.0,
                OpenLeg {
                    trade_id,
                    contract,
                    side,
                    entry_premium,
                    entry_ts,
                    remaining: quantity.n() as u32,
                },
            ),
    {
        self.open.insert(
            position_id.0,
            OpenLeg {
                trade_id,
                contract,
                side,
                entry_premium,
                entry_ts,
                remaining: quantity.value(),
            },
        );
    }

    /// Record that an open leg grew by `added` contracts to a new average
    /// entry premium. A refused event changes nothing.
    pub fn record_open_extend(
        &mut self,
        position_id: PositionId,
        added: Quantity,
        entry_premium: PriceCents,
    ) -> (r: Result<(), BacktestError>)
        ensures
            match r {
                Ok(_) => log_extended(old(self)@, position_id.0, added.n(), entry_premium) == Ok::<
                    TradeLogView,
                    ErrorKind,
                >(final(self)@),
                Err(e) => log_extended(old(self)@, position_id.0, added.n(), entry_premium) == Err::<
                    TradeLogView,
                    ErrorKind,
                >(e.kind()) && final(self)@ == old(self)@,
            },
    {
        let extended = match self.open.get(&position_id.0) {
            Some(leg) => match leg.remaining.checked_add(added.value()) {
                Some(remaining) => OpenLeg {
                    trade_id: leg.trade_id,
                    contract: leg.contract.clone(),
                    side: leg.side,
                    entry_premium,
                    entry_ts: leg.entry_ts,
                    remaining,
                },
                None => {
                    return Err(BacktestError::ArithmeticOverflow);
                },
            },
            None => {
                return Err(not_open("trade-log extension", position_id));
            },
        };
        self.open.insert(position_id.0, extended);
        Ok(())
    }

    /// Record a close. A refused close changes nothing.
    pub fn record_close(
        &mut self,
        position_id: PositionId,
        exit_price: PriceCents,
        close_fees: Cents,
        close_slippage: Cents,
        exit_ts: i64,
        quantity: Quantity,
        contract_multiplier: u32,
        exit_reason: ExitReason,
    ) -> (r: Result<(), BacktestError>)
        ensures
            ({
                let close = CloseEvent {
                    position: position_id,
                    exit_price,
                    fees: close_fees,
                    slippage: close_slippage,
                    exit_ts,
                    quantity,
                    multiplier: contract_multiplier,
                    reason: exit_reason,
                };
                match r {
                    Ok(_) => log_closed(old(self)@, close) == Ok::<TradeLogView, ErrorKind>(
                        final(self)@,
                    ),
                    Err(e) => log_closed(old(self)@, close) == Err::<TradeLogView, ErrorKind>(
                        e.kind(),
                    ) && final(self)@ == old(self)@,
                }
            }),
    {
        let (trade, reduced) = match self.open.get(&position_id.0) {
            Some(leg) => {
                let realized_pnl = match realized_pnl_cents(
                    leg.side,
                    leg.entry_premium,
                    exit_price,
                    quantity,
                    contract_multiplier,
                    close_fees,
                ) {
                    Ok(pnl) => pnl,
                    Err(e) => {
                        return Err(e);
                    },
                };
                let closed: u32 = quantity.value();
                let reduced: Option<OpenLeg> = if closed >= leg.remaining {
                    None
                } else {
                    Some(
                        OpenLeg {
                            trade_id: leg.trade_id,
                            contract: leg.contract.clone(),
                            side: leg.side,
                            entry_premium: leg.entry_premium,
                            entry_ts: leg.entry_ts,
                            remaining: leg.remaining - closed,
                        },
                    )
                };
                (
                    ClosedTrade {
                        trade_id: leg.trade_id,
                        position_id,
                        contract: leg.contract.clone(),
                        side: leg.side,
                        quantity,
                        contract_multiplier,
                        entry_premium: leg.entry_premium,
                        exit_price,
                        close_fees,
                        close_slippage,
                        realized_pnl,
                        entry_ts: leg.entry_ts,
                        exit_ts,
                        exit_reason,
                    },
                    reduced,
                )
            },
            None => {
                return Err(not_open("trade-log close", position_id));
            },
        };
        self.closed.push(trade);
        match reduced {
            Some(leg) => {
                self.open.insert(position_id.0, leg);
            },
            None => {
                self.open.remove(&position_id.0);
            },
        }
        Ok(())
    }

    /// The closes, in the order they came.
    pub fn into_log(self) -> (log: Vec<ClosedTrade>)
        ensures
            log@ == self@.closed,
    {
        self.closed
    }
}

/// A short earns what a long loses, fees aside.
pub proof fn law_pnl_is_symmetric(entry: int, exit: int, quantity: int, multiplier: int)
    ensures
        realized_pnl_of(Side::Long, entry, exit, quantity, multiplier, 0) == -realized_pnl_of(
            Side::Short,
            entry,
            exit,
            quantity,
            multiplier,
            0,
        ),
{
    assert((exit - entry) * quantity * multiplier == -((entry - exit) * quantity * multiplier))
        by (nonlinear_arith);
}

/// Closing a leg in two parts at one price earns what closing it at once
/// does.
pub proof fn law_partial_closes_add_up(
    side: Side,
    entry: int,
    exit: int,
    first: int,
    second: int,
    multiplier: int,
    fees1: int,
    fees2: int,
)
    ensures
        realized_pnl_of(side, entry, exit, first, multiplier, fees1) + realized_pnl_of(
            side,
            entry,
            exit,
            second,
            multiplier,
            fees2,
        ) == realized_pnl_of(side, entry, exit, first + second, multiplier, fees1 + fees2),
{
    let d = match side {
        Side::Long => exit - entry,
        Side::Short => entry - exit,
    };
    assert(d * first * multiplier + d * second * multiplier == d * (first + second) * multiplier)
        by (nonlinear_arith);
}

/// A close earns when the price moved the leg's way: a long when it is closed
/// above its entry, a short when below. Each cent of fees takes one cent off.
pub proof fn law_profit_follows_the_price(
    entry: int,
    exit: int,
    quantity: int,
    multiplier: int,
    fees: int,
)
    requires
        quantity > 0,
        multiplier > 0,
    ensures
        realized_pnl_of(Side::Long, entry, exit, quantity, multiplier, fees) + fees > 0 <==> exit
            > entry,
        realized_pnl_of(Side::Short, entry, exit, quantity, multiplier, fees) + fees > 0 <==> exit
            < entry,
        realized_pnl_of(Side::Long, entry, exit, quantity, multiplier, fees) + realized_pnl_of(
            Side::Short,
            entry,
            exit,
            quantity,
            multiplier,
            fees,
        ) == -2 * fees,
        realized_pnl_of(Side::Long, entry, entry + 1, quantity, multiplier, fees) == quantity
            * multiplier - fees,
{
    let d = exit - entry;
    let size = d * quantity * multiplier;
    assert((size > 0) == (d > 0) && (size < 0) == (d < 0)) by (nonlinear_arith)
        requires
            size == d * quantity * multiplier,
            quantity > 0,
            multiplier > 0,
    ;
    assert((entry - exit) * quantity * multiplier == -size) by (nonlinear_arith)
        requires
            size == (exit - entry) * quantity * multiplier,
    ;
    assert((entry + 1 - entry) * quantity * multiplier == quantity * multiplier)
        by (nonlinear_arith);
}

/// A recorded close is the last of the log and says of the leg what was known
/// of it and of the close what happened. What is left of the leg stays open as
/// it was; nothing of any other leg changes.
pub proof fn law_close_is_recorded_with_its_leg(log: TradeLogView, close: CloseEvent)
    ensures
        ({
            let position = close.position.0;
            let known = log.open.dom().contains(position);
            match log_closed(log, close) {
                Ok(after) => {
                    let leg = log.open[position];
                    let left = leg.remaining - close.quantity.n();
                    let trade = after.closed.last();
                    let rise = (close.exit_price.0 - leg.entry_premium.0) * close.quantity.n()
                        * close.multiplier;
                    &&& known
                    &&& after.closed.len() == log.closed.len() + 1
                    &&& after.closed.drop_last() == log.closed
                    &&& trade.position_id == close.position
                    &&& trade.trade_id == leg.trade_id
                    &&& trade.contract == leg.contract
                    &&& trade.side == leg.side
                    &&& trade.quantity == close.quantity
                    &&& trade.contract_multiplier == close.multiplier
                    &&& trade.entry_premium == leg.entry_premium
                    &&& trade.exit_price == close.exit_price
                    &&& trade.close_fees == close.fees
                    &&& trade.close_slippage == close.slippage
                    &&& trade.entry_ts == leg.entry_ts
                    &&& trade.exit_ts == close.exit_ts
                    &&& trade.exit_reason == close.reason
                    &&& trade.realized_pnl.0 == if leg.side is Long {
                        rise - close.fees.0
                    } else {
                        -rise - close.fees.0
                    }
                    &&& after.open.dom().contains(position) <==> left > 0
                    &&& left > 0 ==> {
                        let rest = after.open[position];
                        &&& rest.remaining == left
                        &&& rest.trade_id == leg.trade_id
                        &&& rest.contract == leg.contract
                        &&& rest.side == leg.side
                        &&& rest.entry_premium == leg.entry_premium
                        &&& rest.entry_ts == leg.entry_ts
                    }
                    &&& forall|other: u64|
                        other != position ==> {
                            &&& #[trigger] after.open.dom().contains(other)
                                == log.open.dom().contains(other)
                            &&& after.open.dom().contains(other) ==> after.open[other]
                                == log.open[other]
                        }
                },
                Err(kind) => if known {
                    let leg = log.open[position];
                    let rise = (close.exit_price.0 - leg.entry_premium.0) * close.quantity.n()
                        * close.multiplier;
                    let earned = if leg.side is Long {
                        rise - close.fees.0
                    } else {
                        -rise - close.fees.0
                    };
                    &&& kind == ErrorKind::ArithmeticOverflow
                    &&& earned < -0x8000_0000_0000_0000 || earned >= 0x8000_0000_0000_0000
                } else {
                    kind == ErrorKind::Execution
                },
            }
        }),
{
    let leg = log.open[close.position.0];
    let (a, b) = (leg.entry_premium.0 as int, close.exit_price.0 as int);
    let (q, m) = (close.quantity.n(), close.multiplier as int);
    assert((a - b) * q * m == -((b - a) * q * m)) by (nonlinear_arith);
    if log_closed(log, close) is Ok {
        let after = log_closed(log, close)->Ok_0;
        close.quantity.lemma_of();
        assert(after.closed.drop_last() =~= log.closed);
    }
}

/// An opened leg is open with all that was said of it. A leg that grew holds
/// the added contracts too, at the new average and otherwise as it was. No
/// close is recorded by either, and no other leg changes.
pub proof fn law_openings_are_kept(
    log: TradeLogView,
    position: u64,
    leg: OpenLeg,
    added: int,
    entry: PriceCents,
)
    requires
        added > 0,
    ensures
        ({
            let opened = log_opened(log, position, leg);
            &&& opened.open.dom().contains(position)
            &&& opened.open[position] == leg
            &&& opened.closed == log.closed
            &&& forall|other: u64|
                other != position ==> {
                    &&& #[trigger] opened.open.dom().contains(other) == log.open.dom().contains(
                        other,
                    )
                    &&& opened.open[other] == log.open[other]
                }
        }),
        match log_extended(log, position, added, entry) {
            Ok(after) => {
                let was = log.open[position];
                let is = after.open[position];
                &&& log.open.dom().contains(position)
                &&& after.open.dom() == log.open.dom()
                &&& is.remaining == was.remaining + added
                &&& is.entry_premium == entry
                &&& is.trade_id == was.trade_id
                &&& is.contract == was.contract
                &&& is.side == was.side
                &&& is.entry_ts == was.entry_ts
                &&& after.closed == log.closed
                &&& forall|other: u64|
                    other != position ==> #[trigger] after.open[other] == log.open[other]
            },
            Err(kind) => if log.open.dom().contains(position) {
                kind == ErrorKind::ArithmeticOverflow && log.open[position].remaining + added
                    > 0xffff_ffff
            } else {
                kind == ErrorKind::Execution
            },
        },
{
    if log_extended(log, position, added, entry) is Ok {
        let after = log_extended(log, position, added, entry)->Ok_0;
        assert(after.open.dom() =~= log.open.dom());
    }
}

} // verus!
