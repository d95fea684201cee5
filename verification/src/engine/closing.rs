//! Which legs are closed, and how.
//!
//! The exit policy is evaluated leg by leg. At the end of the tape whatever is
//! still open is closed, less what an earlier command or a resting order
//! already closes.

use crate::data::convert::{positive_from_price, NANOS_PER_DAY};
use crate::domain::contract::KeyView;
use crate::domain::decimal::{
    checked_div, lemma_parts_of, lemma_pow10_positive, lemma_scaled_sign, pow10, quotient_of,
    written, Decimal,
};
use crate::domain::execution::sign_convention::sign_of;
use crate::domain::expiration::ExpirationDate;
use crate::domain::money::fits_i64;
use crate::domain::positive::Positive;
use crate::domain::{
    ChainSnapshot, ContractKey, ContractMap, Fill, OpenPosition, OrderCommand, OrderIntent,
    PendingOrder, PositionAction, PositionId, PriceCents, Quantity, Side, SimTime, StepIndex,
    TimeInForce,
};
use crate::engine::exit_policy::{
    law_profit_and_loss_are_fractions_of_the_premium, policy_met, policy_triggered, ExitPolicy,
};
use crate::engine::ledger::{cash_flow, mark_of};
use crate::engine::strategy::Decision;
use crate::engine::tradelog::realized_pnl_of;
use crate::error::{kind_of, BacktestError, ErrorKind};
use vstd::prelude::*;
use vstd::string::*;

verus! {

/// The side that closes a leg opened on another.
pub open spec fn flipped(side: Side) -> Side {
    match side {
        Side::Long => Side::Short,
        Side::Short => Side::Long,
    }
}

/// The side that closes a leg opened on `side`.
pub fn flip_side(side: Side) -> (r: Side)
    ensures
        r == flipped(side),
{
    match side {
        Side::Long => Side::Short,
        Side::Short => Side::Long,
    }
}

/// The mid that a close is decided at: the quoted one, else the entry premium.
pub open spec fn decision_mid_of(snapshot: ChainSnapshot, leg: OpenPosition) -> PriceCents {
    match snapshot.mid_of(leg.contract) {
        Some(mid) => mid,
        None => leg.entry_premium,
    }
}

/// The order that closes some contracts of a leg.
pub open spec fn close_of(
    snapshot: ChainSnapshot,
    leg: OpenPosition,
    quantity: Quantity,
) -> OrderCommand {
    OrderCommand::Submit(
        OrderIntent {
            contract: leg.contract,
            action: PositionAction::Close(leg.position_id),
            side: flipped(leg.side),
            quantity,
            limit: None,
            tif: TimeInForce::Ioc,
            decision_mid: decision_mid_of(snapshot, leg),
        },
    )
}

/// The order that closes some contracts of a leg: on the opposite side, at the
/// market.
pub fn close_command_qty(snapshot: &ChainSnapshot, leg: &OpenPosition, quantity: Quantity) -> (cmd:
    OrderCommand)
    ensures
        cmd == close_of(*snapshot, *leg, quantity),
{
    let decision_mid = match snapshot.mid(&leg.contract) {
        Some(mid) => mid,
        None => leg.entry_premium,
    };
    OrderCommand::Submit(
        OrderIntent {
            contract: leg.contract.clone(),
            action: PositionAction::Close(leg.position_id),
            side: flip_side(leg.side),
            quantity,
            limit: None,
            tif: TimeInForce::Ioc,
            decision_mid,
        },
    )
}

/// The order that closes a leg altogether.
pub fn close_command(snapshot: &ChainSnapshot, leg: &OpenPosition) -> (cmd: OrderCommand)
    ensures
        cmd == close_of(*snapshot, *leg, leg.quantity),
{
    close_command_qty(snapshot, leg, leg.quantity)
}

/// The premium of a leg: the quoted mid, else the last known one, else the
/// entry premium.
pub fn current_premium(
    snapshot: &ChainSnapshot,
    marks: &ContractMap<PriceCents>,
    leg: &OpenPosition,
) -> (d: Decimal)
    ensures
        d == Decimal::of(mark_of(marks@, *snapshot, *leg).0 as int, 2),
        d.mant() == mark_of(marks@, *snapshot, *leg).0,
        d.places() == 2,
{
    let cents = match snapshot.mid(&leg.contract) {
        Some(mid) => mid,
        None => match marks.get(&leg.contract) {
            Some(mark) => *mark,
            None => leg.entry_premium,
        },
    };
    cents.to_decimal_dollars()
}

/// The days between two moments, as digits and places; none once the second
/// is past.
pub open spec fn days_between(from: int, to: int) -> Option<(int, int)> {
    if to <= from {
        Some((0, 0))
    } else {
        quotient_of((to - from, 0), (NANOS_PER_DAY as int, 0))
    }
}

/// Whether a number of days is what is left of a contract.
pub open spec fn is_days_left(days: Positive, contract: ContractKey, ts: SimTime) -> bool {
    &&& contract.expiration matches ExpirationDate::DateTime(t)
    &&& fits_i64(t.nanos_since_epoch())
    &&& days_between(ts.0 as int, t.nanos_since_epoch()) == Some(
        (days.dec().mant(), days.dec().places()),
    )
    &&& (days@ == 0) == (t.nanos_since_epoch() <= ts.0)
}

/// Why the days left of a contract cannot be told.
pub open spec fn days_left_error(contract: ContractKey, ts: SimTime) -> Option<ErrorKind> {
    match contract.expiration {
        ExpirationDate::Days(_) => Some(ErrorKind::Conversion),
        ExpirationDate::DateTime(t) => if !fits_i64(t.nanos_since_epoch()) {
            Some(ErrorKind::Conversion)
        } else if days_between(ts.0 as int, t.nanos_since_epoch()) is None {
            Some(ErrorKind::ArithmeticOverflow)
        } else {
            None
        },
    }
}

/// The days left of a contract, none once it has expired. A day has 86400
/// seconds.
pub fn days_to_expiry(contract: &ContractKey, ts: SimTime) -> (r: Result<Positive, BacktestError>)
    ensures
        match r {
            Ok(days) => is_days_left(days, *contract, ts) && days_left_error(*contract, ts) is None,
            Err(e) => days_left_error(*contract, ts) == Some(e.kind()),
        },
{
    let expiration_ns: i64 = match contract.expiration_ns() {
        Ok(ns) => ns,
        Err(e) => {
            return Err(e);
        },
    };
    let diff: i128 = expiration_ns as i128 - ts.0 as i128;
    if diff <= 0 {
        return Ok(Positive::zero());
    }
    let span = Decimal::from_i128_with_scale(diff, 0);
    let day = Decimal::from_i128_with_scale(NANOS_PER_DAY as i128, 0);
    proof {
        lemma_pow10_positive(28);
        lemma_scaled_sign(span.mant(), pow10(28));
        lemma_scaled_sign(day.mant(), pow10(28));
    }
    match checked_div(span, day) {
        None => Err(BacktestError::ArithmeticOverflow),
        Some(days) => match Positive::new_decimal(days) {
            Ok(days) => Ok(days),
            Err(_) => Err(
                BacktestError::Strategy(
                    String::from_str("days-to-expiry ").concat(&written(days)).concat(
                        " is not positive",
                    ),
                ),
            ),
        },
    }
}

/// The days left of a contract, where they can be told.
pub open spec fn days_left_of(contract: ContractKey, ts: SimTime) -> Positive {
    match contract.expiration {
        ExpirationDate::DateTime(t) => {
            let (mant, places) = days_between(ts.0 as int, t.nanos_since_epoch())->0;
            Positive::of(Decimal::of(mant, places))
        },
        ExpirationDate::Days(days) => days,
    }
}

/// Whether the exit policy closes a leg at a step.
pub open spec fn leg_exits(
    exit: ExitPolicy,
    snapshot: ChainSnapshot,
    marks: Map<KeyView, PriceCents>,
    step: StepIndex,
    leg: OpenPosition,
) -> bool {
    policy_met(
        exit,
        Decimal::of(leg.entry_premium.0 as int, 2),
        Decimal::of(mark_of(marks, snapshot, leg).0 as int, 2),
        step.0 as usize,
        days_left_of(leg.contract, snapshot.ts),
        Positive::of(Decimal::of(snapshot.underlying_price.0 as int, 2)),
        leg.side is Long,
    )
}

/// The closes that the exit policy asks for, leg by leg, up to the first leg
/// whose days left cannot be told.
pub open spec fn exits_of(
    exit: ExitPolicy,
    snapshot: ChainSnapshot,
    marks: Map<KeyView, PriceCents>,
    step: StepIndex,
    open: Seq<OpenPosition>,
) -> (Seq<OrderCommand>, Option<ErrorKind>)
    decreases open.len(),
{
    if open.len() == 0 {
        (Seq::empty(), None)
    } else {
        let (cmds, error) = exits_of(exit, snapshot, marks, step, open.drop_last());
        let leg = open.last();
        if error is Some {
            (cmds, error)
        } else if days_left_error(leg.contract, snapshot.ts) is Some {
            (cmds, days_left_error(leg.contract, snapshot.ts))
        } else if leg_exits(exit, snapshot, marks, step, leg) {
            (cmds.push(close_of(snapshot, leg, leg.quantity)), None)
        } else {
            (cmds, None)
        }
    }
}

/// A leg whose days left cannot be told ends the evaluation.
proof fn lemma_exits_stop(
    exit: ExitPolicy,
    snapshot: ChainSnapshot,
    marks: Map<KeyView, PriceCents>,
    step: StepIndex,
    open: Seq<OpenPosition>,
    k: int,
)
    requires
        0 <= k <= open.len(),
        exits_of(exit, snapshot, marks, step, open.take(k)).1 is Some,
    ensures
        exits_of(exit, snapshot, marks, step, open) == exits_of(
            exit,
            snapshot,
            marks,
            step,
            open.take(k),
        ),
    decreases open.len(),
{
    if k < open.len() {
        assert(open.drop_last().take(k) =~= open.take(k));
        lemma_exits_stop(exit, snapshot, marks, step, open.drop_last(), k);
    } else {
        assert(open.take(k) =~= open);
    }
}

/// Append a close for every open leg that the exit policy closes at a step, in
/// the order of the legs. The closes before the first leg whose days left
/// cannot be told stay.
pub fn evaluate_exits(
    exit: &ExitPolicy,
    snapshot: &ChainSnapshot,
    open: &[OpenPosition],
    marks: &ContractMap<PriceCents>,
    step: StepIndex,
    out: &mut Vec<OrderCommand>,
) -> (r: Result<(), BacktestError>)
    ensures
        ({
            let (cmds, error) = exits_of(*exit, *snapshot, marks@, step, open@);
            &&& final(out)@ == old(out)@ + cmds
            &&& match r {
                Ok(_) => error is None,
                Err(e) => error == Some(e.kind()),
            }
        }),
{
    let underlying = positive_from_price(snapshot.underlying_price);
    let step_num: usize = step.0 as usize;
    let mut i: usize = 0;
    proof {
        assert(open@.take(0) =~= Seq::<OpenPosition>::empty());
        assert(old(out)@ + Seq::<OrderCommand>::empty() =~= out@);
        underlying.lemma_of(underlying.dec());
    }
    while i < open.len()
        invariant
            i <= open.len(),
            step_num == step.0 as usize,
            underlying == Positive::of(Decimal::of(snapshot.underlying_price.0 as int, 2)),
            exits_of(*exit, *snapshot, marks@, step, open@.take(i as int)).1 is None,
            out@ == old(out)@ + exits_of(*exit, *snapshot, marks@, step, open@.take(i as int)).0,
        decreases open.len() - i,
    {
        let leg = &open[i];
        assert(open@.take(i + 1).drop_last() =~= open@.take(i as int));
        let days_left = match days_to_expiry(&leg.contract, snapshot.ts) {
            Ok(days) => days,
            Err(e) => {
                proof {
                    lemma_exits_stop(*exit, *snapshot, marks@, step, open@, i + 1);
                }
                return Err(e);
            },
        };
        proof {
            days_left.lemma_of(days_left.dec());
            crate::domain::decimal::lemma_of_parts(days_left.dec());
        }
        let is_long = match leg.side {
            Side::Long => true,
            Side::Short => false,
        };
        let initial = leg.entry_premium.to_decimal_dollars();
        let current = current_premium(snapshot, marks, leg);
        let ghost before = exits_of(*exit, *snapshot, marks@, step, open@.take(i as int)).0;
        if policy_triggered(exit, initial, current, step_num, days_left, underlying, is_long) {
            let close = close_command(snapshot, leg);
            out.push(close);
            assert(out@ =~= old(out)@ + before.push(close));
        }
        i = i + 1;
    }
    assert(open@.take(open@.len() as int) =~= open@);
    Ok(())
}

/// How many contracts of a leg some commands close.
pub open spec fn scheduled(cmds: Seq<OrderCommand>, id: PositionId) -> int
    decreases cmds.len(),
{
    if cmds.len() == 0 {
        0
    } else {
        scheduled(cmds.drop_last(), id) + closes_of(cmds.last(), id)
    }
}

/// How many contracts of a leg a command closes.
pub open spec fn closes_of(cmd: OrderCommand, id: PositionId) -> int {
    match cmd {
        OrderCommand::Submit(intent) => if intent.action == PositionAction::Close(id) {
            intent.quantity.n()
        } else {
            0
        },
        _ => 0,
    }
}

/// How many contracts of a leg some resting orders close.
pub open spec fn resting_closes(pending: Seq<PendingOrder>, id: PositionId) -> int
    decreases pending.len(),
{
    if pending.len() == 0 {
        0
    } else {
        resting_closes(pending.drop_last(), id) + (if pending.last().intent.action
            == PositionAction::Close(id) {
            pending.last().intent.quantity.n()
        } else {
            0
        })
    }
}

/// More commands close no fewer contracts.
proof fn lemma_scheduled_grows(cmds: Seq<OrderCommand>, id: PositionId, k: int)
    requires
        0 <= k <= cmds.len(),
    ensures
        0 <= scheduled(cmds.take(k), id) <= scheduled(cmds, id),
    decreases cmds.len(),
{
    broadcast use Quantity::lemma_of;

    if k == cmds.len() {
        assert(cmds.take(k) =~= cmds);
        if k > 0 {
            lemma_scheduled_grows(cmds.drop_last(), id, k - 1);
            assert(cmds.drop_last().take(k - 1) =~= cmds.drop_last());
            lemma_closes_nonnegative(cmds.last(), id);
        }
    } else {
        lemma_scheduled_grows(cmds.drop_last(), id, k);
        assert(cmds.drop_last().take(k) =~= cmds.take(k));
        lemma_closes_nonnegative(cmds.last(), id);
    }
}

/// A command closes no negative number of contracts.
proof fn lemma_closes_nonnegative(cmd: OrderCommand, id: PositionId)
    ensures
        closes_of(cmd, id) >= 0,
{
    match cmd {
        OrderCommand::Submit(intent) => {
            intent.quantity.lemma_of();
        },
        _ => {},
    }
}

/// More resting orders close no fewer contracts.
proof fn lemma_resting_grows(pending: Seq<PendingOrder>, id: PositionId, k: int)
    requires
        0 <= k <= pending.len(),
    ensures
        0 <= resting_closes(pending.take(k), id) <= resting_closes(pending, id),
    decreases pending.len(),
{
    if k == pending.len() {
        assert(pending.take(k) =~= pending);
        if k > 0 {
            lemma_resting_grows(pending.drop_last(), id, k - 1);
            assert(pending.drop_last().take(k - 1) =~= pending.drop_last());
            pending.last().intent.quantity.lemma_of();
        }
    } else {
        lemma_resting_grows(pending.drop_last(), id, k);
        assert(pending.drop_last().take(k) =~= pending.take(k));
        pending.last().intent.quantity.lemma_of();
    }
}

/// How many contracts of a leg some commands already close.
pub fn scheduled_close_qty(out: &[OrderCommand], position_id: PositionId) -> (r: Result<
    u32,
    BacktestError,
>)
    ensures
        match r {
            Ok(total) => total == scheduled(out@, position_id),
            Err(e) => scheduled(out@, position_id) > u32::MAX && e.kind()
                == ErrorKind::ArithmeticOverflow,
        },
{
    let mut total: u32 = 0;
    let mut i: usize = 0;
    assert(out@.take(0) =~= Seq::<OrderCommand>::empty());
    while i < out.len()
        invariant
            i <= out.len(),
            total == scheduled(out@.take(i as int), position_id),
        decreases out.len() - i,
    {
        assert(out@.take(i + 1).drop_last() =~= out@.take(i as int));
        match &out[i] {
            OrderCommand::Submit(intent) => match intent.action {
                PositionAction::Close(pid) => {
                    if pid.0 == position_id.0 {
                        match total.checked_add(intent.quantity.value()) {
                            Some(sum) => {
                                total = sum;
                            },
                            None => {
                                proof {
                                    lemma_scheduled_grows(out@, position_id, i + 1);
                                }
                                return Err(BacktestError::ArithmeticOverflow);
                            },
                        }
                    }
                },
                PositionAction::Open => {},
            },
            _ => {},
        }
        i = i + 1;
    }
    assert(out@.take(out@.len() as int) =~= out@);
    Ok(total)
}

/// How many contracts of a leg commands and resting orders already close.
fn covered_qty(out: &[OrderCommand], pending: &[PendingOrder], position_id: PositionId) -> (r:
    Result<u32, BacktestError>)
    ensures
        ({
            let covered = scheduled(out@, position_id) + resting_closes(pending@, position_id);
            match r {
                Ok(total) => total == covered,
                Err(e) => covered > u32::MAX && e.kind() == ErrorKind::ArithmeticOverflow,
            }
        }),
{
    proof {
        lemma_resting_grows(pending@, position_id, 0);
    }
    let first: u32 = match scheduled_close_qty(out, position_id) {
        Ok(n) => n,
        Err(e) => {
            return Err(e);
        },
    };
    let mut total: u32 = first;
    let mut i: usize = 0;
    assert(pending@.take(0) =~= Seq::<PendingOrder>::empty());
    while i < pending.len()
        invariant
            i <= pending.len(),
            first == scheduled(out@, position_id),
            total == first + resting_closes(pending@.take(i as int), position_id),
        decreases pending.len() - i,
    {
        assert(pending@.take(i + 1).drop_last() =~= pending@.take(i as int));
        match pending[i].intent.action {
            PositionAction::Close(pid) => {
                if pid.0 == position_id.0 {
                    match total.checked_add(pending[i].intent.quantity.value()) {
                        Some(sum) => {
                            total = sum;
                        },
                        None => {
                            proof {
                                lemma_resting_grows(pending@, position_id, i + 1);
                            }
                            return Err(BacktestError::ArithmeticOverflow);
                        },
                    }
                }
            },
            PositionAction::Open => {},
        }
        i = i + 1;
    }
    assert(pending@.take(pending@.len() as int) =~= pending@);
    Ok(total)
}

/// The commands once every open leg is closed as far as it was not: leg by leg,
/// up to the first whose count runs over.
pub open spec fn closed_out(
    open: Seq<OpenPosition>,
    pending: Seq<PendingOrder>,
    snapshot: ChainSnapshot,
    cmds: Seq<OrderCommand>,
) -> (Seq<OrderCommand>, Option<ErrorKind>)
    decreases open.len(),
{
    if open.len() == 0 {
        (cmds, None)
    } else {
        let (before, error) = closed_out(open.drop_last(), pending, snapshot, cmds);
        let leg = open.last();
        let covered = scheduled(before, leg.position_id) + resting_closes(pending, leg.position_id);
        if error is Some {
            (before, error)
        } else if covered > u32::MAX {
            (before, Some(ErrorKind::ArithmeticOverflow))
        } else if covered >= leg.quantity.n() {
            (before, None)
        } else {
            (
                before.push(close_of(snapshot, leg, Quantity::of(leg.quantity.n() - covered))),
                None,
            )
        }
    }
}

/// A leg whose count runs over ends the closing.
proof fn lemma_closing_stops(
    open: Seq<OpenPosition>,
    pending: Seq<PendingOrder>,
    snapshot: ChainSnapshot,
    cmds: Seq<OrderCommand>,
    k: int,
)
    requires
        0 <= k <= open.len(),
        closed_out(open.take(k), pending, snapshot, cmds).1 is Some,
    ensures
        closed_out(open, pending, snapshot, cmds) == closed_out(
            open.take(k),
            pending,
            snapshot,
            cmds,
        ),
    decreases open.len(),
{
    if k < open.len() {
        assert(open.drop_last().take(k) =~= open.take(k));
        lemma_closing_stops(open.drop_last(), pending, snapshot, cmds, k);
    } else {
        assert(open.take(k) =~= open);
    }
}

/// Append a close for what is left of every open leg: what earlier commands
/// and resting orders already close is not closed again.
pub fn close_all(
    open: &[OpenPosition],
    pending: &[PendingOrder],
    snapshot: &ChainSnapshot,
    out: &mut Vec<OrderCommand>,
) -> (r: Result<(), BacktestError>)
    ensures
        ({
            let (cmds, error) = closed_out(open@, pending@, *snapshot, old(out)@);
            &&& final(out)@ == cmds
            &&& match r {
                Ok(_) => error is None,
                Err(e) => error == Some(e.kind()),
            }
        }),
{
    let mut i: usize = 0;
    assert(open@.take(0) =~= Seq::<OpenPosition>::empty());
    while i < open.len()
        invariant
            i <= open.len(),
            closed_out(open@.take(i as int), pending@, *snapshot, old(out)@) == (
                out@,
                None::<ErrorKind>,
            ),
        decreases open.len() - i,
    {
        let leg = &open[i];
        assert(open@.take(i + 1).drop_last() =~= open@.take(i as int));
        let open_qty: u32 = leg.quantity.value();
        let covered: u32 = match covered_qty(out.as_slice(), pending, leg.position_id) {
            Ok(n) => n,
            Err(e) => {
                proof {
                    lemma_closing_stops(open@, pending@, *snapshot, old(out)@, i + 1);
                }
                return Err(e);
            },
        };
        if covered < open_qty {
            match Quantity::new(open_qty - covered) {
                Ok(quantity) => {
                    out.push(close_command_qty(snapshot, leg, quantity));
                },
                Err(e) => {
                    return Err(e);
                },
            }
        }
        i = i + 1;
    }
    assert(open@.take(open@.len() as int) =~= open@);
    Ok(())
}

/// Whether no two legs share an id.
pub open spec fn ids_differ(open: Seq<OpenPosition>) -> bool {
    forall|i: int, j: int|
        #![trigger open[i], open[j]]
        0 <= i < j < open.len() ==> open[i].position_id != open[j].position_id
}

/// Every open leg ends up closed, and none more than once: what commands and
/// resting orders close of it is its size, or what they already closed of it
/// where that was more. Commands that stood before still stand in front.
pub proof fn law_every_leg_is_closed_once(
    open: Seq<OpenPosition>,
    pending: Seq<PendingOrder>,
    snapshot: ChainSnapshot,
    cmds: Seq<OrderCommand>,
    i: int,
)
    requires
        ids_differ(open),
        closed_out(open, pending, snapshot, cmds).1 is None,
        0 <= i < open.len(),
    ensures
        ({
            let after = closed_out(open, pending, snapshot, cmds).0;
            let id = open[i].position_id;
            let before = scheduled(cmds, id) + resting_closes(pending, id);
            &&& cmds.is_prefix_of(after)
            &&& scheduled(after, id) + resting_closes(pending, id) == if before
                >= open[i].quantity.n() {
                before
            } else {
                open[i].quantity.n()
            }
        }),
    decreases open.len(),
{
    lemma_closing_adds(open, pending, snapshot, cmds, open[i].position_id);
    let front = open.drop_last();
    assert(ids_differ(front)) by {
        assert forall|a: int, b: int|
            #![trigger front[a], front[b]]
            0 <= a < b < front.len() implies front[a].position_id != front[b].position_id by {
            assert(front[a] == open[a] && front[b] == open[b]);
        }
    }
    let id = open[i].position_id;
    let mid = closed_out(front, pending, snapshot, cmds).0;
    let after = closed_out(open, pending, snapshot, cmds).0;
    if after != mid {
        assert(after.drop_last() =~= mid);
    }
    if i < front.len() {
        law_every_leg_is_closed_once(front, pending, snapshot, cmds, i);
        assert(front[i] == open[i]);
        assert(open.last() == open[open.len() - 1]);
        assert(open[i].position_id != open[open.len() - 1].position_id);
    } else {
        lemma_closing_adds(front, pending, snapshot, cmds, id);
        assert forall|k: int| 0 <= k < front.len() implies (#[trigger] front[k]).position_id
            != id by {
            assert(open[k] == front[k] && open[i] == open.last());
        }
        open[i].quantity.lemma_of();
        lemma_resting_grows(pending, id, 0);
        lemma_scheduled_grows(mid, id, 0);
        let left = open[i].quantity.n() - scheduled(mid, id) - resting_closes(pending, id);
        if left >= 0 {
            Quantity::lemma_n(left);
        }
    }
}

/// Closing some legs keeps what stood before, and closes nothing of a leg that
/// is not among them.
proof fn lemma_closing_adds(
    open: Seq<OpenPosition>,
    pending: Seq<PendingOrder>,
    snapshot: ChainSnapshot,
    cmds: Seq<OrderCommand>,
    id: PositionId,
)
    ensures
        cmds.is_prefix_of(closed_out(open, pending, snapshot, cmds).0),
        (forall|k: int| 0 <= k < open.len() ==> (#[trigger] open[k]).position_id != id)
            ==> scheduled(closed_out(open, pending, snapshot, cmds).0, id) == scheduled(cmds, id),
    decreases open.len(),
{
    if open.len() > 0 {
        let front = open.drop_last();
        lemma_closing_adds(front, pending, snapshot, cmds, id);
        let mid = closed_out(front, pending, snapshot, cmds).0;
        let after = closed_out(open, pending, snapshot, cmds).0;
        if after != mid {
            assert(after.drop_last() =~= mid);
        }
        if forall|k: int| 0 <= k < open.len() ==> (#[trigger] open[k]).position_id != id {
            assert(open[open.len() - 1].position_id != id);
            assert forall|k: int| 0 <= k < front.len() implies (#[trigger] front[k]).position_id
                != id by {
                assert(open[k] == front[k]);
            }
        }
    }
}

/// What the exit policy asks for are closes of open legs, each of the leg's
/// whole size and on the opposite side, and nothing else.
pub proof fn law_exits_close_open_legs(
    exit: ExitPolicy,
    snapshot: ChainSnapshot,
    marks: Map<KeyView, PriceCents>,
    step: StepIndex,
    open: Seq<OpenPosition>,
    i: int,
)
    requires
        0 <= i < exits_of(exit, snapshot, marks, step, open).0.len(),
    ensures
        exists|k: int|
            0 <= k < open.len() && exits_of(exit, snapshot, marks, step, open).0[i] == close_of(
                snapshot,
                #[trigger] open[k],
                open[k].quantity,
            ) && leg_exits(exit, snapshot, marks, step, open[k]),
    decreases open.len(),
{
    let front = open.drop_last();
    let before = exits_of(exit, snapshot, marks, step, front).0;
    if i < before.len() {
        law_exits_close_open_legs(exit, snapshot, marks, step, front, i);
        let k = choose|k: int|
            0 <= k < front.len() && before[i] == close_of(
                snapshot,
                #[trigger] front[k],
                front[k].quantity,
            ) && leg_exits(exit, snapshot, marks, step, front[k]);
        assert(open[k] == front[k]);
    } else {
        assert(open[open.len() - 1] == open.last());
    }
}

/// Under the policy to hold to expiration, a leg whose days left can be told
/// exits exactly once its contract has expired.
pub proof fn law_held_to_expiration(
    snapshot: ChainSnapshot,
    marks: Map<KeyView, PriceCents>,
    step: StepIndex,
    leg: OpenPosition,
    days: Positive,
)
    requires
        is_days_left(days, leg.contract, snapshot.ts),
    ensures
        leg.contract.expiration matches ExpirationDate::DateTime(t) && leg_exits(
            ExitPolicy::Expiration,
            snapshot,
            marks,
            step,
            leg,
        ) == (t.nanos_since_epoch() <= snapshot.ts.0),
{
    days.lemma_of(days.dec());
    crate::domain::decimal::lemma_of_parts(days.dec());
}

/// Whether a command closes some contracts of a leg, and does only that: it
/// trades the leg's own contract at the market on the side other than the
/// leg's, so that a long is sold and a short bought back.
pub open spec fn undoes(cmd: OrderCommand, leg: OpenPosition, contracts: int) -> bool {
    &&& cmd matches OrderCommand::Submit(intent)
    &&& intent.contract == leg.contract
    &&& intent.action == PositionAction::Close(leg.position_id)
    &&& leg.side is Long ==> intent.side is Short
    &&& leg.side is Short ==> intent.side is Long
    &&& intent.quantity.n() == contracts
    &&& intent.limit is None
    &&& intent.tif is Ioc
}

/// A close reverses its leg, and the price it is judged by is the quoted mid,
/// or the entry premium where there is no quote.
pub proof fn law_close_reverses_its_leg(
    snapshot: ChainSnapshot,
    leg: OpenPosition,
    quantity: Quantity,
)
    ensures
        undoes(close_of(snapshot, leg, quantity), leg, quantity.n()),
        close_of(snapshot, leg, quantity) matches OrderCommand::Submit(intent) && {
            &&& sign_of(intent.side) + sign_of(leg.side) == 0
            &&& snapshot.quotes@.dom().contains(leg.contract@) ==> intent.decision_mid
                == snapshot.quotes@[leg.contract@].mid
            &&& !snapshot.quotes@.dom().contains(leg.contract@) ==> intent.decision_mid
                == leg.entry_premium
        },
{
}

/// What a trade is worth to the side against it.
proof fn lemma_against(side: Side, worth: int)
    ensures
        -sign_of(side) * worth == match side {
            Side::Long => -worth,
            Side::Short => worth,
        },
{
    let s = sign_of(side);
    assert(s == 1 ==> -s * worth == -worth) by (nonlinear_arith);
    assert(s == -1 ==> -s * worth == worth) by (nonlinear_arith);
}

/// Closing a leg moves cash the way of the leg: selling a long brings its price
/// in, buying a short back pays it, and the fees are paid either way.
pub proof fn law_close_moves_cash_with_its_leg(
    snapshot: ChainSnapshot,
    leg: OpenPosition,
    fill: Fill,
    multiplier: int,
)
    requires
        close_of(snapshot, leg, fill.quantity) matches OrderCommand::Submit(intent) && fill.side
            == intent.side,
    ensures
        ({
            let worth = fill.price.0 * fill.quantity.n() * multiplier;
            match leg.side {
                Side::Long => cash_flow(fill, multiplier) == worth - fill.fees.0,
                Side::Short => cash_flow(fill, multiplier) == -worth - fill.fees.0,
            }
        }),
{
    let worth = fill.price.0 * fill.quantity.n() * multiplier;
    lemma_against(fill.side, worth);
}

/// What opening a leg and closing it again does to cash is what the close is
/// said to have earned, less the fees of the opening.
pub proof fn law_round_trip_earns_its_profit(
    snapshot: ChainSnapshot,
    leg: OpenPosition,
    opening: Fill,
    closing: Fill,
    multiplier: int,
)
    requires
        opening.side == leg.side,
        opening.price == leg.entry_premium,
        opening.quantity == closing.quantity,
        close_of(snapshot, leg, closing.quantity) matches OrderCommand::Submit(intent)
            && closing.side == intent.side,
    ensures
        cash_flow(opening, multiplier) + cash_flow(closing, multiplier) == realized_pnl_of(
            leg.side,
            opening.price.0 as int,
            closing.price.0 as int,
            closing.quantity.n(),
            multiplier,
            closing.fees.0 as int,
        ) - opening.fees.0,
{
    let (a, b, q) = (opening.price.0 as int, closing.price.0 as int, closing.quantity.n());
    let x = a * q * multiplier;
    let y = b * q * multiplier;
    assert((b - a) * q * multiplier == y - x) by (nonlinear_arith)
        requires
            x == a * q * multiplier,
            y == b * q * multiplier,
    ;
    assert((a - b) * q * multiplier == x - y) by (nonlinear_arith)
        requires
            x == a * q * multiplier,
            y == b * q * multiplier,
    ;
    lemma_against(opening.side, x);
    lemma_against(closing.side, y);
}

/// Every order that the exit policy asks for reverses one open leg in whole.
pub proof fn law_exits_trade_against_their_legs(
    exit: ExitPolicy,
    snapshot: ChainSnapshot,
    marks: Map<KeyView, PriceCents>,
    step: StepIndex,
    open: Seq<OpenPosition>,
    i: int,
)
    requires
        0 <= i < exits_of(exit, snapshot, marks, step, open).0.len(),
    ensures
        exists|k: int|
            0 <= k < open.len() && undoes(
                exits_of(exit, snapshot, marks, step, open).0[i],
                #[trigger] open[k],
                open[k].quantity.n(),
            ),
{
    law_exits_close_open_legs(exit, snapshot, marks, step, open, i);
    let cmd = exits_of(exit, snapshot, marks, step, open).0[i];
    let k = choose|k: int|
        0 <= k < open.len() && cmd == close_of(snapshot, #[trigger] open[k], open[k].quantity)
            && leg_exits(exit, snapshot, marks, step, open[k]);
    law_close_reverses_its_leg(snapshot, open[k], open[k].quantity);
}

/// An exit policy closes each leg that meets it once and in whole, and of the
/// others nothing.
pub proof fn law_policy_closes_what_meets_it(
    exit: ExitPolicy,
    snapshot: ChainSnapshot,
    marks: Map<KeyView, PriceCents>,
    step: StepIndex,
    open: Seq<OpenPosition>,
    id: PositionId,
)
    requires
        ids_differ(open),
        exits_of(exit, snapshot, marks, step, open).1 is None,
    ensures
        forall|k: int|
            0 <= k < open.len() && (#[trigger] open[k]).position_id == id ==> scheduled(
                exits_of(exit, snapshot, marks, step, open).0,
                id,
            ) == if leg_exits(exit, snapshot, marks, step, open[k]) {
                open[k].quantity.n()
            } else {
                0
            },
        (forall|k: int| 0 <= k < open.len() ==> (#[trigger] open[k]).position_id != id)
            ==> scheduled(exits_of(exit, snapshot, marks, step, open).0, id) == 0,
    decreases open.len(),
{
    let cmds = exits_of(exit, snapshot, marks, step, open).0;
    if open.len() > 0 {
        let front = open.drop_last();
        let before = exits_of(exit, snapshot, marks, step, front).0;
        assert(ids_differ(front)) by {
            assert forall|a: int, b: int|
                #![trigger front[a], front[b]]
                0 <= a < b < front.len() implies front[a].position_id != front[b].position_id by {
                assert(front[a] == open[a] && front[b] == open[b]);
            }
        }
        law_policy_closes_what_meets_it(exit, snapshot, marks, step, front, id);
        if cmds != before {
            assert(cmds.drop_last() =~= before);
        }
        assert(open.last() == open[open.len() - 1]);
        assert forall|k: int| 0 <= k < open.len() && (#[trigger] open[k]).position_id
            == id implies scheduled(cmds, id) == if leg_exits(exit, snapshot, marks, step, open[k]) {
            open[k].quantity.n()
        } else {
            0
        } by {
            if k < front.len() {
                assert(front[k] == open[k]);
                assert(open[k].position_id != open[open.len() - 1].position_id);
            } else {
                assert forall|j: int| 0 <= j < front.len() implies (#[trigger] front[j]).position_id
                    != id by {
                    assert(front[j] == open[j]);
                    assert(open[j].position_id != open[k].position_id);
                }
            }
        }
        if forall|k: int| 0 <= k < open.len() ==> (#[trigger] open[k]).position_id != id {
            assert forall|j: int| 0 <= j < front.len() implies (#[trigger] front[j]).position_id
                != id by {
                assert(front[j] == open[j]);
            }
        }
    }
}

/// What counts as closing a leg: each order submitted to close it counts with
/// its size, and nothing else counts; nor does anything but a resting order to
/// close it count among the resting ones.
pub proof fn law_only_closes_of_a_leg_count(
    cmds: Seq<OrderCommand>,
    cmd: OrderCommand,
    pending: Seq<PendingOrder>,
    order: PendingOrder,
    id: PositionId,
)
    ensures
        scheduled(Seq::empty(), id) == 0,
        resting_closes(Seq::empty(), id) == 0,
        scheduled(cmds.push(cmd), id) - scheduled(cmds, id) == match cmd {
            OrderCommand::Submit(intent) => match intent.action {
                PositionAction::Close(closed) if closed.0 == id.0 => intent.quantity.n(),
                _ => 0,
            },
            OrderCommand::Cancel(_) => 0,
            OrderCommand::Replace { .. } => 0,
        },
        resting_closes(pending.push(order), id) - resting_closes(pending, id) == match
            order.intent.action {
            PositionAction::Close(closed) if closed.0 == id.0 => order.intent.quantity.n(),
            _ => 0,
        },
{
    assert(cmds.push(cmd).drop_last() =~= cmds);
    assert(pending.push(order).drop_last() =~= pending);
}

/// Every order added at the end of the tape reverses one open leg, in no more
/// than its size.
pub proof fn law_final_closes_trade_against_their_legs(
    open: Seq<OpenPosition>,
    pending: Seq<PendingOrder>,
    snapshot: ChainSnapshot,
    cmds: Seq<OrderCommand>,
    i: int,
)
    requires
        cmds.len() <= i < closed_out(open, pending, snapshot, cmds).0.len(),
    ensures
        exists|k: int, n: int|
            0 <= k < open.len() && 0 < n <= open[k].quantity.n() && #[trigger] undoes(
                closed_out(open, pending, snapshot, cmds).0[i],
                open[k],
                n,
            ),
    decreases open.len(),
{
    if open.len() > 0 {
        let front = open.drop_last();
        let before = closed_out(front, pending, snapshot, cmds).0;
        let after = closed_out(open, pending, snapshot, cmds).0;
        lemma_closing_adds(front, pending, snapshot, cmds, open.last().position_id);
        if i < before.len() {
            law_final_closes_trade_against_their_legs(front, pending, snapshot, cmds, i);
            let (k, n) = choose|k: int, n: int|
                0 <= k < front.len() && 0 < n <= front[k].quantity.n() && #[trigger] undoes(
                    before[i],
                    front[k],
                    n,
                );
            assert(after[i] == before[i]);
            assert(front[k] == open[k]);
            assert(undoes(after[i], open[k], n));
        } else {
            let leg = open.last();
            let covered = scheduled(before, leg.position_id) + resting_closes(
                pending,
                leg.position_id,
            );
            lemma_scheduled_grows(before, leg.position_id, 0);
            lemma_resting_grows(pending, leg.position_id, 0);
            leg.quantity.lemma_of();
            let n = leg.quantity.n() - covered;
            Quantity::lemma_n(n);
            law_close_reverses_its_leg(snapshot, leg, Quantity::of(n));
            assert(open[open.len() - 1] == leg);
            assert(undoes(after[i], open[open.len() - 1], n));
        }
    }
}

/// With nothing scheduled and nothing resting, the end of the tape reverses
/// every open leg in whole, one order per leg and in the order of the legs.
pub proof fn law_end_reverses_every_leg(open: Seq<OpenPosition>, snapshot: ChainSnapshot)
    requires
        ids_differ(open),
        forall|k: int| 0 <= k < open.len() ==> (#[trigger] open[k]).quantity.n() > 0,
    ensures
        ({
            let (cmds, error) = closed_out(open, Seq::empty(), snapshot, Seq::empty());
            &&& error is None
            &&& cmds.len() == open.len()
            &&& forall|k: int|
                0 <= k < open.len() ==> undoes(
                    cmds[k],
                    #[trigger] open[k],
                    open[k].quantity.n(),
                )
        }),
    decreases open.len(),
{
    if open.len() > 0 {
        let front = open.drop_last();
        let leg = open.last();
        assert(leg == open[open.len() - 1]);
        assert(ids_differ(front)) by {
            assert forall|a: int, b: int|
                #![trigger front[a], front[b]]
                0 <= a < b < front.len() implies front[a].position_id != front[b].position_id by {
                assert(front[a] == open[a] && front[b] == open[b]);
            }
        }
        assert forall|k: int| 0 <= k < front.len() implies (#[trigger] front[k]).quantity.n()
            > 0 by {
            assert(front[k] == open[k]);
        }
        law_end_reverses_every_leg(front, snapshot);
        let none = Seq::<OrderCommand>::empty();
        let before = closed_out(front, Seq::empty(), snapshot, none).0;
        lemma_closing_adds(front, Seq::empty(), snapshot, none, leg.position_id);
        assert forall|k: int| 0 <= k < front.len() implies (#[trigger] front[k]).position_id
            != leg.position_id by {
            assert(front[k] == open[k]);
        }
        leg.quantity.lemma_of();
        law_close_reverses_its_leg(snapshot, leg, leg.quantity);
        let after = closed_out(open, Seq::empty(), snapshot, none).0;
        assert(after == before.push(close_of(snapshot, leg, leg.quantity)));
        assert forall|k: int| 0 <= k < open.len() implies undoes(
            after[k],
            #[trigger] open[k],
            open[k].quantity.n(),
        ) by {
            if k < front.len() {
                assert(front[k] == open[k]);
                assert(after[k] == before[k]);
            }
        }
    }
}

/// A price of whole cents in the unit of a view.
proof fn lemma_cents_viewed(cents: u64)
    ensures
        Decimal::of(cents as int, 2).mant() == cents,
        Decimal::of(cents as int, 2).places() == 2,
        Decimal::of(cents as int, 2)@ == cents * pow10(26),
{
    lemma_parts_of(cents as int, 2);
}

/// What a leg exits on is what is seen of it: the price of the underlying, the
/// mark of the leg, and the step.
pub proof fn law_leg_exits_on_what_is_seen(
    snapshot: ChainSnapshot,
    marks: Map<KeyView, PriceCents>,
    step: StepIndex,
    leg: OpenPosition,
    level: Positive,
    steps: usize,
)
    ensures
        ({
            let price = snapshot.underlying_price.0 * pow10(26);
            let mark = mark_of(marks, snapshot, leg).0 * pow10(26);
            let exits = |policy: ExitPolicy| leg_exits(policy, snapshot, marks, step, leg);
            &&& exits(ExitPolicy::UnderlyingBelow(level)) <==> price < level@
            &&& exits(ExitPolicy::UnderlyingAbove(level)) <==> price > level@
            &&& exits(ExitPolicy::MinPrice(level)) <==> mark <= level@
            &&& exits(ExitPolicy::MaxPrice(level)) <==> mark >= level@
            &&& exits(ExitPolicy::TimeSteps(steps)) <==> steps <= step.0
        }),
{
    lemma_cents_viewed(snapshot.underlying_price.0);
    lemma_cents_viewed(mark_of(marks, snapshot, leg).0);
    let d = Decimal::of(snapshot.underlying_price.0 as int, 2);
    Positive::of(d).lemma_of(d);
}

/// A leg takes its profit or its loss by its own premiums: a long has gained
/// when its mark stands above its entry by the fraction, a short when it stands
/// below by it. The fraction has at most nine places and is at most three.
pub proof fn law_leg_exits_on_its_own_profit(
    snapshot: ChainSnapshot,
    marks: Map<KeyView, PriceCents>,
    step: StepIndex,
    leg: OpenPosition,
    pct: Decimal,
)
    requires
        pct.wf(),
        pct.places() <= 9,
        0 <= pct.mant() <= 3 * pow10(pct.places()),
    ensures
        ({
            let entry = leg.entry_premium.0 as int;
            let mark = mark_of(marks, snapshot, leg).0 as int;
            let one = pow10(28);
            let target = leg_exits(ExitPolicy::ProfitPercent(pct), snapshot, marks, step, leg);
            let limit = leg_exits(ExitPolicy::LossPercent(pct), snapshot, marks, step, leg);
            let above = mark * one >= entry * (one + pct@);
            let below = mark * one <= entry * (one - pct@);
            match leg.side {
                Side::Long => target == above && limit == below,
                Side::Short => target == below && limit == above,
            }
        }),
{
    let e = leg.entry_premium.0;
    let m = mark_of(marks, snapshot, leg).0;
    let initial = Decimal::of(e as int, 2);
    let current = Decimal::of(m as int, 2);
    lemma_cents_viewed(e);
    lemma_cents_viewed(m);
    let p = pow10(pct.places());
    lemma_pow10_positive(pct.places());
    assert(p <= 1_000_000_000) by {
        vstd::arithmetic::power::lemma_pow_increases(10, pct.places() as nat, 9);
        reveal_with_fuel(vstd::arithmetic::power::pow, 10);
    }
    let (up, down) = (p + pct.mant(), p - pct.mant());
    assert(0 <= e * up <= 0xffff_ffff_ffff_ffff * 4_000_000_000) by (nonlinear_arith)
        requires
            0 <= e <= 0xffff_ffff_ffff_ffff,
            0 <= up <= 4_000_000_000,
    ;
    assert(-0xffff_ffff_ffff_ffff * 4_000_000_000 <= e * down <= 0xffff_ffff_ffff_ffff
        * 4_000_000_000) by (nonlinear_arith)
        requires
            0 <= e <= 0xffff_ffff_ffff_ffff,
            -4_000_000_000 <= down <= 4_000_000_000,
    ;
    law_profit_and_loss_are_fractions_of_the_premium(
        pct,
        initial,
        current,
        step.0 as usize,
        days_left_of(leg.contract, snapshot.ts),
        Positive::of(Decimal::of(snapshot.underlying_price.0 as int, 2)),
        leg.side is Long,
    );
    let k = pow10(26);
    lemma_pow10_positive(26);
    let one = pow10(28);
    let (hi, lo) = (one + pct@, one - pct@);
    assert((m * k) * one == (m * one) * k) by (nonlinear_arith);
    assert((e * k) * hi == (e * hi) * k) by (nonlinear_arith);
    assert((e * k) * lo == (e * lo) * k) by (nonlinear_arith);
    assert(((m * one) * k >= (e * hi) * k) == (m * one >= e * hi)) by (nonlinear_arith)
        requires
            k > 0,
    ;
    assert(((m * one) * k <= (e * lo) * k) == (m * one <= e * lo)) by (nonlinear_arith)
        requires
            k > 0,
    ;
}

/// How many days are left is a matter of how far off the expiration is, and
/// of nothing else: none once it is past, and otherwise the nanoseconds that
/// remain over those of a day of 86400 seconds.
pub proof fn law_days_left_depend_on_the_distance(from: int, to: int, shift: int)
    ensures
        days_between(from + shift, to + shift) == days_between(from, to),
        to <= from ==> days_between(from, to) == Some((0int, 0int)),
        to > from ==> days_between(from, to) == quotient_of(
            (to - from, 0),
            (86_400int * 1_000_000_000, 0),
        ),
{
}

/// Whether a strategy's `exits` closes what a policy says, and does nothing
/// else.
pub open spec fn exits_by<S>(policy: ExitPolicy, d: Decision<S>) -> bool {
    let (cmds, error) = exits_of(
        policy,
        d.seen.snapshot,
        d.seen.marks,
        d.seen.step,
        d.seen.open,
    );
    &&& d.after == d.before
    &&& d.rng_after == d.rng
    &&& d.out_after == d.out + cmds
    &&& error == kind_of(d.error)
}

/// Whether a strategy's `on_end` closes what is left open, and does nothing
/// else.
pub open spec fn ends_flat<S>(d: Decision<S>) -> bool {
    let (cmds, error) = closed_out(d.seen.open, d.seen.pending, d.seen.snapshot, d.out);
    &&& d.after == d.before
    &&& d.rng_after == d.rng
    &&& d.out_after == cmds
    &&& error == kind_of(d.error)
}

/// What a strategy closes by its policy are open legs in whole, behind the
/// commands that stood before; itself and its generator it leaves as they are.
pub proof fn law_exits_only_close<S>(policy: ExitPolicy, d: Decision<S>, i: int)
    requires
        exits_by(policy, d),
    ensures
        d.out.is_prefix_of(d.out_after),
        d.after == d.before,
        d.rng_after == d.rng,
        d.out.len() <= i < d.out_after.len() ==> exists|k: int|
            0 <= k < d.seen.open.len() && undoes(
                d.out_after[i],
                #[trigger] d.seen.open[k],
                d.seen.open[k].quantity.n(),
            ),
{
    if d.out.len() <= i < d.out_after.len() {
        law_exits_trade_against_their_legs(
            policy,
            d.seen.snapshot,
            d.seen.marks,
            d.seen.step,
            d.seen.open,
            i - d.out.len(),
        );
    }
}

/// A strategy that ends flat leaves nothing open that it was shown: with no
/// commands before and none resting it reverses every leg, and itself and its
/// generator it leaves as they are.
pub proof fn law_ending_flat_reverses_every_leg<S>(d: Decision<S>, k: int)
    requires
        ends_flat(d),
        d.out.len() == 0,
        d.seen.pending.len() == 0,
        ids_differ(d.seen.open),
        forall|j: int| 0 <= j < d.seen.open.len() ==> (#[trigger] d.seen.open[j]).quantity.n() > 0,
        0 <= k < d.seen.open.len(),
    ensures
        d.error is None,
        d.after == d.before,
        d.rng_after == d.rng,
        d.out_after.len() == d.seen.open.len(),
        undoes(d.out_after[k], d.seen.open[k], d.seen.open[k].quantity.n()),
{
    assert(d.out =~= Seq::<OrderCommand>::empty());
    assert(d.seen.pending =~= Seq::<PendingOrder>::empty());
    law_end_reverses_every_leg(d.seen.open, d.seen.snapshot);
}

/// Closes come in the order of the legs: one leg more asks for no more than one
/// close more, behind the others.
pub proof fn law_closes_keep_the_legs_order(
    exit: ExitPolicy,
    snapshot: ChainSnapshot,
    marks: Map<KeyView, PriceCents>,
    step: StepIndex,
    open: Seq<OpenPosition>,
    leg: OpenPosition,
    pending: Seq<PendingOrder>,
    cmds: Seq<OrderCommand>,
)
    ensures
        ({
            let fewer = exits_of(exit, snapshot, marks, step, open).0;
            let more = exits_of(exit, snapshot, marks, step, open.push(leg)).0;
            fewer.is_prefix_of(more) && more.len() <= fewer.len() + 1
        }),
        ({
            let fewer = closed_out(open, pending, snapshot, cmds).0;
            let more = closed_out(open.push(leg), pending, snapshot, cmds).0;
            fewer.is_prefix_of(more) && more.len() <= fewer.len() + 1
        }),
{
    assert(open.push(leg).drop_last() =~= open);
}

/// A policy is evaluated for as long as it can be told when each leg expires,
/// and no longer: days that were never resolved cannot be told, nor can an
/// instant that sixty-four bits of nanoseconds do not reach.
pub proof fn law_policy_needs_every_expiration(
    exit: ExitPolicy,
    snapshot: ChainSnapshot,
    marks: Map<KeyView, PriceCents>,
    step: StepIndex,
    open: Seq<OpenPosition>,
)
    ensures
        exits_of(exit, snapshot, marks, step, open).1 is None <==> forall|k: int|
            0 <= k < open.len() ==> days_left_error((#[trigger] open[k]).contract, snapshot.ts) is None,
        forall|k: int|
            0 <= k < open.len() && (#[trigger] open[k]).contract.expiration is Days ==> exits_of(
                exit,
                snapshot,
                marks,
                step,
                open,
            ).1 is Some,
    decreases open.len(),
{
    if open.len() > 0 {
        let front = open.drop_last();
        law_policy_needs_every_expiration(exit, snapshot, marks, step, front);
        assert(open[open.len() - 1] == open.last());
        assert forall|k: int| 0 <= k < front.len() implies #[trigger] front[k] == open[k] by {}
        if forall|k: int|
            0 <= k < front.len() ==> days_left_error((#[trigger] front[k]).contract, snapshot.ts) is None {
            assert forall|k: int| 0 <= k < open.len() - 1 implies days_left_error(
                (#[trigger] open[k]).contract,
                snapshot.ts,
            ) is None by {
                assert(front[k] == open[k]);
            }
        } else {
            let k = choose|k: int|
                0 <= k < front.len() && days_left_error(
                    (#[trigger] front[k]).contract,
                    snapshot.ts,
                ) is Some;
            assert(open[k] == front[k]);
        }
    }
    assert forall|k: int| 0 <= k < open.len() && (#[trigger] open[k]).contract.expiration is Days
        implies exits_of(exit, snapshot, marks, step, open).1 is Some by {
        assert(days_left_error(open[k].contract, snapshot.ts) is Some);
    }
}

/// A leg exits by its days left when no more than the bound are left of it.
pub proof fn law_leg_exits_on_its_days_left(
    snapshot: ChainSnapshot,
    marks: Map<KeyView, PriceCents>,
    step: StepIndex,
    leg: OpenPosition,
    days: Positive,
    bound: Positive,
)
    requires
        is_days_left(days, leg.contract, snapshot.ts),
    ensures
        leg_exits(ExitPolicy::DaysToExpiration(bound), snapshot, marks, step, leg) <==> days@
            <= bound@,
        leg.contract.expiration matches ExpirationDate::DateTime(t) && (days@ == 0
            <==> t.nanos_since_epoch() <= snapshot.ts.0),
{
    days.lemma_of(days.dec());
    crate::domain::decimal::lemma_of_parts(days.dec());
}

} // verus!
