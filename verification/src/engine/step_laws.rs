//! What the commands of a step come to, one by one.
//!
//! Each submitted order takes its own fills and no others, in the order of the
//! commands; what it does not fill rests or is dropped; and the orders that
//! open in one step open one trade.

use crate::domain::{
    OrderCommand, OrderId, OrderIntent, PositionAction, PositionId, Quantity, TradeId,
};
use crate::engine::books::BooksView;
use crate::engine::correlate::{
    carry_total, commanded, fills_due, group_due, group_total, is_end_reason, lifecycle_valid,
    names_resting, remainder_rested, step_applied, submit_total, submitted, CloseReasons,
    StepInputs, WalkView,
};
use crate::engine::exit::ExitReason;
use crate::engine::fills::{aggregate, lemma_quantity_nonnegative, total_quantity};
use crate::engine::position_laws::{
    law_closed_leg_is_logged_as_filled, law_opened_leg_is_what_was_filled,
};
use crate::error::ErrorKind;
use crate::execution::{CarryGroup, FillGroup};
use vstd::prelude::*;

verus! {

/// Why a leg was closed is told by when its close was asked for: by the exit
/// policy first, by the strategy next, and by the end of the tape last.
pub proof fn law_reasons_follow_the_phases(reasons: CloseReasons, idx: int)
    requires
        reasons.exits_end <= reasons.on_end_start,
    ensures
        idx < reasons.exits_end ==> reasons.reason_at(idx) == reasons.policy_reason,
        reasons.exits_end <= idx < reasons.on_end_start ==> reasons.reason_at(idx) is ManualClose,
        reasons.on_end_start <= idx ==> reasons.reason_at(idx) == reasons.end_reason,
{
}

/// What is closed at the end of the tape says so in words of its own.
pub proof fn law_end_of_data_is_told(reason: ExitReason)
    requires
        is_end_reason(reason),
    ensures
        reason matches ExitReason::Other(text) && text@ == seq![
            'e',
            'n',
            'd',
            '_',
            'o',
            'f',
            '_',
            'd',
            'a',
            't',
            'a',
        ],
{
    reveal_strlit("end_of_data");
    assert("end_of_data"@ =~= seq!['e', 'n', 'd', '_', 'o', 'f', '_', 'd', 'a', 't', 'a']);
}

/// How many fills an order takes: one where fills are not grouped, else as many
/// as the group that names its command, and none where the next group names
/// another.
pub proof fn law_groups_say_how_many(groups: Seq<FillGroup>, group: int, idx: int)
    ensures
        fills_due(None, group, idx) == 1,
        !group_due(None, group, idx),
        0 <= group < groups.len() && groups[group].command_index == idx ==> fills_due(
            Some(groups),
            group,
            idx,
        ) == groups[group].fill_count && group_due(Some(groups), group, idx),
        0 <= group < groups.len() && groups[group].command_index != idx ==> fills_due(
            Some(groups),
            group,
            idx,
        ) == 0 && !group_due(Some(groups), group, idx),
        group >= groups.len() ==> fills_due(Some(groups), group, idx) == 0,
{
}

/// What the fills of a step are counted against: the fills of each carry group
/// and each group, or one per submitted order, each counted once.
pub proof fn law_fills_are_counted_once(
    carry: Seq<CarryGroup>,
    c: CarryGroup,
    groups: Seq<FillGroup>,
    g: FillGroup,
    cmds: Seq<OrderCommand>,
    cmd: OrderCommand,
)
    ensures
        carry_total(Seq::empty()) == 0,
        group_total(Seq::empty()) == 0,
        submit_total(Seq::empty()) == 0,
        carry_total(carry.push(c)) == carry_total(carry) + c.fill_count,
        group_total(groups.push(g)) == group_total(groups) + g.fill_count,
        submit_total(cmds.push(cmd)) == submit_total(cmds) + match cmd {
            OrderCommand::Submit(_) => 1int,
            OrderCommand::Cancel(_) => 0int,
            OrderCommand::Replace { .. } => 0int,
        },
{
    assert(carry.push(c).drop_last() =~= carry);
    assert(groups.push(g).drop_last() =~= groups);
    assert(cmds.push(cmd).drop_last() =~= cmds);
}

/// A cancelled order no longer rests; nothing else changes by it, and no fill
/// is taken.
pub proof fn law_cancel_takes_one_order_out(
    w: WalkView,
    inputs: StepInputs,
    idx: int,
    order: OrderId,
    other: u64,
)
    requires
        inputs.cmds[idx] == OrderCommand::Cancel(order),
    ensures
        commanded(w, inputs, idx) matches Ok(after) && {
            &&& !after.books.pending.dom().contains(order.0)
            &&& other != order.0 ==> {
                &&& after.books.pending.dom().contains(other) == w.books.pending.dom().contains(
                    other,
                )
                &&& after.books.pending[other] == w.books.pending[other]
            }
            &&& after.books.ids == w.books.ids
            &&& after.books.inventory == w.books.inventory
            &&& after.books.ledger == w.books.ledger
            &&& after.books.log == w.books.log
            &&& after.books.bundle == w.books.bundle
            &&& after.cursor == w.cursor
            &&& after.group == w.group
            &&& after.ordinal == w.ordinal
            &&& after.trade == w.trade
        },
{
}

/// Replacing an order is cancelling it and then submitting the other.
pub proof fn law_replace_cancels_and_submits(
    w: WalkView,
    inputs: StepInputs,
    idx: int,
    order: OrderId,
    intent: OrderIntent,
    cancelling: StepInputs,
    submitting: StepInputs,
)
    requires
        inputs.cmds[idx] == (OrderCommand::Replace { order_id: order, replacement: intent }),
        cancelling.cmds[idx] == OrderCommand::Cancel(order),
        submitting == (StepInputs { cmds: submitting.cmds, ..inputs }),
        submitting.cmds[idx] == OrderCommand::Submit(intent),
    ensures
        commanded(w, cancelling, idx) matches Ok(mid) && commanded(w, inputs, idx) == commanded(
            mid,
            submitting,
            idx,
        ),
{
}

/// A submitted order that is not filled rests in whole where it may, and is
/// refused where it was to be filled at once. It moves no cash and no leg.
pub proof fn law_unfilled_order_rests_or_is_refused(
    w: WalkView,
    inputs: StepInputs,
    idx: int,
    intent: OrderIntent,
)
    requires
        0 <= w.ordinal < inputs.submit_ids.len(),
        fills_due(inputs.groups, w.group, idx) == 0,
    ensures
        intent.tif is Ioc ==> submitted(w, inputs, idx, intent) == Err::<WalkView, ErrorKind>(
            ErrorKind::Execution,
        ),
        intent.tif is Gtc ==> match submitted(w, inputs, idx, intent) {
            Ok(after) => {
                let order = inputs.submit_ids[w.ordinal];
                let entry = after.books.pending[order.0];
                &&& after.books.pending.dom().contains(order.0)
                &&& entry.pending.order_id == order
                &&& entry.pending.intent == intent
                &&& entry.position_id is None
                &&& entry.fills_so_far == 0
                &&& intent.action is Open ==> entry.trade_id == after.trade && after.trade is Some
                    && entry.reason is None
                &&& intent.action is Close ==> entry.trade_id is None && entry.reason == Some(
                    inputs.reasons.reason_at(idx),
                ) && after.trade == w.trade
                &&& after.books.inventory == w.books.inventory
                &&& after.books.ledger == w.books.ledger
                &&& after.books.log == w.books.log
                &&& after.books.bundle == w.books.bundle
                &&& after.cursor == w.cursor
                &&& after.ordinal == w.ordinal + 1
            },
            Err(kind) => intent.action is Open && w.trade is None && w.books.ids.trade == u64::MAX
                && kind == ErrorKind::ArithmeticOverflow,
        },
{
    intent.quantity.lemma_of();
}

/// A submitted order takes as many fills as are due to it off the front of what
/// is left, and the next order id. An order that opens leaves a trade behind
/// that later opens of the step share.
pub proof fn law_order_takes_its_own_fills(
    w: WalkView,
    inputs: StepInputs,
    idx: int,
    intent: OrderIntent,
)
    ensures
        submitted(w, inputs, idx, intent) matches Ok(after) ==> {
            let due = fills_due(inputs.groups, w.group, idx);
            &&& after.cursor == w.cursor + due
            &&& after.cursor <= inputs.fills.len() || due == 0
            &&& after.ordinal == w.ordinal + 1
            &&& w.ordinal < inputs.submit_ids.len()
            &&& after.group == w.group + if group_due(inputs.groups, w.group, idx) {
                1int
            } else {
                0int
            }
            &&& intent.action is Open ==> after.trade is Some
            &&& intent.action is Close ==> after.trade == w.trade
            &&& w.trade is Some ==> after.trade == w.trade && after.books.ids.trade
                == w.books.ids.trade
            &&& w.trade is None && intent.action is Open ==> after.trade == Some(
                TradeId(w.books.ids.trade),
            ) && after.books.ids.trade == w.books.ids.trade + 1
        },
{
}

/// What a filled order does not fill rests where the order may rest, under its
/// own id and with what is left of it, and is dropped where it may not.
pub proof fn law_remainder_rests_or_is_dropped(
    w: WalkView,
    order: OrderId,
    intent: OrderIntent,
    filled: int,
    produced: int,
    trade: Option<TradeId>,
    position: Option<PositionId>,
    reason: Option<ExitReason>,
    other: u64,
)
    requires
        filled > 0,
        0 < produced <= u32::MAX,
    ensures
        remainder_rested(
            w,
            order,
            intent,
            filled,
            produced,
            trade,
            position,
            reason,
        ) matches Ok(after) && {
            let entry = after.books.pending[order.0];
            let left = intent.quantity.n() - filled;
            &&& intent.tif is Ioc || left <= 0 ==> after == w
            &&& intent.tif is Gtc && left > 0 ==> {
                &&& after.books.pending.dom().contains(order.0)
                &&& entry.pending.order_id == order
                &&& entry.pending.intent.quantity.n() == left
                &&& entry.pending.intent.contract == intent.contract
                &&& entry.pending.intent.action == intent.action
                &&& entry.pending.intent.side == intent.side
                &&& entry.pending.intent.limit == intent.limit
                &&& entry.pending.intent.tif == intent.tif
                &&& entry.pending.intent.decision_mid == intent.decision_mid
                &&& entry.trade_id == trade
                &&& entry.position_id == position
                &&& entry.fills_so_far == produced
                &&& entry.reason == reason
            }
            &&& other != order.0 ==> {
                &&& after.books.pending.dom().contains(other) == w.books.pending.dom().contains(
                    other,
                )
                &&& after.books.pending[other] == w.books.pending[other]
            }
            &&& after.books.inventory == w.books.inventory
            &&& after.books.ledger == w.books.ledger
            &&& after.books.log == w.books.log
            &&& after.books.bundle == w.books.bundle
            &&& after.books.ids == w.books.ids
        },
{
    intent.quantity.lemma_of();
    if filled <= intent.quantity.n() {
        Quantity::lemma_n(intent.quantity.n() - filled);
    }
}

/// A filled order that opens adds one leg under the next id, of what it filled
/// and on the side of its fills; one that closes takes what it filled off its
/// leg and logs it with the reason of its command. What it did not fill rests
/// where it may.
pub proof fn law_filled_order_moves_one_leg(
    w: WalkView,
    inputs: StepInputs,
    idx: int,
    intent: OrderIntent,
)
    requires
        0 <= w.cursor,
        fills_due(inputs.groups, w.group, idx) > 0,
    ensures
        submitted(w, inputs, idx, intent) matches Ok(after) ==> {
            let run = inputs.fills.subrange(
                w.cursor,
                w.cursor + fills_due(inputs.groups, w.group, idx),
            );
            let leg = after.books.inventory.last();
            let closed = after.books.log.closed.last();
            let order = inputs.submit_ids[w.ordinal];
            let rests = intent.tif is Gtc && total_quantity(run) < intent.quantity.n();
            let entry = after.books.pending[order.0];
            &&& !rests ==> after.books.pending == w.books.pending
            &&& rests ==> {
                &&& after.books.pending.dom().contains(order.0)
                &&& entry.pending.order_id == order
                &&& entry.pending.intent.quantity.n() == intent.quantity.n() - total_quantity(run)
                &&& entry.fills_so_far == run.len()
                &&& intent.action is Open ==> entry.position_id == Some(
                    PositionId(w.books.ids.position),
                ) && entry.trade_id == after.trade && entry.reason is None
                &&& intent.action is Close ==> entry.position_id is None && entry.trade_id is None
                    && entry.reason == Some(inputs.reasons.reason_at(idx))
            }
            &&& match intent.action {
                PositionAction::Open => {
                    &&& after.books.inventory.drop_last() == w.books.inventory
                    &&& after.books.inventory.len() == w.books.inventory.len() + 1
                    &&& leg.position_id.0 == w.books.ids.position
                    &&& leg.contract == run[0].contract
                    &&& leg.side == run[0].side
                    &&& leg.quantity.n() == total_quantity(run)
                    &&& after.books.ids.position == w.books.ids.position + 1
                    &&& after.books.log.closed == w.books.log.closed
                },
                PositionAction::Close(position) => {
                    &&& after.books.ids == w.books.ids
                    &&& after.books.log.closed.drop_last() == w.books.log.closed
                    &&& closed.position_id == position
                    &&& closed.quantity.n() == total_quantity(run)
                    &&& closed.exit_ts == inputs.snapshot.ts.0
                    &&& closed.exit_reason == inputs.reasons.reason_at(idx)
                },
            }
        },
{
    let due = fills_due(inputs.groups, w.group, idx);
    let run = inputs.fills.subrange(w.cursor, w.cursor + due);
    if submitted(w, inputs, idx, intent) is Ok {
        let order = inputs.submit_ids[w.ordinal];
        let agg = aggregate(run)->Ok_0;
        lemma_quantity_nonnegative(run);
        Quantity::lemma_n(total_quantity(run));
        intent.quantity.lemma_of();
        if total_quantity(run) <= intent.quantity.n() {
            Quantity::lemma_n(intent.quantity.n() - total_quantity(run));
        }
        match intent.action {
            PositionAction::Open => {
                let (trade, ids) = crate::engine::books::trade_for(w.trade, w.books.ids)->Ok_0;
                law_opened_leg_is_what_was_filled(
                    BooksView {
                        ids: crate::engine::books::IdCounters {
                            position: (ids.position + 1) as u64,
                            ..ids
                        },
                        ..w.books
                    },
                    order.0,
                    trade,
                    PositionId(ids.position),
                    run,
                    agg,
                    inputs.snapshot,
                    0,
                );
            },
            PositionAction::Close(position) => {
                law_closed_leg_is_logged_as_filled(
                    w.books,
                    order.0,
                    position,
                    run,
                    agg,
                    inputs.snapshot,
                    0,
                    inputs.reasons.reason_at(idx),
                );
            },
        }
    }
}

/// What a step is refused for before any of it counts: a command that names an
/// order that does not rest, carried fills that come without groups, and fills
/// that are not as many as the groups and commands account for.
pub proof fn law_inconsistent_steps_are_refused(
    b: BooksView,
    inputs: StepInputs,
    carry: Seq<CarryGroup>,
    i: int,
)
    requires
        0 <= i < inputs.cmds.len(),
    ensures
        inputs.cmds[i] matches OrderCommand::Cancel(order) && !b.pending.dom().contains(order.0)
            ==> step_applied(b, inputs, carry) == Err::<BooksView, ErrorKind>(ErrorKind::Execution),
        inputs.cmds[i] matches OrderCommand::Replace { order_id, .. } && !b.pending.dom().contains(
            order_id.0,
        ) ==> step_applied(b, inputs, carry) == Err::<BooksView, ErrorKind>(ErrorKind::Execution),
        inputs.groups is None && carry.len() > 0 ==> step_applied(b, inputs, carry) == Err::<
            BooksView,
            ErrorKind,
        >(ErrorKind::Execution),
        inputs.groups is None && inputs.fills.len() != submit_total(inputs.cmds) ==> step_applied(
            b,
            inputs,
            carry,
        ) is Err,
        inputs.groups matches Some(groups) && inputs.fills.len() != carry_total(carry)
            + group_total(groups) ==> step_applied(b, inputs, carry) is Err,
{
    if inputs.cmds[i] is Cancel || inputs.cmds[i] is Replace {
        if !names_resting(b.pending, inputs.cmds[i]) {
            assert(!lifecycle_valid(b.pending, inputs.cmds));
        }
    }
}

} // verus!
