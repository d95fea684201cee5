//! What opening, growing and closing a leg writes into the books.
//!
//! The inventory, the trade log and the fill stream are told the same of a
//! leg: its contract and side from its first fill, its size and entry from all
//! of them, and its ids from the order that filled.

use crate::domain::decimal::{half_even, law_rounding_is_to_the_nearest};
use crate::domain::money::lemma_half_even_bounds;
use crate::domain::{
    ChainSnapshot, Fill, OpenPosition, OrderId, PositionAction, PositionId, Quantity, TradeId,
};
use crate::engine::books::{
    carried, extended, fills_applied, has_leg, is_leg_at, leg_at, leg_closed, leg_extended,
    leg_opened, reduced, still_resting, trade_for, BooksView, IdCounters, PendingEntry,
};
use crate::engine::bundle_collector::{
    bundle_opened, law_terminal_row_ends_its_leg, BundleView, LegMeta,
};
use crate::engine::exit::ExitReason;
use crate::engine::fills::{aggregate, notional, total_quantity, FillAggregate};
use crate::engine::ledger::LedgerView;
use crate::engine::tradelog::{law_close_is_recorded_with_its_leg, law_openings_are_kept};
use crate::error::ErrorKind;
use vstd::prelude::*;

verus! {

/// Whether a run of fills stands at the end of a fill stream, each fill once
/// and in order, under one order, trade and leg, and counted up from a place.
pub open spec fn recorded_run(
    before: BundleView,
    after: BundleView,
    fills: Seq<Fill>,
    order: u64,
    trade: u64,
    position: u64,
    first_seq: int,
) -> bool {
    let n = before.fills.len();
    &&& after.fills.len() == n + fills.len()
    &&& after.fills.take(n as int) == before.fills
    &&& forall|k: int|
        0 <= k < fills.len() ==> {
            let record = #[trigger] after.fills[n + k];
            &&& record.fill == fills[k]
            &&& record.order_id == order
            &&& record.trade_id == trade
            &&& record.position_id == position
            &&& record.fill_seq == first_seq + k
        }
}

/// A run of fills is recorded as it came, and neither rows nor open legs change
/// by it.
pub proof fn law_fills_are_recorded_in_order(
    bundle: BundleView,
    ledger: LedgerView,
    fills: Seq<Fill>,
    order: u64,
    trade: u64,
    position: u64,
    first_seq: int,
    multiplier: int,
)
    requires
        first_seq >= 0,
    ensures
        fills_applied(
            bundle,
            ledger,
            fills,
            order,
            trade,
            position,
            first_seq,
            multiplier,
        ) matches Ok((after, _)) ==> {
            &&& recorded_run(bundle, after, fills, order, trade, position, first_seq)
            &&& after.open_legs == bundle.open_legs
            &&& after.positions == bundle.positions
        },
    decreases fills.len(),
{
    let n = bundle.fills.len() as int;
    if fills.len() == 0 {
        assert(bundle.fills.take(n) =~= bundle.fills);
    } else {
        let front = fills.drop_last();
        law_fills_are_recorded_in_order(
            bundle,
            ledger,
            front,
            order,
            trade,
            position,
            first_seq,
            multiplier,
        );
        match fills_applied(bundle, ledger, fills, order, trade, position, first_seq, multiplier) {
            Err(_) => {},
            Ok((after, _)) => {
                let before = fills_applied(
                    bundle,
                    ledger,
                    front,
                    order,
                    trade,
                    position,
                    first_seq,
                    multiplier,
                )->Ok_0.0;
                assert(after.fills.take(n) =~= before.fills.take(n));
                assert forall|k: int| 0 <= k < fills.len() implies ({
                    let record = #[trigger] after.fills[n + k];
                    &&& record.fill == fills[k]
                    &&& record.order_id == order
                    &&& record.trade_id == trade
                    &&& record.position_id == position
                    &&& record.fill_seq == first_seq + k
                }) by {
                    if k < front.len() {
                        assert(after.fills[n + k] == before.fills[n + k]);
                        assert(front[k] == fills[k]);
                    }
                }
            },
        }
    }
}

/// Whether all the books know a leg alike: the inventory by its contract,
/// side, size and entry, the log and the rows by its trade besides.
pub open spec fn known_alike(b: BooksView, leg: OpenPosition, trade: TradeId) -> bool {
    let id = leg.position_id.0;
    &&& b.log.open.dom().contains(id)
    &&& b.log.open[id].trade_id == trade
    &&& b.log.open[id].contract == leg.contract
    &&& b.log.open[id].side == leg.side
    &&& b.log.open[id].entry_premium == leg.entry_premium
    &&& b.log.open[id].remaining == leg.quantity.n()
    &&& b.bundle.open_legs.dom().contains(id)
    &&& b.bundle.open_legs[id].trade_id == trade
    &&& b.bundle.open_legs[id].entry_premium == leg.entry_premium
    &&& b.bundle.open_legs[id].side == leg.side
}

/// An opened leg is the last of the inventory, holds what was filled on the
/// side and of the contract of the fills, and is known alike to all the books
/// from the time of the snapshot on.
pub proof fn law_opened_leg_is_what_was_filled(
    b: BooksView,
    order: u64,
    trade: TradeId,
    position: PositionId,
    fills: Seq<Fill>,
    agg: FillAggregate,
    snapshot: ChainSnapshot,
    first_seq: int,
)
    requires
        first_seq >= 0,
    ensures
        leg_opened(b, order, trade, position, fills, agg, snapshot, first_seq) matches Ok(after)
            ==> {
            let leg = after.inventory.last();
            &&& after.inventory.len() == b.inventory.len() + 1
            &&& after.inventory.drop_last() == b.inventory
            &&& leg.position_id == position
            &&& leg.contract == fills[0].contract
            &&& leg.side == fills[0].side
            &&& leg.quantity == agg.quantity
            &&& leg.entry_premium == agg.vwap
            &&& known_alike(after, leg, trade)
            &&& after.log.open[position.0].entry_ts == snapshot.ts.0
            &&& after.log.closed == b.log.closed
            &&& recorded_run(b.bundle, after.bundle, fills, order, trade.0, position.0, first_seq)
            &&& after.bundle.positions == b.bundle.positions
            &&& after.ids == b.ids
            &&& after.pending == b.pending
        },
{
    match leg_opened(b, order, trade, position, fills, agg, snapshot, first_seq) {
        Err(_) => {},
        Ok(after) => {
            let opened = bundle_opened(
                b.bundle,
                position.0,
                LegMeta { trade_id: trade, entry_premium: agg.vwap, side: fills[0].side },
            );
            law_fills_are_recorded_in_order(
                opened,
                b.ledger,
                fills,
                order,
                trade.0,
                position.0,
                first_seq,
                snapshot.spec.contract_multiplier as int,
            );
            assert(after.inventory.drop_last() =~= b.inventory);
            agg.quantity.lemma_of();
        },
    }
}

/// A leg that grew holds what it held and what was added, at the average of
/// both to half a cent per contract, and is otherwise what it was; no other leg
/// changes.
pub proof fn law_grown_leg_averages_its_entry(
    inventory: Seq<OpenPosition>,
    id: PositionId,
    fills: Seq<Fill>,
    added: int,
)
    requires
        added > 0,
        notional(fills) >= 0,
    ensures
        match extended(inventory, id, fills, added) {
            Ok(after) => {
                let i = leg_at(inventory, id);
                let (was, is) = (inventory[i], after[i]);
                let paid = was.entry_premium.0 * was.quantity.n() + notional(fills);
                let off = paid - is.entry_premium.0 * is.quantity.n();
                &&& is_leg_at(inventory, id, i)
                &&& after.len() == inventory.len()
                &&& is.quantity.n() == was.quantity.n() + added
                &&& -is.quantity.n() <= 2 * off <= is.quantity.n()
                &&& is.position_id == id
                &&& is.contract == was.contract
                &&& is.side == was.side
                &&& forall|j: int|
                    0 <= j < inventory.len() && j != i ==> #[trigger] after[j] == inventory[j]
            },
            Err(kind) => if has_leg(inventory, id) {
                let was = inventory[leg_at(inventory, id)];
                let total = was.quantity.n() + added;
                &&& kind == ErrorKind::ArithmeticOverflow
                &&& total > 0xffff_ffff || was.entry_premium.0 * was.quantity.n() + notional(fills)
                    > 0xffff_ffff_ffff_ffff * total
            } else {
                kind == ErrorKind::Execution
            },
        },
{
    if has_leg(inventory, id) {
        let i = leg_at(inventory, id);
        assert(is_leg_at(inventory, id, i));
        let was = inventory[i];
        was.quantity.lemma_of();
        let total = was.quantity.n() + added;
        let paid = was.entry_premium.0 * was.quantity.n() + notional(fills);
        assert(paid >= 0) by (nonlinear_arith)
            requires
                paid == was.entry_premium.0 * was.quantity.n() + notional(fills),
                was.entry_premium.0 >= 0,
                was.quantity.n() >= 0,
                notional(fills) >= 0,
        ;
        law_rounding_is_to_the_nearest(paid, total, 0);
        lemma_half_even_bounds(paid, total);
        if total <= u32::MAX {
            Quantity::lemma_n(total);
        }
        if paid <= 0xffff_ffff_ffff_ffff * total {
            lemma_rounds_within(paid, total, 0xffff_ffff_ffff_ffff);
        }
    }
}

/// What lies at or below a whole number rounds to no more than it.
proof fn lemma_rounds_within(n: int, d: int, bound: int)
    requires
        0 <= n <= bound * d,
        d > 0,
    ensures
        half_even(n, d) <= bound,
{
    law_rounding_is_to_the_nearest(n, d, 0);
    let r = half_even(n, d);
    if r > bound {
        let gap = n - r * d;
        assert(r * d >= bound * d + d) by (nonlinear_arith)
            requires
                r >= bound + 1,
                d > 0,
        ;
    }
}

/// A leg that grew is known with its new entry and size to all the books that
/// knew it, and its fills are recorded behind the earlier ones.
pub proof fn law_grown_leg_is_known_alike(
    b: BooksView,
    order: u64,
    trade: TradeId,
    position: PositionId,
    fills: Seq<Fill>,
    agg: FillAggregate,
    snapshot: ChainSnapshot,
    first_seq: int,
)
    requires
        first_seq >= 0,
        agg.quantity.n() > 0,
        has_leg(b.inventory, position),
        known_alike(b, b.inventory[leg_at(b.inventory, position)], trade),
        fills[0].side == b.inventory[leg_at(b.inventory, position)].side,
    ensures
        leg_extended(b, order, trade, position, fills, agg, snapshot, first_seq) matches Ok(after)
            ==> {
            let i = leg_at(b.inventory, position);
            &&& extended(b.inventory, position, fills, agg.quantity.n()) == Ok::<
                Seq<OpenPosition>,
                ErrorKind,
            >(after.inventory)
            &&& known_alike(after, after.inventory[i], trade)
            &&& after.log.open[position.0].entry_ts == b.log.open[position.0].entry_ts
            &&& after.log.closed == b.log.closed
            &&& recorded_run(b.bundle, after.bundle, fills, order, trade.0, position.0, first_seq)
            &&& after.bundle.positions == b.bundle.positions
            &&& after.ids == b.ids
            &&& after.pending == b.pending
        },
{
    match leg_extended(b, order, trade, position, fills, agg, snapshot, first_seq) {
        Err(_) => {},
        Ok(after) => {
            let i = leg_at(b.inventory, position);
            assert(is_leg_at(b.inventory, position, i));
            let entry = after.inventory[i].entry_premium;
            let was = b.inventory[i];
            was.quantity.lemma_of();
            Quantity::lemma_n(was.quantity.n() + agg.quantity.n());
            law_openings_are_kept(
                b.log,
                position.0,
                b.log.open[position.0],
                agg.quantity.n(),
                entry,
            );
            let opened = bundle_opened(
                b.bundle,
                position.0,
                LegMeta { trade_id: trade, entry_premium: entry, side: fills[0].side },
            );
            law_fills_are_recorded_in_order(
                opened,
                b.ledger,
                fills,
                order,
                trade.0,
                position.0,
                first_seq,
                snapshot.spec.contract_multiplier as int,
            );
        },
    }
}

/// A close leaves every other leg alone, in its order, and of the leg that it
/// closes in part everything but its size.
pub proof fn law_close_leaves_other_legs(
    inventory: Seq<OpenPosition>,
    id: PositionId,
    quantity: int,
    j: int,
)
    requires
        quantity > 0,
        0 <= j < inventory.len(),
        inventory[j].quantity.n() > 0,
    ensures
        reduced(inventory, id, quantity) matches Ok((after, full)) ==> {
            let i = leg_at(inventory, id);
            &&& is_leg_at(inventory, id, i)
            &&& full ==> after.len() == inventory.len() - 1
            &&& !full ==> after.len() == inventory.len()
            &&& j < i ==> after[j] == inventory[j]
            &&& j > i && full ==> after[j - 1] == inventory[j]
            &&& j > i && !full ==> after[j] == inventory[j]
            &&& j == i && !full ==> {
                &&& after[j].position_id == id
                &&& after[j].contract == inventory[j].contract
                &&& after[j].side == inventory[j].side
                &&& after[j].entry_premium == inventory[j].entry_premium
                &&& after[j].quantity.n() + quantity == inventory[j].quantity.n()
            }
        },
{
    if has_leg(inventory, id) {
        let i = leg_at(inventory, id);
        assert(is_leg_at(inventory, id, i));
        inventory[i].quantity.lemma_of();
        let rest = inventory[i].quantity.n() - quantity;
        if 0 <= rest {
            Quantity::lemma_n(rest);
        }
    }
}

/// A closed leg is logged at the average price, the fees and the slippage of
/// its fills, at the time of the snapshot and with its reason; the last of its
/// contracts takes it out of the inventory and leaves its terminal row, and any
/// before leave no row.
pub proof fn law_closed_leg_is_logged_as_filled(
    b: BooksView,
    order: u64,
    position: PositionId,
    fills: Seq<Fill>,
    agg: FillAggregate,
    snapshot: ChainSnapshot,
    first_seq: int,
    reason: ExitReason,
)
    requires
        first_seq >= 0,
    ensures
        leg_closed(b, order, position, fills, agg, snapshot, first_seq, reason) matches Ok(after)
            ==> {
            let i = leg_at(b.inventory, position);
            let trade = after.log.closed.last();
            let full = agg.quantity.n() == b.inventory[i].quantity.n();
            let row = after.bundle.positions.last();
            &&& is_leg_at(b.inventory, position, i)
            &&& agg.quantity.n() <= b.inventory[i].quantity.n()
            &&& after.log.closed.drop_last() == b.log.closed
            &&& trade.position_id == position
            &&& trade.quantity == agg.quantity
            &&& trade.exit_price == agg.vwap
            &&& trade.close_fees == agg.fees
            &&& trade.close_slippage == agg.slippage
            &&& trade.exit_ts == snapshot.ts.0
            &&& trade.contract_multiplier == snapshot.spec.contract_multiplier
            &&& trade.exit_reason == reason
            &&& b.bundle.open_legs.dom().contains(position.0)
            &&& recorded_run(
                b.bundle,
                after.bundle,
                fills,
                order,
                b.bundle.open_legs[position.0].trade_id.0,
                position.0,
                first_seq,
            )
            &&& full ==> {
                &&& after.inventory == b.inventory.remove(i)
                &&& !after.bundle.open_legs.dom().contains(position.0)
                &&& after.bundle.positions.drop_last() == b.bundle.positions
                &&& after.bundle.positions.len() == b.bundle.positions.len() + 1
                &&& row.position_id == position.0
                &&& row.contract == fills[0].contract
                &&& row.step == fills[0].step.0
                &&& row.ts_ns == fills[0].ts.0
                &&& row.quantity == agg.quantity.n()
                &&& row.exit_reason == Some(reason)
                &&& row.stale_mark == !snapshot.quotes@.dom().contains(fills[0].contract@)
                &&& !row.stale_mark ==> row.mark_cents
                    == snapshot.quotes@[fills[0].contract@].mid.0
            }
            &&& !full ==> {
                &&& after.inventory.len() == b.inventory.len()
                &&& after.bundle.open_legs == b.bundle.open_legs
                &&& after.bundle.positions == b.bundle.positions
            }
            &&& after.ids == b.ids
            &&& after.pending == b.pending
        },
{
    match leg_closed(b, order, position, fills, agg, snapshot, first_seq, reason) {
        Err(_) => {},
        Ok(after) => {
            let i = leg_at(b.inventory, position);
            assert(is_leg_at(b.inventory, position, i));
            agg.quantity.lemma_of();
            let close = crate::engine::books::close_event(position, agg, snapshot, reason);
            law_close_is_recorded_with_its_leg(b.log, close);
            let trade = b.bundle.open_legs[position.0].trade_id.0;
            let m = snapshot.spec.contract_multiplier as int;
            law_fills_are_recorded_in_order(
                b.bundle,
                b.ledger,
                fills,
                order,
                trade,
                position.0,
                first_seq,
                m,
            );
            if agg.quantity.n() == b.inventory[i].quantity.n() {
                let mid = fills_applied(
                    b.bundle,
                    b.ledger,
                    fills,
                    order,
                    trade,
                    position.0,
                    first_seq,
                    m,
                )->Ok_0.0;
                let event = crate::engine::books::terminal_event(
                    position,
                    fills[0],
                    agg,
                    snapshot,
                    reason,
                );
                law_terminal_row_ends_its_leg(mid, event);
            }
        },
    }
}

/// A trade that is already there is kept and costs no id; a new one takes the
/// next id, which is then spent.
pub proof fn law_trades_are_counted_up(existing: Option<TradeId>, ids: IdCounters)
    ensures
        match trade_for(existing, ids) {
            Ok((trade, after)) => {
                &&& existing matches Some(known) ==> trade == known && after == ids
                &&& existing is None ==> trade.0 == ids.trade && after.trade == ids.trade + 1
                &&& after.position == ids.position
                &&& after.order == ids.order
            },
            Err(kind) => existing is None && ids.trade == u64::MAX && kind
                == ErrorKind::ArithmeticOverflow,
        },
{
}

/// A resting order keeps resting with what was not filled and is gone once
/// nothing is left; it never fills more than it rests with. All else that is
/// known of the order stays.
pub proof fn law_resting_order_shrinks_by_its_fills(
    entry: PendingEntry,
    trade: Option<TradeId>,
    position: Option<PositionId>,
    produced: int,
    filled: int,
)
    requires
        filled > 0,
        produced > 0,
    ensures
        ({
            let size = entry.pending.intent.quantity.n();
            match still_resting(entry, trade, position, produced, filled) {
                Ok(Some(rest)) => {
                    let (was, is) = (entry.pending.intent, rest.pending.intent);
                    &&& filled < size
                    &&& is.quantity.n() == size - filled
                    &&& is.contract == was.contract
                    &&& is.action == was.action
                    &&& is.side == was.side
                    &&& is.limit == was.limit
                    &&& is.tif == was.tif
                    &&& is.decision_mid == was.decision_mid
                    &&& rest.pending.order_id == entry.pending.order_id
                    &&& rest.trade_id == trade
                    &&& rest.position_id == position
                    &&& rest.fills_so_far == entry.fills_so_far + produced
                    &&& rest.reason == entry.reason
                },
                Ok(None) => filled == size,
                Err(kind) => {
                    ||| kind == ErrorKind::Execution && filled > size
                    ||| kind == ErrorKind::ArithmeticOverflow && entry.fills_so_far + produced
                        > 0xffff_ffff
                },
            }
        }),
{
    let size = entry.pending.intent.quantity.n();
    entry.pending.intent.quantity.lemma_of();
    if filled <= size {
        Quantity::lemma_n(size - filled);
    }
}

/// The fills of a resting order touch no other resting order, and of their own
/// leave what was not filled; fills of an order that does not rest are refused.
pub proof fn law_carried_fills_settle_their_order(
    b: BooksView,
    order: OrderId,
    fills: Seq<Fill>,
    snapshot: ChainSnapshot,
    other: u64,
)
    ensures
        !b.pending.dom().contains(order.0) ==> carried(b, order, fills, snapshot) == Err::<
            BooksView,
            ErrorKind,
        >(ErrorKind::Execution),
        carried(b, order, fills, snapshot) matches Ok(after) ==> {
            let entry = b.pending[order.0];
            let left = entry.pending.intent.quantity.n() - total_quantity(fills);
            &&& b.pending.dom().contains(order.0)
            &&& left >= 0
            &&& after.pending.dom().contains(order.0) <==> left > 0
            &&& left > 0 ==> after.pending[order.0].pending.intent.quantity.n() == left
                && after.pending[order.0].fills_so_far == entry.fills_so_far + fills.len()
            &&& other != order.0 ==> {
                &&& after.pending.dom().contains(other) == b.pending.dom().contains(other)
                &&& after.pending[other] == b.pending[other]
            }
        },
{
    if b.pending.dom().contains(order.0) && aggregate(fills) is Ok {
        let entry = b.pending[order.0];
        let agg = aggregate(fills)->Ok_0;
        entry.pending.intent.quantity.lemma_of();
        crate::engine::fills::lemma_quantity_nonnegative(fills);
        Quantity::lemma_n(total_quantity(fills));
        let left = entry.pending.intent.quantity.n() - total_quantity(fills);
        if left >= 0 {
            Quantity::lemma_n(left);
        }
    }
}

/// A resting order that opens builds one leg: its first fills open it under
/// the next id, and later ones grow that same leg.
pub proof fn law_resting_open_builds_one_leg(
    b: BooksView,
    order: OrderId,
    fills: Seq<Fill>,
    snapshot: ChainSnapshot,
)
    requires
        b.pending.dom().contains(order.0),
        b.pending[order.0].pending.intent.action is Open,
    ensures
        carried(b, order, fills, snapshot) matches Ok(after) ==> {
            let entry = b.pending[order.0];
            match entry.position_id {
                None => {
                    &&& after.inventory.len() == b.inventory.len() + 1
                    &&& after.inventory.last().position_id.0 == b.ids.position
                    &&& after.inventory.last().quantity.n() == total_quantity(fills)
                    &&& after.inventory.last().side == fills[0].side
                    &&& after.ids.position == b.ids.position + 1
                    &&& after.pending.dom().contains(order.0) ==> after.pending[order.0].position_id
                        == Some(PositionId(b.ids.position))
                },
                Some(position) => {
                    let i = leg_at(b.inventory, position);
                    &&& has_leg(b.inventory, position)
                    &&& after.inventory.len() == b.inventory.len()
                    &&& after.inventory[i].quantity.n() == b.inventory[i].quantity.n()
                        + total_quantity(fills)
                    &&& after.ids.position == b.ids.position
                    &&& after.pending.dom().contains(order.0) ==> after.pending[order.0].position_id
                        == Some(position)
                },
            }
        },
{
    if aggregate(fills) is Ok {
        let entry = b.pending[order.0];
        crate::engine::fills::lemma_quantity_nonnegative(fills);
        Quantity::lemma_n(total_quantity(fills));
        match entry.position_id {
            None => {},
            Some(position) => {
                if has_leg(b.inventory, position) {
                    let i = leg_at(b.inventory, position);
                    assert(is_leg_at(b.inventory, position, i));
                    b.inventory[i].quantity.lemma_of();
                    let total = b.inventory[i].quantity.n() + total_quantity(fills);
                    if total <= u32::MAX {
                        Quantity::lemma_n(total);
                    }
                }
            },
        }
    }
}

/// A resting order that closes logs its fills under the reason it was given
/// when it came to rest, and without one as the strategy's own.
pub proof fn law_resting_close_keeps_its_reason(
    b: BooksView,
    order: OrderId,
    fills: Seq<Fill>,
    snapshot: ChainSnapshot,
)
    requires
        b.pending.dom().contains(order.0),
        b.pending[order.0].pending.intent.action is Close,
    ensures
        carried(b, order, fills, snapshot) matches Ok(after) ==> {
            let entry = b.pending[order.0];
            let trade = after.log.closed.last();
            &&& entry.pending.intent.action == PositionAction::Close(trade.position_id)
            &&& trade.quantity.n() == total_quantity(fills)
            &&& entry.reason matches Some(reason) ==> trade.exit_reason == reason
            &&& entry.reason is None ==> trade.exit_reason is ManualClose
            &&& after.ids == b.ids
        },
{
    if carried(b, order, fills, snapshot) is Ok {
        let entry = b.pending[order.0];
        let agg = aggregate(fills)->Ok_0;
        crate::engine::fills::lemma_quantity_nonnegative(fills);
        Quantity::lemma_n(total_quantity(fills));
        match entry.pending.intent.action {
            PositionAction::Open => {},
            PositionAction::Close(position) => {
                law_closed_leg_is_logged_as_filled(
                    b,
                    order.0,
                    position,
                    fills,
                    agg,
                    snapshot,
                    entry.fills_so_far as int,
                    crate::engine::books::resting_reason(entry),
                );
            },
        }
    }
}

} // verus!
