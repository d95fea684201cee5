//! What every step keeps of the books.
//!
//! Each fill of a step is recorded once and moves cash once, in the order of
//! the fills. Legs stand in the order in which they were opened, under ids
//! that only go up, and none of them is empty.

use crate::domain::{ChainSnapshot, Fill, OpenPosition, OrderId, OrderIntent, PositionId, TradeId};
use crate::domain::money::{fits_i64, Quantity};
use crate::engine::books::{
    carried, extended, fills_applied, has_leg, is_leg_at, leg_at, leg_closed, leg_extended,
    leg_opened, reduced, trade_for, BooksView, IdCounters,
};
use crate::engine::bundle_collector::{BundleView, FillRecord};
use crate::engine::correlate::{
    carry_applied, carry_total, dropped, fills_due, step_applied, submitted, walked, StepInputs,
    WalkView,
};
use crate::engine::exit::ExitReason;
use crate::engine::fills::{aggregate, fees_of, slippages_of, FillAggregate};
use crate::engine::ledger::{cash_flow, LedgerView};
use crate::error::ErrorKind;
use crate::execution::CarryGroup;
use vstd::prelude::*;

verus! {

/// The fills that were recorded so far.
pub open spec fn stream(bundle: BundleView) -> Seq<Fill> {
    bundle.fills.map_values(|record: FillRecord| record.fill)
}

/// What some fills do to cash.
pub open spec fn flow_total(fills: Seq<Fill>, multiplier: int) -> int
    decreases fills.len(),
{
    if fills.len() == 0 {
        0
    } else {
        flow_total(fills.drop_last(), multiplier) + cash_flow(fills.last(), multiplier)
    }
}

/// Whether the books moved by some fills and no others: each was recorded,
/// moved cash, and left its slippage and its fees; marks and peaks were left
/// alone, and cash stayed in range.
pub open spec fn moved_by(
    bundle: BundleView,
    ledger: LedgerView,
    bundle2: BundleView,
    ledger2: LedgerView,
    fills: Seq<Fill>,
    multiplier: int,
) -> bool {
    &&& stream(bundle2) == stream(bundle) + fills
    &&& ledger2.cash == ledger.cash + flow_total(fills, multiplier)
    &&& ledger2.slippages == ledger.slippages + slippages_of(fills)
    &&& ledger2.fee_entries == ledger.fee_entries + fees_of(fills)
    &&& ledger2.peak == ledger.peak
    &&& ledger2.marks == ledger.marks
    &&& ledger2.greeks == ledger.greeks
    &&& ledger2.prior_equity == ledger.prior_equity
    &&& fits_i64(ledger.cash) ==> fits_i64(ledger2.cash)
}

/// Whether the books of a step moved by some fills and no others.
pub open spec fn books_moved_by(b: BooksView, b2: BooksView, fills: Seq<Fill>, m: int) -> bool {
    moved_by(b.bundle, b.ledger, b2.bundle, b2.ledger, fills, m)
}

/// No fills move nothing.
proof fn lemma_not_moved(b: BooksView, b2: BooksView, m: int)
    requires
        b2.bundle.fills == b.bundle.fills,
        b2.ledger == b.ledger,
    ensures
        books_moved_by(b, b2, Seq::<Fill>::empty(), m),
{
    let none = Seq::<Fill>::empty();
    assert(stream(b.bundle) + none =~= stream(b.bundle));
    assert(slippages_of(none) =~= Seq::empty());
    assert(fees_of(none) =~= Seq::empty());
    assert(b.ledger.slippages + slippages_of(none) =~= b.ledger.slippages);
    assert(b.ledger.fee_entries + fees_of(none) =~= b.ledger.fee_entries);
}

/// The cash of two runs of fills is the cash of both together.
proof fn lemma_flow_total_adds(f: Seq<Fill>, g: Seq<Fill>, m: int)
    ensures
        flow_total(f + g, m) == flow_total(f, m) + flow_total(g, m),
    decreases g.len(),
{
    if g.len() == 0 {
        assert(f + g =~= f);
    } else {
        assert((f + g).drop_last() =~= f + g.drop_last());
        assert((f + g).last() == g.last());
        lemma_flow_total_adds(f, g.drop_last(), m);
    }
}

/// Moving by some fills and then by others is moving by both.
proof fn lemma_moved_on(
    a: BooksView,
    b: BooksView,
    c: BooksView,
    f: Seq<Fill>,
    g: Seq<Fill>,
    m: int,
)
    requires
        books_moved_by(a, b, f, m),
        books_moved_by(b, c, g, m),
    ensures
        books_moved_by(a, c, f + g, m),
{
    lemma_flow_total_adds(f, g, m);
    assert(stream(a.bundle) + f + g =~= stream(a.bundle) + (f + g));
    assert(slippages_of(f + g) =~= slippages_of(f) + slippages_of(g));
    assert(fees_of(f + g) =~= fees_of(f) + fees_of(g));
    assert(a.ledger.slippages + slippages_of(f) + slippages_of(g) =~= a.ledger.slippages
        + slippages_of(f + g));
    assert(a.ledger.fee_entries + fees_of(f) + fees_of(g) =~= a.ledger.fee_entries + fees_of(
        f + g,
    ));
}

/// A run of fills of one order moves by that run.
proof fn lemma_run_moves(
    bundle: BundleView,
    ledger: LedgerView,
    fills: Seq<Fill>,
    order: u64,
    trade: u64,
    position: u64,
    first_seq: int,
    m: int,
)
    ensures
        fills_applied(
            bundle,
            ledger,
            fills,
            order,
            trade,
            position,
            first_seq,
            m,
        ) matches Ok((bundle2, ledger2)) ==> {
            &&& moved_by(bundle, ledger, bundle2, ledger2, fills, m)
            &&& bundle2.open_legs == bundle.open_legs
            &&& bundle2.positions == bundle.positions
        },
    decreases fills.len(),
{
    if fills.len() == 0 {
        assert(fills =~= Seq::<Fill>::empty());
        assert(stream(bundle) + fills =~= stream(bundle));
        assert(slippages_of(fills) =~= Seq::empty());
        assert(fees_of(fills) =~= Seq::empty());
        assert(ledger.slippages + slippages_of(fills) =~= ledger.slippages);
        assert(ledger.fee_entries + fees_of(fills) =~= ledger.fee_entries);
    } else {
        let front = fills.drop_last();
        lemma_run_moves(bundle, ledger, front, order, trade, position, first_seq, m);
        match fills_applied(bundle, ledger, front, order, trade, position, first_seq, m) {
            Err(_) => {},
            Ok((b, l)) => {
                match fills_applied(bundle, ledger, fills, order, trade, position, first_seq, m) {
                    Err(_) => {},
                    Ok((b2, l2)) => {
                        assert(stream(b2) =~= stream(b).push(fills.last()));
                        assert(stream(bundle) + front.push(fills.last()) =~= (stream(bundle)
                            + front).push(fills.last()));
                        assert(front.push(fills.last()) =~= fills);
                        assert(slippages_of(fills) =~= slippages_of(front).push(
                            fills.last().slippage,
                        ));
                        assert(fees_of(fills) =~= fees_of(front).push(fills.last().fees));
                        assert(l2.slippages =~= ledger.slippages + slippages_of(fills));
                        assert(l2.fee_entries =~= ledger.fee_entries + fees_of(fills));
                    },
                }
            },
        }
    }
}

/// Opening a leg moves by its fills.
proof fn lemma_open_moves(
    b: BooksView,
    order: u64,
    trade: TradeId,
    position: PositionId,
    fills: Seq<Fill>,
    agg: FillAggregate,
    snapshot: ChainSnapshot,
    first_seq: int,
)
    ensures
        leg_opened(b, order, trade, position, fills, agg, snapshot, first_seq) matches Ok(b2)
            ==> books_moved_by(b, b2, fills, snapshot.spec.contract_multiplier as int),
{
    let opened = crate::engine::bundle_collector::bundle_opened(
        b.bundle,
        position.0,
        crate::engine::bundle_collector::LegMeta {
            trade_id: trade,
            entry_premium: agg.vwap,
            side: fills[0].side,
        },
    );
    lemma_run_moves(
        opened,
        b.ledger,
        fills,
        order,
        trade.0,
        position.0,
        first_seq,
        snapshot.spec.contract_multiplier as int,
    );
}

/// Growing a leg moves by its fills.
proof fn lemma_extend_moves(
    b: BooksView,
    order: u64,
    trade: TradeId,
    position: PositionId,
    fills: Seq<Fill>,
    agg: FillAggregate,
    snapshot: ChainSnapshot,
    first_seq: int,
)
    ensures
        leg_extended(b, order, trade, position, fills, agg, snapshot, first_seq) matches Ok(b2)
            ==> books_moved_by(b, b2, fills, snapshot.spec.contract_multiplier as int),
{
    match extended(b.inventory, position, fills, agg.quantity.n()) {
        Err(_) => {},
        Ok(inventory) => {
            let entry = inventory[leg_at(b.inventory, position)].entry_premium;
            let opened = crate::engine::bundle_collector::bundle_opened(
                b.bundle,
                position.0,
                crate::engine::bundle_collector::LegMeta {
                    trade_id: trade,
                    entry_premium: entry,
                    side: fills[0].side,
                },
            );
            lemma_run_moves(
                opened,
                b.ledger,
                fills,
                order,
                trade.0,
                position.0,
                first_seq,
                snapshot.spec.contract_multiplier as int,
            );
        },
    }
}

/// Closing a leg moves by its fills.
proof fn lemma_close_moves(
    b: BooksView,
    order: u64,
    position: PositionId,
    fills: Seq<Fill>,
    agg: FillAggregate,
    snapshot: ChainSnapshot,
    first_seq: int,
    reason: ExitReason,
)
    ensures
        leg_closed(b, order, position, fills, agg, snapshot, first_seq, reason) matches Ok(b2)
            ==> books_moved_by(b, b2, fills, snapshot.spec.contract_multiplier as int),
{
    lemma_run_moves(
        b.bundle,
        b.ledger,
        fills,
        order,
        b.bundle.open_legs[position.0].trade_id.0,
        position.0,
        first_seq,
        snapshot.spec.contract_multiplier as int,
    );
}

/// The fills of a resting order move the books by themselves.
proof fn lemma_carried_moves(
    b: BooksView,
    order: OrderId,
    fills: Seq<Fill>,
    snapshot: ChainSnapshot,
)
    ensures
        carried(b, order, fills, snapshot) matches Ok(b2) ==> books_moved_by(
            b,
            b2,
            fills,
            snapshot.spec.contract_multiplier as int,
        ),
{
    match aggregate(fills) {
        Err(_) => {},
        Ok(agg) => {
            let entry = b.pending[order.0];
            match entry.pending.intent.action {
                crate::domain::PositionAction::Open => {
                    match trade_for(entry.trade_id, b.ids) {
                        Err(_) => {},
                        Ok((trade, ids)) => {
                            match entry.position_id {
                                Some(position) => {
                                    lemma_extend_moves(
                                        BooksView { ids, ..b },
                                        order.0,
                                        trade,
                                        position,
                                        fills,
                                        agg,
                                        snapshot,
                                        entry.fills_so_far as int,
                                    );
                                },
                                None => {
                                    lemma_open_moves(
                                        BooksView {
                                            ids: IdCounters {
                                                position: (ids.position + 1) as u64,
                                                ..ids
                                            },
                                            ..b
                                        },
                                        order.0,
                                        trade,
                                        PositionId(ids.position),
                                        fills,
                                        agg,
                                        snapshot,
                                        entry.fills_so_far as int,
                                    );
                                },
                            }
                        },
                    }
                },
                crate::domain::PositionAction::Close(position) => {
                    lemma_close_moves(
                        b,
                        order.0,
                        position,
                        fills,
                        agg,
                        snapshot,
                        entry.fills_so_far as int,
                        crate::engine::books::resting_reason(entry),
                    );
                },
            }
        },
    }
}

/// The carry groups move the books by the fills at the front.
proof fn lemma_carry_moves(
    b: BooksView,
    fills: Seq<Fill>,
    carry: Seq<CarryGroup>,
    snapshot: ChainSnapshot,
)
    requires
        0 <= carry_total(carry) <= fills.len(),
    ensures
        carry_applied(b, fills, carry, snapshot) matches Ok(b2) ==> books_moved_by(
            b,
            b2,
            fills.take(carry_total(carry)),
            snapshot.spec.contract_multiplier as int,
        ),
    decreases carry.len(),
{
    let m = snapshot.spec.contract_multiplier as int;
    if carry.len() == 0 {
        lemma_not_moved(b, b, m);
        assert(fills.take(0) =~= Seq::<Fill>::empty());
    } else {
        let front = carry.drop_last();
        crate::engine::correlate::lemma_carry_total_nonnegative(front);
        lemma_carry_moves(b, fills, front, snapshot);
        match carry_applied(b, fills, front, snapshot) {
            Err(_) => {},
            Ok(mid) => {
                let run = fills.subrange(carry_total(front), carry_total(carry));
                lemma_carried_moves(mid, carry.last().order_id, run, snapshot);
                match carried(mid, carry.last().order_id, run, snapshot) {
                    Err(_) => {},
                    Ok(b2) => {
                        lemma_moved_on(b, mid, b2, fills.take(carry_total(front)), run, m);
                        assert(fills.take(carry_total(front)) + run =~= fills.take(
                            carry_total(carry),
                        ));
                    },
                }
            },
        }
    }
}

/// One submitted order moves the books by the fills that it takes.
proof fn lemma_submitted_moves(w: WalkView, inputs: StepInputs, idx: int, intent: OrderIntent)
    requires
        0 <= w.cursor <= inputs.fills.len(),
    ensures
        submitted(w, inputs, idx, intent) matches Ok(w2) ==> {
            &&& w.cursor <= w2.cursor <= inputs.fills.len()
            &&& books_moved_by(
                w.books,
                w2.books,
                inputs.fills.subrange(w.cursor, w2.cursor),
                inputs.snapshot.spec.contract_multiplier as int,
            )
        },
{
    let m = inputs.snapshot.spec.contract_multiplier as int;
    let count = fills_due(inputs.groups, w.group, idx);
    match submitted(w, inputs, idx, intent) {
        Err(_) => {},
        Ok(w2) => {
            let order = inputs.submit_ids[w.ordinal];
            let reason = inputs.reasons.reason_at(idx);
            if count == 0 {
                lemma_not_moved(w.books, w2.books, m);
                assert(inputs.fills.subrange(w.cursor, w.cursor) =~= Seq::<Fill>::empty());
            } else {
                let run = inputs.fills.subrange(w.cursor, w.cursor + count);
                match aggregate(run) {
                    Err(_) => {},
                    Ok(agg) => {
                        match intent.action {
                            crate::domain::PositionAction::Open => {
                                match trade_for(w.trade, w.books.ids) {
                                    Err(_) => {},
                                    Ok((trade, ids)) => {
                                        lemma_open_moves(
                                            BooksView {
                                                ids: IdCounters {
                                                    position: (ids.position + 1) as u64,
                                                    ..ids
                                                },
                                                ..w.books
                                            },
                                            order.0,
                                            trade,
                                            PositionId(ids.position),
                                            run,
                                            agg,
                                            inputs.snapshot,
                                            0,
                                        );
                                    },
                                }
                            },
                            crate::domain::PositionAction::Close(position) => {
                                lemma_close_moves(
                                    w.books,
                                    order.0,
                                    position,
                                    run,
                                    agg,
                                    inputs.snapshot,
                                    0,
                                    reason,
                                );
                            },
                        }
                    },
                }
            }
        },
    }
}

/// The walk moves the books by the fills that it has passed.
proof fn lemma_walk_moves(w: WalkView, inputs: StepInputs, k: int)
    requires
        0 <= w.cursor <= inputs.fills.len(),
        0 <= k <= inputs.cmds.len(),
    ensures
        walked(w, inputs, k) matches Ok(w2) ==> {
            &&& w.cursor <= w2.cursor <= inputs.fills.len()
            &&& books_moved_by(
                w.books,
                w2.books,
                inputs.fills.subrange(w.cursor, w2.cursor),
                inputs.snapshot.spec.contract_multiplier as int,
            )
        },
    decreases k,
{
    let m = inputs.snapshot.spec.contract_multiplier as int;
    if k == 0 {
        lemma_not_moved(w.books, w.books, m);
        assert(inputs.fills.subrange(w.cursor, w.cursor) =~= Seq::<Fill>::empty());
    } else {
        lemma_walk_moves(w, inputs, k - 1);
        match walked(w, inputs, k - 1) {
            Err(_) => {},
            Ok(mid) => {
                match inputs.cmds[k - 1] {
                    crate::domain::OrderCommand::Submit(intent) => {
                        lemma_submitted_moves(mid, inputs, k - 1, intent);
                    },
                    crate::domain::OrderCommand::Cancel(order) => {
                        lemma_not_moved(mid.books, dropped(mid, order).books, m);
                        assert(inputs.fills.subrange(mid.cursor, mid.cursor) =~= Seq::<
                            Fill,
                        >::empty());
                    },
                    crate::domain::OrderCommand::Replace { order_id, replacement } => {
                        lemma_submitted_moves(
                            dropped(mid, order_id),
                            inputs,
                            k - 1,
                            replacement,
                        );
                    },
                }
                match walked(w, inputs, k) {
                    Err(_) => {},
                    Ok(w2) => {
                        let f = inputs.fills.subrange(w.cursor, mid.cursor);
                        let g = inputs.fills.subrange(mid.cursor, w2.cursor);
                        lemma_moved_on(w.books, mid.books, w2.books, f, g, m);
                        assert(f + g =~= inputs.fills.subrange(w.cursor, w2.cursor));
                    },
                }
            },
        }
    }
}

/// Every fill of a step is accounted for, once: the recorded fills are the
/// fills recorded before and the step's fills behind them in their order, and
/// cash moved by the cash flow of each of them. Marks and the peak are left to
/// the settling of the step.
pub proof fn law_each_fill_counts_once(b: BooksView, inputs: StepInputs, carry: Seq<CarryGroup>)
    ensures
        step_applied(b, inputs, carry) matches Ok(b2) ==> books_moved_by(
            b,
            b2,
            inputs.fills,
            inputs.snapshot.spec.contract_multiplier as int,
        ),
{
    let m = inputs.snapshot.spec.contract_multiplier as int;
    match step_applied(b, inputs, carry) {
        Err(_) => {},
        Ok(b2) => {
            crate::engine::correlate::lemma_carry_total_nonnegative(carry);
            crate::engine::correlate::lemma_command_total_nonnegative(inputs);
            let total = carry_total(carry);
            lemma_carry_moves(b, inputs.fills, carry, inputs.snapshot);
            match carry_applied(b, inputs.fills, carry, inputs.snapshot) {
                Err(_) => {},
                Ok(books) => {
                    let w = WalkView { books, cursor: total, group: 0, trade: None, ordinal: 0 };
                    lemma_walk_moves(w, inputs, inputs.cmds.len() as int);
                    let f = inputs.fills.take(total);
                    let g = inputs.fills.subrange(total, inputs.fills.len() as int);
                    lemma_moved_on(b, books, b2, f, g, m);
                    assert(f + g =~= inputs.fills);
                },
            }
        },
    }
}

/// Whether the inventory is in order: the legs stand under increasing ids, all
/// below the next id, and none of them is empty.
pub open spec fn orderly(inventory: Seq<OpenPosition>, next: int) -> bool {
    &&& forall|i: int, j: int|
        #![trigger inventory[i], inventory[j]]
        0 <= i < j < inventory.len() ==> inventory[i].position_id.0 < inventory[j].position_id.0
    &&& forall|i: int|
        0 <= i < inventory.len() ==> (#[trigger] inventory[i]).position_id.0 < next
            && inventory[i].quantity.n() > 0
}

/// Whether the books are in order.
pub open spec fn books_orderly(b: BooksView) -> bool {
    orderly(b.inventory, b.ids.position as int)
}

/// Whether ids only went up.
pub open spec fn ids_went_up(b: BooksView, b2: BooksView) -> bool {
    &&& b.ids.position <= b2.ids.position
    &&& b.ids.trade <= b2.ids.trade
    &&& b.ids.order == b2.ids.order
}

/// A new leg under the next id keeps the inventory in order.
pub proof fn lemma_push_keeps_order(inventory: Seq<OpenPosition>, leg: OpenPosition, next: int)
    requires
        orderly(inventory, next),
        leg.position_id.0 == next,
        leg.quantity.n() > 0,
    ensures
        orderly(inventory.push(leg), next + 1),
{
}

/// A close keeps the inventory in order.
pub proof fn lemma_reduce_keeps_order(
    inventory: Seq<OpenPosition>,
    id: PositionId,
    quantity: int,
    next: int,
)
    requires
        orderly(inventory, next),
        quantity > 0,
    ensures
        reduced(inventory, id, quantity) matches Ok((after, _)) ==> orderly(after, next),
{
    broadcast use Quantity::lemma_n, Quantity::lemma_of;

    match reduced(inventory, id, quantity) {
        Err(_) => {},
        Ok((after, full)) => {
            let k = leg_at(inventory, id);
            assert(is_leg_at(inventory, id, k));
            inventory[k].quantity.lemma_of();
            if full {
                assert forall|i: int, j: int|
                    #![trigger after[i], after[j]]
                    0 <= i < j < after.len() implies after[i].position_id.0
                    < after[j].position_id.0 by {
                    let x = if i < k {
                        i
                    } else {
                        i + 1
                    };
                    let y = if j < k {
                        j
                    } else {
                        j + 1
                    };
                    assert(after[i] == inventory[x]);
                    assert(after[j] == inventory[y]);
                }
                assert forall|i: int| 0 <= i < after.len() implies (
                #[trigger] after[i]).position_id.0 < next && after[i].quantity.n() > 0 by {
                    let x = if i < k {
                        i
                    } else {
                        i + 1
                    };
                    assert(after[i] == inventory[x]);
                }
            } else {
                let rest = inventory[k].quantity.n() - quantity;
                assert(Quantity::of(rest).n() == rest);
                assert forall|i: int| 0 <= i < after.len() implies (
                #[trigger] after[i]).position_id.0 < next && after[i].quantity.n() > 0 by {
                    assert(inventory[i].position_id.0 < next);
                }
            }
        },
    }
}

/// Growing a leg keeps the inventory in order.
pub proof fn lemma_extend_keeps_order(
    inventory: Seq<OpenPosition>,
    id: PositionId,
    fills: Seq<Fill>,
    added: int,
    next: int,
)
    requires
        orderly(inventory, next),
        added > 0,
    ensures
        extended(inventory, id, fills, added) matches Ok(after) ==> orderly(after, next),
{
    match extended(inventory, id, fills, added) {
        Err(_) => {},
        Ok(after) => {
            let k = leg_at(inventory, id);
            assert(is_leg_at(inventory, id, k));
            inventory[k].quantity.lemma_of();
            let total = inventory[k].quantity.n() + added;
            Quantity::lemma_n(total);
            assert forall|i: int| 0 <= i < after.len() implies (#[trigger] after[i]).position_id.0
                < next && after[i].quantity.n() > 0 by {
                assert(inventory[i].position_id.0 < next);
            }
        },
    }
}

/// Fills that come to something come to at least one contract.
pub proof fn lemma_aggregate_is_positive(fills: Seq<Fill>)
    ensures
        aggregate(fills) matches Ok(agg) ==> agg.quantity.n() > 0,
{
    crate::engine::fills::lemma_quantity_nonnegative(fills);
    if aggregate(fills) is Ok {
        Quantity::lemma_n(crate::engine::fills::total_quantity(fills));
    }
}

/// The fills of a resting order keep the books in order.
proof fn lemma_carried_keeps_order(
    b: BooksView,
    order: OrderId,
    fills: Seq<Fill>,
    snapshot: ChainSnapshot,
)
    requires
        books_orderly(b),
    ensures
        carried(b, order, fills, snapshot) matches Ok(b2) ==> books_orderly(b2) && ids_went_up(
            b,
            b2,
        ),
{
    lemma_aggregate_is_positive(fills);
    match carried(b, order, fills, snapshot) {
        Err(_) => {},
        Ok(b2) => {
            let agg = aggregate(fills)->Ok_0;
            let entry = b.pending[order.0];
            match entry.pending.intent.action {
                crate::domain::PositionAction::Open => {
                    let (trade, ids) = trade_for(entry.trade_id, b.ids)->Ok_0;
                    match entry.position_id {
                        Some(position) => {
                            lemma_extend_keeps_order(
                                b.inventory,
                                position,
                                fills,
                                agg.quantity.n(),
                                b.ids.position as int,
                            );
                        },
                        None => {
                            let leg = OpenPosition {
                                position_id: PositionId(ids.position),
                                contract: fills[0].contract,
                                side: fills[0].side,
                                quantity: agg.quantity,
                                entry_premium: agg.vwap,
                            };
                            lemma_push_keeps_order(b.inventory, leg, b.ids.position as int);
                        },
                    }
                },
                crate::domain::PositionAction::Close(position) => {
                    lemma_reduce_keeps_order(
                        b.inventory,
                        position,
                        agg.quantity.n(),
                        b.ids.position as int,
                    );
                },
            }
        },
    }
}

/// The carry groups keep the books in order.
proof fn lemma_carry_keeps_order(
    b: BooksView,
    fills: Seq<Fill>,
    carry: Seq<CarryGroup>,
    snapshot: ChainSnapshot,
)
    requires
        books_orderly(b),
    ensures
        carry_applied(b, fills, carry, snapshot) matches Ok(b2) ==> books_orderly(b2)
            && ids_went_up(b, b2),
    decreases carry.len(),
{
    if carry.len() > 0 {
        let front = carry.drop_last();
        lemma_carry_keeps_order(b, fills, front, snapshot);
        match carry_applied(b, fills, front, snapshot) {
            Err(_) => {},
            Ok(mid) => {
                lemma_carried_keeps_order(
                    mid,
                    carry.last().order_id,
                    fills.subrange(carry_total(front), carry_total(carry)),
                    snapshot,
                );
            },
        }
    }
}

/// One submitted order keeps the books in order.
proof fn lemma_submitted_keeps_order(
    w: WalkView,
    inputs: StepInputs,
    idx: int,
    intent: OrderIntent,
)
    requires
        books_orderly(w.books),
    ensures
        submitted(w, inputs, idx, intent) matches Ok(w2) ==> books_orderly(w2.books)
            && ids_went_up(w.books, w2.books),
{
    let count = fills_due(inputs.groups, w.group, idx);
    let run = inputs.fills.subrange(w.cursor, w.cursor + count);
    lemma_aggregate_is_positive(run);
    match submitted(w, inputs, idx, intent) {
        Err(_) => {},
        Ok(w2) => {
            if count != 0 {
                let agg = aggregate(run)->Ok_0;
                match intent.action {
                    crate::domain::PositionAction::Open => {
                        let (trade, ids) = trade_for(w.trade, w.books.ids)->Ok_0;
                        let leg = OpenPosition {
                            position_id: PositionId(ids.position),
                            contract: run[0].contract,
                            side: run[0].side,
                            quantity: agg.quantity,
                            entry_premium: agg.vwap,
                        };
                        lemma_push_keeps_order(w.books.inventory, leg, w.books.ids.position as int);
                    },
                    crate::domain::PositionAction::Close(position) => {
                        lemma_reduce_keeps_order(
                            w.books.inventory,
                            position,
                            agg.quantity.n(),
                            w.books.ids.position as int,
                        );
                    },
                }
            }
        },
    }
}

/// The walk keeps the books in order.
proof fn lemma_walk_keeps_order(w: WalkView, inputs: StepInputs, k: int)
    requires
        books_orderly(w.books),
        0 <= k <= inputs.cmds.len(),
    ensures
        walked(w, inputs, k) matches Ok(w2) ==> books_orderly(w2.books) && ids_went_up(
            w.books,
            w2.books,
        ),
    decreases k,
{
    if k > 0 {
        lemma_walk_keeps_order(w, inputs, k - 1);
        match walked(w, inputs, k - 1) {
            Err(_) => {},
            Ok(mid) => {
                match inputs.cmds[k - 1] {
                    crate::domain::OrderCommand::Submit(intent) => {
                        lemma_submitted_keeps_order(mid, inputs, k - 1, intent);
                    },
                    crate::domain::OrderCommand::Cancel(order) => {},
                    crate::domain::OrderCommand::Replace { order_id, replacement } => {
                        lemma_submitted_keeps_order(
                            dropped(mid, order_id),
                            inputs,
                            k - 1,
                            replacement,
                        );
                    },
                }
            },
        }
    }
}

/// A step keeps the inventory in order: legs stand in the order in which they
/// were opened, under ids that were never used before and only go up, and no
/// leg is empty.
pub proof fn law_inventory_stays_in_order(
    b: BooksView,
    inputs: StepInputs,
    carry: Seq<CarryGroup>,
)
    requires
        books_orderly(b),
    ensures
        step_applied(b, inputs, carry) matches Ok(b2) ==> books_orderly(b2) && ids_went_up(b, b2),
{
    lemma_carry_keeps_order(b, inputs.fills, carry, inputs.snapshot);
    match carry_applied(b, inputs.fills, carry, inputs.snapshot) {
        Err(_) => {},
        Ok(books) => {
            lemma_walk_keeps_order(
                WalkView {
                    books,
                    cursor: carry_total(carry),
                    group: 0,
                    trade: None,
                    ordinal: 0,
                },
                inputs,
                inputs.cmds.len() as int,
            );
        },
    }
}

/// A step without commands, fills and carry groups leaves the books as they
/// are.
pub proof fn law_quiet_step_moves_nothing(b: BooksView, inputs: StepInputs)
    requires
        inputs.cmds.len() == 0,
        inputs.fills.len() == 0,
        inputs.groups matches Some(groups) ==> groups.len() == 0,
    ensures
        step_applied(b, inputs, Seq::empty()) == Ok::<BooksView, ErrorKind>(b),
{
}

/// A close never takes more than a leg holds: a refused close is refused as
/// an execution error, and an accepted one takes exactly its contracts off the
/// leg.
pub proof fn law_close_takes_what_it_says(
    inventory: Seq<OpenPosition>,
    id: PositionId,
    quantity: int,
)
    requires
        quantity > 0,
    ensures
        match reduced(inventory, id, quantity) {
            Err(kind) => kind == ErrorKind::Execution && (has_leg(inventory, id) ==> quantity
                > inventory[leg_at(inventory, id)].quantity.n()),
            Ok((after, full)) => {
                let i = leg_at(inventory, id);
                &&& full == (quantity == inventory[i].quantity.n())
                &&& full ==> after == inventory.remove(i)
                &&& !full ==> after[i].quantity.n() == inventory[i].quantity.n() - quantity
                    && after.len() == inventory.len()
            },
        },
{
    if has_leg(inventory, id) {
        let i = leg_at(inventory, id);
        assert(is_leg_at(inventory, id, i));
        inventory[i].quantity.lemma_of();
        let rest = inventory[i].quantity.n() - quantity;
        if 0 <= rest {
            Quantity::lemma_n(rest);
        }
    }
}

} // verus!
