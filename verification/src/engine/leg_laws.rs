//! What the books say of a leg, from its opening to its end: while it is open
//! they agree on it, and once it is closed in full it leaves one terminal row.

use crate::data::TapeMeta;
use crate::domain::money::Quantity;
use crate::domain::{
    ChainSnapshot, Fill, OpenPosition, OrderCommand, OrderId, OrderIntent, PositionAction,
    PositionId, TradeId,
};
use crate::engine::backtest::{
    comes_of, fresh, replayed, started, stepped, with_minted, BacktestRun, ProgressView, StepTrace,
};
use crate::engine::book_laws::{
    books_orderly, lemma_aggregate_is_positive, lemma_extend_keeps_order, lemma_push_keeps_order,
    lemma_reduce_keeps_order,
};
use crate::engine::books::{
    carried, is_leg_at, leg_at, leg_closed, leg_extended, leg_opened, trade_for, BooksView,
    IdCounters,
};
use crate::engine::bundle_collector::{
    bundle_opened, law_one_row_per_open_leg, BundleView, LegMeta, PositionSnapshot,
};
use crate::engine::correlate::{
    carry_applied, carry_total, dropped, fills_due, step_applied, submitted, walked, StepInputs,
    WalkView,
};
use crate::engine::exit::ExitReason;
use crate::engine::fills::{aggregate, FillAggregate};
use crate::engine::tradelog::TradeLogView;
use crate::engine::tree_laws::{lemma_run_recorded, record_of};
use crate::execution::CarryGroup;
use vstd::prelude::*;

verus! {

/// Whether the leg `p` is open.
pub open spec fn stands(inventory: Seq<OpenPosition>, p: u64) -> bool {
    exists|i: int|
        0 <= i < inventory.len() && (#[trigger] inventory[i]).position_id == PositionId(p)
}

/// Whether row `i` is the terminal row of the leg `p`.
pub open spec fn is_terminal(rows: Seq<PositionSnapshot>, i: int, p: u64) -> bool {
    0 <= i < rows.len() && rows[i].position_id == p && rows[i].exit_reason is Some
}

/// Whether the leg `p` has a terminal row.
pub open spec fn has_ended(rows: Seq<PositionSnapshot>, p: u64) -> bool {
    exists|i: int| is_terminal(rows, i, p)
}

/// Whether no leg has two terminal rows.
pub open spec fn ends_once(rows: Seq<PositionSnapshot>) -> bool {
    forall|i: int, j: int, p: u64|
        #![trigger is_terminal(rows, i, p), is_terminal(rows, j, p)]
        is_terminal(rows, i, p) && is_terminal(rows, j, p) ==> i == j
}

/// Whether the trade log and the position rows know an open leg as the
/// inventory does.
pub open spec fn agrees_on(log: TradeLogView, bundle: BundleView, leg: OpenPosition) -> bool {
    let p = leg.position_id.0;
    &&& log.open.dom().contains(p)
    &&& log.open[p].remaining == leg.quantity.n()
    &&& log.open[p].entry_premium == leg.entry_premium
    &&& log.open[p].contract == leg.contract
    &&& log.open[p].side == leg.side
    &&& bundle.open_legs.dom().contains(p)
    &&& bundle.open_legs[p].entry_premium == leg.entry_premium
}

/// Whether the books agree on the open legs: each is known to all of them, and
/// none of them knows another.
pub open spec fn legs_agree(
    inventory: Seq<OpenPosition>,
    log: TradeLogView,
    bundle: BundleView,
) -> bool {
    &&& forall|i: int|
        0 <= i < inventory.len() ==> agrees_on(log, bundle, #[trigger] inventory[i])
    &&& forall|p: u64| #[trigger] log.open.dom().contains(p) ==> stands(inventory, p)
    &&& forall|p: u64| #[trigger] bundle.open_legs.dom().contains(p) ==> stands(inventory, p)
}

/// Whether each leg that was ever filled is open or has ended, and none is
/// both.
pub open spec fn legs_accounted(inventory: Seq<OpenPosition>, bundle: BundleView) -> bool {
    &&& ends_once(bundle.positions)
    &&& forall|p: u64| #[trigger] has_ended(bundle.positions, p) ==> !stands(inventory, p)
    &&& forall|i: int|
        0 <= i < bundle.fills.len() ==> {
            let p = (#[trigger] bundle.fills[i]).position_id;
            stands(inventory, p) || has_ended(bundle.positions, p)
        }
}

/// Whether the books keep their legs: in order, in agreement, and accounted
/// for.
pub open spec fn keeps_legs(b: BooksView) -> bool {
    &&& books_orderly(b)
    &&& legs_agree(b.inventory, b.log, b.bundle)
    &&& legs_accounted(b.inventory, b.bundle)
    &&& forall|p: u64| #[trigger] has_ended(b.bundle.positions, p) ==> p < b.ids.position
}

/// A new leg under the next id keeps the legs.
proof fn lemma_opened_keeps(
    b: BooksView,
    ids: IdCounters,
    order: u64,
    trade: TradeId,
    fills: Seq<Fill>,
    agg: FillAggregate,
    snapshot: ChainSnapshot,
    first_seq: int,
)
    requires
        keeps_legs(b),
        b.ids.position < u64::MAX,
        ids.position == b.ids.position + 1,
        agg.quantity.n() > 0,
    ensures
        leg_opened(
            BooksView { ids, ..b },
            order,
            trade,
            PositionId(b.ids.position),
            fills,
            agg,
            snapshot,
            first_seq,
        ) matches Ok(b2) ==> keeps_legs(b2) && b2.ids == ids && b2.pending == b.pending,
{
    let p = b.ids.position;
    let position = PositionId(p);
    let r = leg_opened(
        BooksView { ids, ..b },
        order,
        trade,
        position,
        fills,
        agg,
        snapshot,
        first_seq,
    );
    if r is Ok {
        let b2 = r->Ok_0;
        let opened = bundle_opened(
            b.bundle,
            p,
            LegMeta { trade_id: trade, entry_premium: agg.vwap, side: fills[0].side },
        );
        lemma_run_recorded(
            opened,
            b.ledger,
            fills,
            order,
            trade.0,
            p,
            first_seq,
            snapshot.spec.contract_multiplier as int,
        );
        let n = b.inventory.len() as int;
        let leg = b2.inventory[n];
        lemma_push_keeps_order(b.inventory, leg, p as int);
        agg.quantity.lemma_of();
        assert forall|q: u64| stands(b2.inventory, q) == (stands(b.inventory, q) || q == p) by {
            if stands(b.inventory, q) {
                let i = choose|i: int|
                    0 <= i < b.inventory.len() && (#[trigger] b.inventory[i]).position_id
                        == PositionId(q);
                assert(b2.inventory[i] == b.inventory[i]);
            }
            if q == p {
                assert(b2.inventory[n].position_id == PositionId(q));
            }
            if stands(b2.inventory, q) && q != p {
                let i = choose|i: int|
                    0 <= i < b2.inventory.len() && (#[trigger] b2.inventory[i]).position_id
                        == PositionId(q);
                assert(b.inventory[i].position_id == PositionId(q));
            }
        }
        assert forall|i: int| 0 <= i < b2.inventory.len() implies agrees_on(
            b2.log,
            b2.bundle,
            #[trigger] b2.inventory[i],
        ) by {
            if i < n {
                assert(agrees_on(b.log, b.bundle, b.inventory[i]));
                assert(b.inventory[i].position_id.0 < p);
            }
        }
        assert forall|i: int| 0 <= i < b2.bundle.fills.len() implies ({
            let q = (#[trigger] b2.bundle.fills[i]).position_id;
            stands(b2.inventory, q) || has_ended(b2.bundle.positions, q)
        }) by {
            let m = b.bundle.fills.len() as int;
            if i < m {
                assert(b2.bundle.fills[i] == b.bundle.fills[i]);
            } else {
                assert(b2.bundle.fills[i] == record_of(fills, order, trade.0, p, first_seq, i - m));
            }
        }
        assert(keeps_legs(b2));
    }
}

/// A leg that grows keeps the legs.
proof fn lemma_extended_keeps(
    b: BooksView,
    order: u64,
    trade: TradeId,
    position: PositionId,
    fills: Seq<Fill>,
    agg: FillAggregate,
    snapshot: ChainSnapshot,
    first_seq: int,
)
    requires
        keeps_legs(b),
        agg.quantity.n() > 0,
    ensures
        leg_extended(b, order, trade, position, fills, agg, snapshot, first_seq) matches Ok(b2)
            ==> keeps_legs(b2) && b2.ids == b.ids && b2.pending == b.pending,
{
    let r = leg_extended(b, order, trade, position, fills, agg, snapshot, first_seq);
    if r is Ok {
        let b2 = r->Ok_0;
        let k = leg_at(b.inventory, position);
        assert(is_leg_at(b.inventory, position, k));
        let p = position.0;
        let entry = b2.inventory[k].entry_premium;
        let opened = bundle_opened(
            b.bundle,
            p,
            LegMeta { trade_id: trade, entry_premium: entry, side: fills[0].side },
        );
        lemma_run_recorded(
            opened,
            b.ledger,
            fills,
            order,
            trade.0,
            p,
            first_seq,
            snapshot.spec.contract_multiplier as int,
        );
        lemma_extend_keeps_order(
            b.inventory,
            position,
            fills,
            agg.quantity.n(),
            b.ids.position as int,
        );
        b.inventory[k].quantity.lemma_of();
        Quantity::lemma_n(b.inventory[k].quantity.n() + agg.quantity.n());
        assert forall|q: u64| stands(b2.inventory, q) == stands(b.inventory, q) by {
            if stands(b.inventory, q) {
                let i = choose|i: int|
                    0 <= i < b.inventory.len() && (#[trigger] b.inventory[i]).position_id
                        == PositionId(q);
                assert(b2.inventory[i].position_id == PositionId(q));
            }
            if stands(b2.inventory, q) {
                let i = choose|i: int|
                    0 <= i < b2.inventory.len() && (#[trigger] b2.inventory[i]).position_id
                        == PositionId(q);
                assert(b.inventory[i].position_id == PositionId(q));
            }
        }
        assert(b.inventory[k].position_id == PositionId(p));
        assert(stands(b.inventory, p));
        assert forall|i: int| 0 <= i < b2.inventory.len() implies agrees_on(
            b2.log,
            b2.bundle,
            #[trigger] b2.inventory[i],
        ) by {
            assert(agrees_on(b.log, b.bundle, b.inventory[i]));
            if i < k {
                assert(b.inventory[i].position_id.0 < b.inventory[k].position_id.0);
            } else if i > k {
                assert(b.inventory[k].position_id.0 < b.inventory[i].position_id.0);
            }
        }
        assert forall|i: int| 0 <= i < b2.bundle.fills.len() implies ({
            let q = (#[trigger] b2.bundle.fills[i]).position_id;
            stands(b2.inventory, q) || has_ended(b2.bundle.positions, q)
        }) by {
            let m = b.bundle.fills.len() as int;
            if i < m {
                assert(b2.bundle.fills[i] == b.bundle.fills[i]);
            } else {
                assert(b2.bundle.fills[i] == record_of(fills, order, trade.0, p, first_seq, i - m));
            }
        }
        assert(keeps_legs(b2));
    }
}

/// A close keeps the legs.
proof fn lemma_closed_keeps(
    b: BooksView,
    order: u64,
    position: PositionId,
    fills: Seq<Fill>,
    agg: FillAggregate,
    snapshot: ChainSnapshot,
    first_seq: int,
    reason: ExitReason,
)
    requires
        keeps_legs(b),
        agg.quantity.n() > 0,
    ensures
        leg_closed(b, order, position, fills, agg, snapshot, first_seq, reason) matches Ok(b2)
            ==> keeps_legs(b2) && b2.ids == b.ids && b2.pending == b.pending,
{
    let r = leg_closed(b, order, position, fills, agg, snapshot, first_seq, reason);
    if r is Ok {
        let b2 = r->Ok_0;
        let k = leg_at(b.inventory, position);
        assert(is_leg_at(b.inventory, position, k));
        let p = position.0;
        let trade = b.bundle.open_legs[p].trade_id.0;
        let full = agg.quantity.n() == b.inventory[k].quantity.n();
        lemma_run_recorded(
            b.bundle,
            b.ledger,
            fills,
            order,
            trade,
            p,
            first_seq,
            snapshot.spec.contract_multiplier as int,
        );
        lemma_reduce_keeps_order(b.inventory, position, agg.quantity.n(), b.ids.position as int);
        b.inventory[k].quantity.lemma_of();
        Quantity::lemma_n(b.inventory[k].quantity.n() - agg.quantity.n());
        assert(agrees_on(b.log, b.bundle, b.inventory[k]));
        assert(b.inventory[k].position_id == PositionId(p));
        assert(stands(b.inventory, p));
        let rows = b.bundle.positions;
        let rows2 = b2.bundle.positions;
        if full {
            assert(b2.inventory == b.inventory.remove(k));
            assert forall|q: u64| stands(b2.inventory, q) == (stands(b.inventory, q) && q != p) by {
                if stands(b.inventory, q) && q != p {
                    let i = choose|i: int|
                        0 <= i < b.inventory.len() && (#[trigger] b.inventory[i]).position_id
                            == PositionId(q);
                    let j = if i < k {
                        i
                    } else {
                        i - 1
                    };
                    assert(b2.inventory[j].position_id == PositionId(q));
                }
                if stands(b2.inventory, q) {
                    let j = choose|j: int|
                        0 <= j < b2.inventory.len() && (#[trigger] b2.inventory[j]).position_id
                            == PositionId(q);
                    let i = if j < k {
                        j
                    } else {
                        j + 1
                    };
                    assert(b.inventory[i].position_id == PositionId(q));
                }
            }
            let n = rows.len() as int;
            assert(is_terminal(rows2, n, p));
            assert forall|q: u64| has_ended(rows2, q) == (has_ended(rows, q) || q == p) by {
                if has_ended(rows, q) {
                    let i = choose|i: int| is_terminal(rows, i, q);
                    assert(is_terminal(rows2, i, q));
                }
                if has_ended(rows2, q) && q != p {
                    let i = choose|i: int| is_terminal(rows2, i, q);
                    assert(is_terminal(rows, i, q));
                }
            }
            assert forall|i: int, j: int, q: u64|
                #![trigger is_terminal(rows2, i, q), is_terminal(rows2, j, q)]
                is_terminal(rows2, i, q) && is_terminal(rows2, j, q) implies i == j by {
                if i < n {
                    assert(is_terminal(rows, i, q));
                    assert(has_ended(rows, q));
                }
                if j < n {
                    assert(is_terminal(rows, j, q));
                    assert(has_ended(rows, q));
                }
            }
            assert forall|i: int| 0 <= i < b2.inventory.len() implies agrees_on(
                b2.log,
                b2.bundle,
                #[trigger] b2.inventory[i],
            ) by {
                let x = if i < k {
                    i
                } else {
                    i + 1
                };
                assert(b2.inventory[i] == b.inventory[x]);
                assert(agrees_on(b.log, b.bundle, b.inventory[x]));
                assert(b.inventory[x].position_id.0 != p);
            }
        } else {
            assert forall|q: u64| stands(b2.inventory, q) == stands(b.inventory, q) by {
                if stands(b.inventory, q) {
                    let i = choose|i: int|
                        0 <= i < b.inventory.len() && (#[trigger] b.inventory[i]).position_id
                            == PositionId(q);
                    assert(b2.inventory[i].position_id == PositionId(q));
                }
                if stands(b2.inventory, q) {
                    let i = choose|i: int|
                        0 <= i < b2.inventory.len() && (#[trigger] b2.inventory[i]).position_id
                            == PositionId(q);
                    assert(b.inventory[i].position_id == PositionId(q));
                }
            }
            assert forall|i: int| 0 <= i < b2.inventory.len() implies agrees_on(
                b2.log,
                b2.bundle,
                #[trigger] b2.inventory[i],
            ) by {
                assert(agrees_on(b.log, b.bundle, b.inventory[i]));
                if i != k {
                    assert(b2.inventory[i] == b.inventory[i]);
                    assert(b.inventory[i].position_id.0 != p);
                }
            }
        }
        assert forall|i: int| 0 <= i < b2.bundle.fills.len() implies ({
            let q = (#[trigger] b2.bundle.fills[i]).position_id;
            stands(b2.inventory, q) || has_ended(b2.bundle.positions, q)
        }) by {
            let m = b.bundle.fills.len() as int;
            if i < m {
                assert(b2.bundle.fills[i] == b.bundle.fills[i]);
            } else {
                assert(b2.bundle.fills[i] == record_of(fills, order, trade, p, first_seq, i - m));
            }
        }
        assert(keeps_legs(b2));
    }
}

/// The fills of a resting order keep the legs.
proof fn lemma_carried_keeps(
    b: BooksView,
    order: OrderId,
    fills: Seq<Fill>,
    snapshot: ChainSnapshot,
)
    requires
        keeps_legs(b),
    ensures
        carried(b, order, fills, snapshot) matches Ok(b2) ==> keeps_legs(b2),
{
    lemma_aggregate_is_positive(fills);
    if carried(b, order, fills, snapshot) is Ok {
        let agg = aggregate(fills)->Ok_0;
        let entry = b.pending[order.0];
        let first = entry.fills_so_far as int;
        match entry.pending.intent.action {
            PositionAction::Open => {
                let (trade, ids) = trade_for(entry.trade_id, b.ids)->Ok_0;
                match entry.position_id {
                    Some(position) => {
                        lemma_extended_keeps(
                            BooksView { ids, ..b },
                            order.0,
                            trade,
                            position,
                            fills,
                            agg,
                            snapshot,
                            first,
                        );
                    },
                    None => {
                        lemma_opened_keeps(
                            b,
                            IdCounters { position: (ids.position + 1) as u64, ..ids },
                            order.0,
                            trade,
                            fills,
                            agg,
                            snapshot,
                            first,
                        );
                    },
                }
            },
            PositionAction::Close(position) => {
                lemma_closed_keeps(
                    b,
                    order.0,
                    position,
                    fills,
                    agg,
                    snapshot,
                    first,
                    crate::engine::books::resting_reason(entry),
                );
            },
        }
    }
}

/// The carry groups keep the legs.
proof fn lemma_carry_keeps(
    b: BooksView,
    fills: Seq<Fill>,
    carry: Seq<CarryGroup>,
    snapshot: ChainSnapshot,
)
    requires
        keeps_legs(b),
    ensures
        carry_applied(b, fills, carry, snapshot) matches Ok(b2) ==> keeps_legs(b2),
    decreases carry.len(),
{
    if carry.len() > 0 {
        let front = carry.drop_last();
        lemma_carry_keeps(b, fills, front, snapshot);
        match carry_applied(b, fills, front, snapshot) {
            Err(_) => {},
            Ok(mid) => {
                lemma_carried_keeps(
                    mid,
                    carry.last().order_id,
                    fills.subrange(carry_total(front), carry_total(carry)),
                    snapshot,
                );
            },
        }
    }
}

/// One submitted order keeps the legs.
proof fn lemma_submitted_keeps(w: WalkView, inputs: StepInputs, idx: int, intent: OrderIntent)
    requires
        keeps_legs(w.books),
    ensures
        submitted(w, inputs, idx, intent) matches Ok(w2) ==> keeps_legs(w2.books),
{
    let count = fills_due(inputs.groups, w.group, idx);
    let run = inputs.fills.subrange(w.cursor, w.cursor + count);
    lemma_aggregate_is_positive(run);
    if submitted(w, inputs, idx, intent) is Ok && count != 0 {
        let order = inputs.submit_ids[w.ordinal];
        let agg = aggregate(run)->Ok_0;
        match intent.action {
            PositionAction::Open => {
                let (trade, ids) = trade_for(w.trade, w.books.ids)->Ok_0;
                lemma_opened_keeps(
                    w.books,
                    IdCounters { position: (ids.position + 1) as u64, ..ids },
                    order.0,
                    trade,
                    run,
                    agg,
                    inputs.snapshot,
                    0,
                );
            },
            PositionAction::Close(position) => {
                lemma_closed_keeps(
                    w.books,
                    order.0,
                    position,
                    run,
                    agg,
                    inputs.snapshot,
                    0,
                    inputs.reasons.reason_at(idx),
                );
            },
        }
    }
}

/// The walk keeps the legs.
proof fn lemma_walk_keeps(w: WalkView, inputs: StepInputs, k: int)
    requires
        keeps_legs(w.books),
        0 <= k <= inputs.cmds.len(),
    ensures
        walked(w, inputs, k) matches Ok(w2) ==> keeps_legs(w2.books),
    decreases k,
{
    if k > 0 {
        lemma_walk_keeps(w, inputs, k - 1);
        match walked(w, inputs, k - 1) {
            Err(_) => {},
            Ok(mid) => {
                match inputs.cmds[k - 1] {
                    OrderCommand::Submit(intent) => {
                        lemma_submitted_keeps(mid, inputs, k - 1, intent);
                    },
                    OrderCommand::Cancel(order) => {},
                    OrderCommand::Replace { order_id, replacement } => {
                        lemma_submitted_keeps(dropped(mid, order_id), inputs, k - 1, replacement);
                    },
                }
            },
        }
    }
}

/// A step keeps the legs: where the inventory, the trade log and the position
/// rows agreed on the open legs before it, they agree after it, and each leg
/// that was ever filled is open or has ended in one terminal row.
pub proof fn law_step_keeps_legs(b: BooksView, inputs: StepInputs, carry: Seq<CarryGroup>)
    requires
        keeps_legs(b),
    ensures
        step_applied(b, inputs, carry) matches Ok(b2) ==> keeps_legs(b2),
{
    lemma_carry_keeps(b, inputs.fills, carry, inputs.snapshot);
    match carry_applied(b, inputs.fills, carry, inputs.snapshot) {
        Err(_) => {},
        Ok(books) => {
            lemma_walk_keeps(
                WalkView {
                    books,
                    cursor: carry_total(carry),
                    group: 0,
                    trade: None,
                    ordinal: 0,
                },
                inputs,
                inputs.cmds.len() as int,
            );
        },
    }
}

/// The rows of open legs end none of them.
proof fn lemma_open_rows_end_nothing(rows: Seq<PositionSnapshot>, rows2: Seq<PositionSnapshot>)
    requires
        rows.len() <= rows2.len(),
        rows2.take(rows.len() as int) == rows,
        forall|i: int| rows.len() <= i < rows2.len() ==> (#[trigger] rows2[i]).exit_reason is None,
    ensures
        forall|i: int, p: u64| #[trigger] is_terminal(rows2, i, p) == is_terminal(rows, i, p),
        forall|p: u64| #[trigger] has_ended(rows2, p) == has_ended(rows, p),
{
    let n = rows.len() as int;
    assert forall|i: int, p: u64| #[trigger]
        is_terminal(rows2, i, p) == is_terminal(rows, i, p) by {
        if 0 <= i < n {
            assert(rows2.take(n)[i] == rows2[i]);
        }
    }
    assert forall|p: u64| #[trigger] has_ended(rows2, p) == has_ended(rows, p) by {
        if has_ended(rows2, p) {
            let i = choose|i: int| is_terminal(rows2, i, p);
            assert(is_terminal(rows, i, p));
        }
        if has_ended(rows, p) {
            let i = choose|i: int| is_terminal(rows, i, p);
            assert(is_terminal(rows2, i, p));
        }
    }
}

/// Steps keep the legs.
proof fn lemma_steps_keep(p: ProgressView, steps: Seq<StepTrace>)
    requires
        keeps_legs(p.books),
        replayed(p, steps) is Some,
    ensures
        keeps_legs(replayed(p, steps)->0.books),
    decreases steps.len(),
{
    if steps.len() > 0 {
        let front = steps.drop_last();
        let t = steps.last();
        let mid = replayed(p, front)->0;
        let q = stepped(mid, t)->0;
        lemma_steps_keep(p, front);
        let b = with_minted(mid.books, t.inputs.cmds);
        law_step_keeps_legs(b, t.inputs, t.carry);
        let applied = step_applied(b, t.inputs, t.carry)->Ok_0;
        let ledger = crate::engine::backtest::legs_taken_down(
            applied.ledger,
            mid.books.inventory,
            t.inputs.snapshot.spec.contract_multiplier,
        );
        let settled = crate::engine::ledger::after_settle(
            ledger,
            applied.inventory,
            t.inputs.snapshot,
        );
        law_one_row_per_open_leg(
            applied.bundle,
            t.inputs.snapshot.step.0,
            t.inputs.snapshot.ts.0,
            settled.position_marks,
            t.is_last,
        );
        let rows = applied.bundle.positions;
        let rows2 = q.books.bundle.positions;
        assert forall|i: int| rows.len() <= i < rows2.len() implies (
        #[trigger] rows2[i]).exit_reason is None by {
            assert(rows2[rows.len() + (i - rows.len())].exit_reason is None);
        }
        lemma_open_rows_end_nothing(rows, rows2);
        assert(q.books.bundle.fills == applied.bundle.fills);
        assert(q.books.bundle.open_legs == applied.bundle.open_legs);
        assert forall|i: int| 0 <= i < q.books.inventory.len() implies agrees_on(
            q.books.log,
            q.books.bundle,
            #[trigger] q.books.inventory[i],
        ) by {
            assert(agrees_on(applied.log, applied.bundle, applied.inventory[i]));
        }
    }
}

/// Every leg of a run is accounted for: a leg that was filled stands open at
/// the end or ended in a terminal row, and never both; and no leg has two
/// terminal rows, however many fills it took to close it.
pub proof fn law_every_leg_ends_once(
    run: BacktestRun,
    initial_cents: i64,
    name: Seq<char>,
    meta: TapeMeta,
    opening: StepTrace,
    steps: Seq<StepTrace>,
)
    requires
        comes_of(run, initial_cents, name, meta, opening, steps),
    ensures
        ends_once(run.positions@),
        forall|i: int|
            0 <= i < run.fills@.len() ==> {
                let p = (#[trigger] run.fills@[i]).position_id;
                stands(run.open_at_end@, p) != has_ended(run.positions@, p)
            },
{
    let p0 = fresh(initial_cents as int);
    let books = started(p0.books, opening)->0;
    assert(keeps_legs(with_minted(p0.books, opening.inputs.cmds)));
    law_step_keeps_legs(
        with_minted(p0.books, opening.inputs.cmds),
        opening.inputs,
        opening.carry,
    );
    lemma_steps_keep(ProgressView { books, ..p0 }, steps);
}

} // verus!
