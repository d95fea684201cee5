//! Books that differ in the wording of reasons alone stay so.
//!
//! A reason in words is made anew each time it is recorded, so two runs agree
//! on it by its text. Nothing that moves the books reads a reason.

use crate::domain::{
    ChainSnapshot, Fill, OrderCommand, OrderId, OrderIntent, PositionAction, PositionId, TradeId,
};
use crate::engine::backtest::{
    entered, legs_taken_down, started, stepped, with_minted, ProgressView, StepTrace,
};
use crate::engine::books::{
    carried, extended, fills_applied, leg_at, leg_closed, leg_extended, leg_opened, resting_reason,
    trade_for, BooksView, IdCounters, PendingEntry,
};
use crate::engine::bundle_collector::{
    bundle_opened, bundle_rows, BundleView, LegMeta, PositionSnapshot,
};
use crate::engine::correlate::{
    carry_applied, carry_total, dropped, fills_due, lifecycle_valid, names_resting, step_applied,
    submitted, walked, StepInputs, WalkView,
};
use crate::engine::exit::ExitReason;
use crate::engine::fills::{aggregate, FillAggregate};
use crate::engine::ledger::{after_settle, LedgerView, PositionMark};
use crate::engine::tradelog::{ClosedTrade, TradeLogView};
use crate::error::ErrorKind;
use crate::execution::CarryGroup;
use vstd::prelude::*;

verus! {

/// Whether two reasons say the same.
pub open spec fn reason_alike(a: ExitReason, b: ExitReason) -> bool {
    match (a, b) {
        (ExitReason::Other(x), ExitReason::Other(y)) => x@ == y@,
        _ => a == b,
    }
}

/// Whether two reasons say the same, where there are any.
pub open spec fn noted_alike(a: Option<ExitReason>, b: Option<ExitReason>) -> bool {
    match (a, b) {
        (Some(x), Some(y)) => reason_alike(x, y),
        (None, None) => true,
        _ => false,
    }
}

/// Whether two closes say the same.
pub open spec fn trade_alike(a: ClosedTrade, b: ClosedTrade) -> bool {
    &&& reason_alike(a.exit_reason, b.exit_reason)
    &&& ClosedTrade { exit_reason: b.exit_reason, ..a } == b
}

/// Whether two position rows say the same.
pub open spec fn row_alike(a: PositionSnapshot, b: PositionSnapshot) -> bool {
    &&& noted_alike(a.exit_reason, b.exit_reason)
    &&& PositionSnapshot { exit_reason: b.exit_reason, ..a } == b
}

/// Whether two trade logs say the same, close by close.
pub open spec fn trades_alike(a: Seq<ClosedTrade>, b: Seq<ClosedTrade>) -> bool {
    &&& a.len() == b.len()
    &&& forall|i: int| 0 <= i < a.len() ==> trade_alike(#[trigger] a[i], b[i])
}

/// Whether some position rows say the same, row by row.
pub open spec fn rows_alike(a: Seq<PositionSnapshot>, b: Seq<PositionSnapshot>) -> bool {
    &&& a.len() == b.len()
    &&& forall|i: int| 0 <= i < a.len() ==> row_alike(#[trigger] a[i], b[i])
}

/// Whether two resting orders are the same.
pub open spec fn entry_alike(a: PendingEntry, b: PendingEntry) -> bool {
    &&& noted_alike(a.reason, b.reason)
    &&& PendingEntry { reason: b.reason, ..a } == b
}

/// Whether the same orders rest.
pub open spec fn pending_alike(a: Map<u64, PendingEntry>, b: Map<u64, PendingEntry>) -> bool {
    &&& a.dom() == b.dom()
    &&& forall|k: u64| #[trigger] a.dom().contains(k) ==> entry_alike(a[k], b[k])
}

/// Whether two bundles say the same.
pub open spec fn bundle_alike(a: BundleView, b: BundleView) -> bool {
    &&& a.fills == b.fills
    &&& a.open_legs == b.open_legs
    &&& rows_alike(a.positions, b.positions)
}

/// Whether two trade logs say the same.
pub open spec fn log_alike(a: TradeLogView, b: TradeLogView) -> bool {
    a.open == b.open && trades_alike(a.closed, b.closed)
}

/// Whether two books say the same.
pub open spec fn books_alike(a: BooksView, b: BooksView) -> bool {
    &&& a.ids == b.ids
    &&& a.inventory == b.inventory
    &&& a.ledger == b.ledger
    &&& log_alike(a.log, b.log)
    &&& bundle_alike(a.bundle, b.bundle)
    &&& pending_alike(a.pending, b.pending)
}

/// Whether two moves of the books came out alike.
spec fn moves_alike(a: Result<BooksView, ErrorKind>, b: Result<BooksView, ErrorKind>) -> bool {
    match (a, b) {
        (Ok(x), Ok(y)) => books_alike(x, y),
        (Err(x), Err(y)) => x == y,
        _ => false,
    }
}

/// A run of fills is recorded alike.
proof fn lemma_fills_alike(
    a: BundleView,
    b: BundleView,
    ledger: LedgerView,
    fills: Seq<Fill>,
    order: u64,
    trade: u64,
    position: u64,
    first_seq: int,
    m: int,
)
    requires
        bundle_alike(a, b),
    ensures
        match (
            fills_applied(a, ledger, fills, order, trade, position, first_seq, m),
            fills_applied(b, ledger, fills, order, trade, position, first_seq, m),
        ) {
            (Ok((x, l1)), Ok((y, l2))) => bundle_alike(x, y) && l1 == l2,
            (Err(x), Err(y)) => x == y,
            _ => false,
        },
    decreases fills.len(),
{
    if fills.len() > 0 {
        lemma_fills_alike(
            a,
            b,
            ledger,
            fills.drop_last(),
            order,
            trade,
            position,
            first_seq,
            m,
        );
    }
}

/// A leg is opened alike.
proof fn lemma_open_alike(
    a: BooksView,
    b: BooksView,
    order: u64,
    trade: TradeId,
    position: PositionId,
    fills: Seq<Fill>,
    agg: FillAggregate,
    snapshot: ChainSnapshot,
    first_seq: int,
)
    requires
        books_alike(a, b),
    ensures
        moves_alike(
            leg_opened(a, order, trade, position, fills, agg, snapshot, first_seq),
            leg_opened(b, order, trade, position, fills, agg, snapshot, first_seq),
        ),
{
    let meta = LegMeta {
        trade_id: trade,
        entry_premium: agg.vwap,
        side: fills[0].side,
    };
    lemma_fills_alike(
        bundle_opened(a.bundle, position.0, meta),
        bundle_opened(b.bundle, position.0, meta),
        a.ledger,
        fills,
        order,
        trade.0,
        position.0,
        first_seq,
        snapshot.spec.contract_multiplier as int,
    );
}

/// A leg grows alike.
proof fn lemma_extend_alike(
    a: BooksView,
    b: BooksView,
    order: u64,
    trade: TradeId,
    position: PositionId,
    fills: Seq<Fill>,
    agg: FillAggregate,
    snapshot: ChainSnapshot,
    first_seq: int,
)
    requires
        books_alike(a, b),
    ensures
        moves_alike(
            leg_extended(a, order, trade, position, fills, agg, snapshot, first_seq),
            leg_extended(b, order, trade, position, fills, agg, snapshot, first_seq),
        ),
{
    match extended(a.inventory, position, fills, agg.quantity.n()) {
        Err(_) => {},
        Ok(inventory) => {
            let meta = LegMeta {
                trade_id: trade,
                entry_premium: inventory[leg_at(
                    a.inventory,
                    position,
                )].entry_premium,
                side: fills[0].side,
            };
            lemma_fills_alike(
                bundle_opened(a.bundle, position.0, meta),
                bundle_opened(b.bundle, position.0, meta),
                a.ledger,
                fills,
                order,
                trade.0,
                position.0,
                first_seq,
                snapshot.spec.contract_multiplier as int,
            );
        },
    }
}

/// A leg is closed alike, for reasons that say the same.
proof fn lemma_close_alike(
    a: BooksView,
    b: BooksView,
    order: u64,
    position: PositionId,
    fills: Seq<Fill>,
    agg: FillAggregate,
    snapshot: ChainSnapshot,
    first_seq: int,
    reason1: ExitReason,
    reason2: ExitReason,
)
    requires
        books_alike(a, b),
        reason_alike(reason1, reason2),
    ensures
        moves_alike(
            leg_closed(a, order, position, fills, agg, snapshot, first_seq, reason1),
            leg_closed(b, order, position, fills, agg, snapshot, first_seq, reason2),
        ),
{
    lemma_fills_alike(
        a.bundle,
        b.bundle,
        a.ledger,
        fills,
        order,
        a.bundle.open_legs[position.0].trade_id.0,
        position.0,
        first_seq,
        snapshot.spec.contract_multiplier as int,
    );
}

/// The fills of a resting order move the books alike.
proof fn lemma_carried_alike(
    a: BooksView,
    b: BooksView,
    order: OrderId,
    fills: Seq<Fill>,
    snapshot: ChainSnapshot,
)
    requires
        books_alike(a, b),
    ensures
        moves_alike(
            carried(a, order, fills, snapshot),
            carried(b, order, fills, snapshot),
        ),
{
    if a.pending.dom().contains(order.0) && aggregate(fills) is Ok {
        let agg = aggregate(fills)->Ok_0;
        let (x, y) = (a.pending[order.0], b.pending[order.0]);
        assert(entry_alike(x, y));
        let first = x.fills_so_far as int;
        match x.pending.intent.action {
            PositionAction::Open => {
                match trade_for(x.trade_id, a.ids) {
                    Err(_) => {},
                    Ok((trade, ids)) => {
                        match x.position_id {
                            Some(position) => {
                                lemma_extend_alike(
                                    BooksView { ids, ..a },
                                    BooksView { ids, ..b },
                                    order.0,
                                    trade,
                                    position,
                                    fills,
                                    agg,
                                    snapshot,
                                    first,
                                );
                            },
                            None => {
                                let ids2 = IdCounters {
                                    position: (ids.position + 1) as u64,
                                    ..ids
                                };
                                lemma_open_alike(
                                    BooksView { ids: ids2, ..a },
                                    BooksView { ids: ids2, ..b },
                                    order.0,
                                    trade,
                                    PositionId(ids.position),
                                    fills,
                                    agg,
                                    snapshot,
                                    first,
                                );
                            },
                        }
                    },
                }
            },
            PositionAction::Close(position) => {
                lemma_close_alike(
                    a,
                    b,
                    order.0,
                    position,
                    fills,
                    agg,
                    snapshot,
                    first,
                    resting_reason(x),
                    resting_reason(y),
                );
            },
        }
    }
}

/// The carry groups move the books alike.
proof fn lemma_carry_alike(
    a: BooksView,
    b: BooksView,
    fills: Seq<Fill>,
    carry: Seq<CarryGroup>,
    snapshot: ChainSnapshot,
)
    requires
        books_alike(a, b),
    ensures
        moves_alike(
            carry_applied(a, fills, carry, snapshot),
            carry_applied(b, fills, carry, snapshot),
        ),
    decreases carry.len(),
{
    if carry.len() > 0 {
        let front = carry.drop_last();
        lemma_carry_alike(a, b, fills, front, snapshot);
        match (
            carry_applied(a, fills, front, snapshot),
            carry_applied(b, fills, front, snapshot),
        ) {
            (Ok(x), Ok(y)) => {
                lemma_carried_alike(
                    x,
                    y,
                    carry.last().order_id,
                    fills.subrange(carry_total(front), carry_total(carry)),
                    snapshot,
                );
            },
            _ => {},
        }
    }
}

/// Whether two walks stand alike.
spec fn walk_alike(a: WalkView, b: WalkView) -> bool {
    &&& books_alike(a.books, b.books)
    &&& a.cursor == b.cursor
    &&& a.group == b.group
    &&& a.trade == b.trade
    &&& a.ordinal == b.ordinal
}

/// Whether two walks came out alike.
spec fn walks_alike(a: Result<WalkView, ErrorKind>, b: Result<WalkView, ErrorKind>) -> bool {
    match (a, b) {
        (Ok(x), Ok(y)) => walk_alike(x, y),
        (Err(x), Err(y)) => x == y,
        _ => false,
    }
}

/// Whether two steps are the same, and each of their closes has a reason that
/// says the same.
pub open spec fn inputs_alike(a: StepInputs, b: StepInputs) -> bool {
    &&& a.cmds == b.cmds
    &&& a.fills == b.fills
    &&& a.groups == b.groups
    &&& a.submit_ids == b.submit_ids
    &&& a.snapshot == b.snapshot
    &&& forall|idx: int|
        0 <= idx < a.cmds.len() ==> reason_alike(
            #[trigger] a.reasons.reason_at(idx),
            b.reasons.reason_at(idx),
        )
}

/// One submitted order moves the walk alike.
proof fn lemma_submitted_alike(
    v: WalkView,
    w: WalkView,
    a: StepInputs,
    b: StepInputs,
    idx: int,
    intent: OrderIntent,
)
    requires
        walk_alike(v, w),
        inputs_alike(a, b),
        0 <= idx < a.cmds.len(),
    ensures
        walks_alike(submitted(v, a, idx, intent), submitted(w, b, idx, intent)),
{
    let (r1, r2) = (a.reasons.reason_at(idx), b.reasons.reason_at(idx));
    assert(reason_alike(r1, r2));
    let order = a.submit_ids[v.ordinal];
    let count = fills_due(a.groups, v.group, idx);
    let run = a.fills.subrange(v.cursor, v.cursor + count);
    if aggregate(run) is Ok {
        let agg = aggregate(run)->Ok_0;
        match intent.action {
            PositionAction::Open => {
                match trade_for(v.trade, v.books.ids) {
                    Err(_) => {},
                    Ok((trade, ids)) => {
                        let ids2 = IdCounters { position: (ids.position + 1) as u64, ..ids };
                        lemma_open_alike(
                            BooksView { ids: ids2, ..v.books },
                            BooksView { ids: ids2, ..w.books },
                            order.0,
                            trade,
                            PositionId(ids.position),
                            run,
                            agg,
                            a.snapshot,
                            0,
                        );
                    },
                }
            },
            PositionAction::Close(position) => {
                lemma_close_alike(
                    v.books,
                    w.books,
                    order.0,
                    position,
                    run,
                    agg,
                    a.snapshot,
                    0,
                    r1,
                    r2,
                );
            },
        }
    }
}

/// The commands move the walk alike.
proof fn lemma_walk_alike(v: WalkView, w: WalkView, a: StepInputs, b: StepInputs, k: int)
    requires
        walk_alike(v, w),
        inputs_alike(a, b),
        0 <= k <= a.cmds.len(),
    ensures
        walks_alike(walked(v, a, k), walked(w, b, k)),
    decreases k,
{
    if k > 0 {
        lemma_walk_alike(v, w, a, b, k - 1);
        match (walked(v, a, k - 1), walked(w, b, k - 1)) {
            (Ok(x), Ok(y)) => {
                match a.cmds[k - 1] {
                    OrderCommand::Submit(intent) => {
                        lemma_submitted_alike(x, y, a, b, k - 1, intent);
                    },
                    OrderCommand::Cancel(order) => {
                        lemma_dropped_alike(x, y, order);
                    },
                    OrderCommand::Replace { order_id, replacement } => {
                        lemma_dropped_alike(x, y, order_id);
                        lemma_submitted_alike(
                            dropped(x, order_id),
                            dropped(y, order_id),
                            a,
                            b,
                            k - 1,
                            replacement,
                        );
                    },
                }
            },
            _ => {},
        }
    }
}

/// A resting order is dropped alike.
proof fn lemma_dropped_alike(v: WalkView, w: WalkView, order: OrderId)
    requires
        walk_alike(v, w),
    ensures
        walk_alike(dropped(v, order), dropped(w, order)),
{
    let (x, y) = (dropped(v, order).books.pending, dropped(w, order).books.pending);
    assert(x.dom() =~= y.dom());
    assert forall|k: u64| #[trigger] x.dom().contains(k) implies entry_alike(x[k], y[k]) by {
        assert(v.books.pending.dom().contains(k));
    }
}

/// A step moves the books alike.
proof fn lemma_applied_alike(
    a: BooksView,
    b: BooksView,
    i: StepInputs,
    j: StepInputs,
    carry: Seq<CarryGroup>,
)
    requires
        books_alike(a, b),
        inputs_alike(i, j),
    ensures
        moves_alike(step_applied(a, i, carry), step_applied(b, j, carry)),
{
    lemma_carry_alike(a, b, i.fills, carry, i.snapshot);
    assert(lifecycle_valid(a.pending, i.cmds)
        == lifecycle_valid(b.pending, j.cmds)) by {
        assert forall|k: int| 0 <= k < i.cmds.len() implies names_resting(
            a.pending,
            #[trigger] i.cmds[k],
        ) == names_resting(b.pending, i.cmds[k]) by {}
    }
    match (
        carry_applied(a, i.fills, carry, i.snapshot),
        carry_applied(b, i.fills, carry, i.snapshot),
    ) {
        (Ok(x), Ok(y)) => {
            let start = WalkView {
                books: x,
                cursor: carry_total(carry),
                group: 0,
                trade: None,
                ordinal: 0,
            };
            lemma_walk_alike(
                start,
                WalkView { books: y, ..start },
                i,
                j,
                i.cmds.len() as int,
            );
        },
        _ => {},
    }
}

/// The rows of marked legs are written alike.
proof fn lemma_rows_alike(
    a: BundleView,
    b: BundleView,
    step: u32,
    ts_ns: i64,
    marks: Seq<PositionMark>,
    open_at_end: bool,
)
    requires
        bundle_alike(a, b),
    ensures
        bundle_alike(
            bundle_rows(a, step, ts_ns, marks, open_at_end).0,
            bundle_rows(b, step, ts_ns, marks, open_at_end).0,
        ),
        bundle_rows(a, step, ts_ns, marks, open_at_end).1 == bundle_rows(
            b,
            step,
            ts_ns,
            marks,
            open_at_end,
        ).1,
    decreases marks.len(),
{
    if marks.len() > 0 {
        lemma_rows_alike(a, b, step, ts_ns, marks.drop_last(), open_at_end);
    }
}

/// Whether two runs have come equally far, apart from the wording of reasons.
pub open spec fn progress_alike(p: ProgressView, q: ProgressView) -> bool {
    &&& p.clock == q.clock
    &&& p.curve == q.curve
    &&& p.attribution == q.attribution
    &&& books_alike(p.books, q.books)
}

/// Whether two steps are the same, apart from the wording of reasons.
pub open spec fn step_alike(a: StepTrace, b: StepTrace) -> bool {
    &&& inputs_alike(a.inputs, b.inputs)
    &&& a.carry == b.carry
    &&& a.is_last == b.is_last
}

/// Steps that are alike lead on alike: from books that say the same to books
/// that say the same.
pub proof fn law_steps_lead_on_alike(p: ProgressView, q: ProgressView, s: StepTrace, t: StepTrace)
    requires
        progress_alike(p, q),
        step_alike(s, t),
        stepped(p, s) is Some,
        stepped(q, t) is Some,
    ensures
        progress_alike(stepped(p, s)->0, stepped(q, t)->0),
{
    let (a, b) = (entered(p, s), entered(q, t));
    let snapshot = s.inputs.snapshot;
    lemma_applied_alike(a.books, b.books, s.inputs, t.inputs, s.carry);
    let x = step_applied(a.books, s.inputs, s.carry)->Ok_0;
    let y = step_applied(b.books, t.inputs, t.carry)->Ok_0;
    let ledger = legs_taken_down(
        x.ledger,
        p.books.inventory,
        snapshot.spec.contract_multiplier,
    );
    let settled = after_settle(ledger, x.inventory, snapshot);
    lemma_rows_alike(
        x.bundle,
        y.bundle,
        snapshot.step.0,
        snapshot.ts.0,
        settled.position_marks,
        s.is_last,
    );
}

/// Openings that are alike lead on alike.
pub proof fn law_openings_lead_on_alike(b: BooksView, s: StepTrace, t: StepTrace)
    requires
        inputs_alike(s.inputs, t.inputs),
        s.carry == t.carry,
        started(b, s) is Some,
        started(b, t) is Some,
    ensures
        books_alike(
            started(b, s)->0,
            started(b, t)->0,
        ),
{
    let minted = with_minted(b, s.inputs.cmds);
    assert(books_alike(minted, minted));
    lemma_applied_alike(minted, minted, s.inputs, t.inputs, s.carry);
}

} // verus!
