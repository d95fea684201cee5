//! The books of a run: ids, inventory, ledger, trade log, fill stream and
//! resting orders, and what one order's fills do to all of them at once.
//!
//! The functions that move the books take them by value and give them back, so
//! that a refused event leaves no books behind.

use crate::domain::{
    ChainSnapshot, Fill, OpenPosition, OrderId, OrderIntent, PendingOrder, PositionAction,
    PositionId, Quantity, TradeId,
};
use crate::engine::bundle_collector::{
    bundle_closed, bundle_filled, bundle_opened, BundleCollector, BundleView, LegMeta,
    TerminalEvent,
};
use crate::engine::exit::ExitReason;
use crate::engine::fills::{
    aggregate, aggregate_fills, average, lemma_quantity_grows, notional, total_quantity, vwap_cents,
    FillAggregate,
};
use crate::engine::ledger::{after_fill, fill_fits, Ledger, LedgerView};
use crate::engine::tradelog::{
    log_closed, log_extended, log_opened, CloseEvent, OpenLeg, TradeLogCollector, TradeLogView,
};
use crate::error::{BacktestError, ErrorKind};
use crate::text::unsigned_text;
use std::collections::BTreeMap;
use vstd::prelude::*;
use vstd::string::*;

verus! {

/// The next ids. They are counted up, never drawn.
#[derive(Debug, Clone, Copy, PartialEq, Eq, Structural)]
pub struct IdCounters {
    /// The next position id.
    pub position: u64,
    /// The next order id.
    pub order: u64,
    /// The next trade id.
    pub trade: u64,
}

impl IdCounters {
    /// Fresh counters: every first id is one.
    pub fn new() -> (ids: Self)
        ensures
            ids == (IdCounters { position: 1, order: 1, trade: 1 }),
    {
        IdCounters { position: 1, order: 1, trade: 1 }
    }

    /// Mint a position id. An exhausted counter changes nothing.
    pub fn mint_position(&mut self) -> (r: Result<PositionId, BacktestError>)
        ensures
            match r {
                Ok(id) => id.0 == old(self).position && old(self).position < u64::MAX
                    && *final(self) == (IdCounters {
                    position: (old(self).position + 1) as u64,
                    ..*old(self)
                }),
                Err(e) => old(self).position == u64::MAX && *final(self) == *old(self) && e.kind()
                    == ErrorKind::ArithmeticOverflow,
            },
    {
        let id: u64 = self.position;
        match id.checked_add(1) {
            Some(next) => {
                self.position = next;
                Ok(PositionId(id))
            },
            None => Err(BacktestError::ArithmeticOverflow),
        }
    }

    /// Mint an order id. An exhausted counter changes nothing.
    pub fn mint_order(&mut self) -> (r: Result<OrderId, BacktestError>)
        ensures
            match r {
                Ok(id) => id.0 == old(self).order && old(self).order < u64::MAX && *final(self) == (
                IdCounters { order: (old(self).order + 1) as u64, ..*old(self) }),
                Err(e) => old(self).order == u64::MAX && *final(self) == *old(self) && e.kind()
                    == ErrorKind::ArithmeticOverflow,
            },
    {
        let id: u64 = self.order;
        match id.checked_add(1) {
            Some(next) => {
                self.order = next;
                Ok(OrderId(id))
            },
            None => Err(BacktestError::ArithmeticOverflow),
        }
    }

    /// Mint a trade id. An exhausted counter changes nothing.
    pub fn mint_trade(&mut self) -> (r: Result<TradeId, BacktestError>)
        ensures
            match r {
                Ok(id) => id.0 == old(self).trade && old(self).trade < u64::MAX && *final(self) == (
                IdCounters { trade: (old(self).trade + 1) as u64, ..*old(self) }),
                Err(e) => old(self).trade == u64::MAX && *final(self) == *old(self) && e.kind()
                    == ErrorKind::ArithmeticOverflow,
            },
    {
        let id: u64 = self.trade;
        match id.checked_add(1) {
            Some(next) => {
                self.trade = next;
                Ok(TradeId(id))
            },
            None => Err(BacktestError::ArithmeticOverflow),
        }
    }
}

/// One resting order: what the strategy sees of it, and what its later fills
/// need to know.
#[derive(Debug)]
pub struct PendingEntry {
    /// The order, with the size that is still resting.
    pub pending: PendingOrder,
    /// The trade that its fills belong to; none for a close.
    pub trade_id: Option<TradeId>,
    /// The leg that it opened so far, if any.
    pub position_id: Option<PositionId>,
    /// How many fills it had so far.
    pub fills_so_far: u32,
    /// Why it closes; none for an open.
    pub reason: Option<ExitReason>,
}

impl Clone for PendingEntry {
    fn clone(&self) -> (r: Self)
        ensures
            r == *self,
    {
        PendingEntry {
            pending: self.pending.clone(),
            trade_id: self.trade_id,
            position_id: self.position_id,
            fills_so_far: self.fills_so_far,
            reason: match &self.reason {
                Some(reason) => Some(reason.clone()),
                None => None,
            },
        }
    }
}

/// What the books hold.
pub struct BooksView {
    pub ids: IdCounters,
    pub inventory: Seq<OpenPosition>,
    pub ledger: LedgerView,
    pub log: TradeLogView,
    pub bundle: BundleView,
    pub pending: Map<u64, PendingEntry>,
}

/// The books of a run.
#[derive(Debug)]
pub struct Books {
    /// The next ids.
    pub ids: IdCounters,
    /// The open legs, in the order they were opened.
    pub inventory: Vec<OpenPosition>,
    /// Cash and marks.
    pub ledger: Ledger,
    /// The trade log.
    pub trade_log: TradeLogCollector,
    /// The fill stream and the position rows.
    pub bundle: BundleCollector,
    /// The resting orders, by order id.
    pub pending: BTreeMap<u64, PendingEntry>,
}

impl View for Books {
    type V = BooksView;

    open spec fn view(&self) -> BooksView {
        BooksView {
            ids: self.ids,
            inventory: self.inventory@,
            ledger: self.ledger@,
            log: self.trade_log@,
            bundle: self.bundle@,
            pending: self.pending@,
        }
    }
}

/// Whether moving the books came out as it should.
pub open spec fn books_agree(
    r: Result<Books, BacktestError>,
    expected: Result<BooksView, ErrorKind>,
) -> bool {
    match r {
        Ok(books) => expected == Ok::<BooksView, ErrorKind>(books@),
        Err(e) => expected == Err::<BooksView, ErrorKind>(e.kind()),
    }
}

/// Whether the leg `id` stands at place `i`, and nowhere before.
pub open spec fn is_leg_at(inventory: Seq<OpenPosition>, id: PositionId, i: int) -> bool {
    &&& 0 <= i < inventory.len()
    &&& inventory[i].position_id == id
    &&& forall|j: int| 0 <= j < i ==> (#[trigger] inventory[j]).position_id != id
}

/// Whether the leg `id` is open.
pub open spec fn has_leg(inventory: Seq<OpenPosition>, id: PositionId) -> bool {
    exists|i: int| is_leg_at(inventory, id, i)
}

/// The place of the leg `id`.
pub open spec fn leg_at(inventory: Seq<OpenPosition>, id: PositionId) -> int {
    choose|i: int| is_leg_at(inventory, id, i)
}

/// A leg stands at one place only.
pub proof fn lemma_leg_at(inventory: Seq<OpenPosition>, id: PositionId, i: int)
    requires
        is_leg_at(inventory, id, i),
    ensures
        has_leg(inventory, id),
        leg_at(inventory, id) == i,
{
    let j = leg_at(inventory, id);
    assert(is_leg_at(inventory, id, j));
    if j < i {
        assert(inventory[j].position_id != id);
    } else if i < j {
        assert(inventory[i].position_id != id);
    }
}

/// Find an open leg.
pub fn find_leg(inventory: &Vec<OpenPosition>, id: PositionId) -> (r: Option<usize>)
    ensures
        match r {
            Some(i) => has_leg(inventory@, id) && is_leg_at(inventory@, id, i as int) && i
                == leg_at(inventory@, id),
            None => !has_leg(inventory@, id),
        },
{
    let mut i: usize = 0;
    while i < inventory.len()
        invariant
            i <= inventory.len(),
            forall|j: int| 0 <= j < i ==> (#[trigger] inventory@[j]).position_id != id,
        decreases inventory.len() - i,
    {
        if inventory[i].position_id == id {
            proof {
                lemma_leg_at(inventory@, id, i as int);
            }
            return Some(i);
        }
        i = i + 1;
    }
    assert(!has_leg(inventory@, id)) by {
        if has_leg(inventory@, id) {
            let j = leg_at(inventory@, id);
            assert(inventory@[j].position_id == id);
        }
    }
    None
}

/// The inventory after a close of `quantity` contracts, and whether nothing of
/// the leg is left.
pub open spec fn reduced(
    inventory: Seq<OpenPosition>,
    id: PositionId,
    quantity: int,
) -> Result<(Seq<OpenPosition>, bool), ErrorKind> {
    if !has_leg(inventory, id) {
        Err(ErrorKind::Execution)
    } else {
        let i = leg_at(inventory, id);
        let open = inventory[i].quantity.n();
        if quantity > open {
            Err(ErrorKind::Execution)
        } else if quantity == open {
            Ok((inventory.remove(i), true))
        } else {
            Ok(
                (
                    inventory.update(
                        i,
                        OpenPosition { quantity: Quantity::of(open - quantity), ..inventory[i] },
                    ),
                    false,
                ),
            )
        }
    }
}

/// Close `close_qty` contracts of a leg, and tell whether nothing of it is
/// left. A leg that is not open, or too small, changes nothing.
pub fn reduce_leg(
    inventory: &mut Vec<OpenPosition>,
    position_id: PositionId,
    close_qty: Quantity,
) -> (r: Result<bool, BacktestError>)
    ensures
        match r {
            Ok(full) => reduced(old(inventory)@, position_id, close_qty.n()) == Ok::<
                (Seq<OpenPosition>, bool),
                ErrorKind,
            >((final(inventory)@, full)),
            Err(e) => reduced(old(inventory)@, position_id, close_qty.n()) == Err::<
                (Seq<OpenPosition>, bool),
                ErrorKind,
            >(e.kind()) && final(inventory)@ == old(inventory)@,
        },
{
    let idx: usize = match find_leg(inventory, position_id) {
        Some(idx) => idx,
        None => {
            return Err(
                BacktestError::Execution(
                    String::from_str("close targets position ").concat(
                        &unsigned_text(position_id.0 as u128),
                    ).concat(" which is not open"),
                ),
            );
        },
    };
    let open_qty: u32 = inventory[idx].quantity.value();
    let requested: u32 = close_qty.value();
    if requested > open_qty {
        return Err(
            BacktestError::Execution(
                String::from_str("close quantity ").concat(
                    &unsigned_text(requested as u128),
                ).concat(" exceeds open size ").concat(&unsigned_text(open_qty as u128)).concat(
                    " for position ",
                ).concat(&unsigned_text(position_id.0 as u128)),
            ),
        );
    }
    if requested == open_qty {
        inventory.remove(idx);
        return Ok(true);
    }
    let quantity = match Quantity::new(open_qty - requested) {
        Ok(quantity) => quantity,
        Err(e) => {
            return Err(e);
        },
    };
    let mut leg = inventory[idx].clone();
    leg.quantity = quantity;
    inventory.set(idx, leg);
    Ok(false)
}

/// The inventory after a leg grew by a run of fills: more contracts, at the
/// average of the old entry and the fills.
pub open spec fn extended(
    inventory: Seq<OpenPosition>,
    id: PositionId,
    fills: Seq<Fill>,
    added: int,
) -> Result<Seq<OpenPosition>, ErrorKind> {
    if !has_leg(inventory, id) {
        Err(ErrorKind::Execution)
    } else {
        let i = leg_at(inventory, id);
        let leg = inventory[i];
        let total = leg.quantity.n() + added;
        if total > u32::MAX {
            Err(ErrorKind::ArithmeticOverflow)
        } else {
            match average(leg.entry_premium.0 * leg.quantity.n() + notional(fills), total) {
                Ok(entry) => Ok(
                    inventory.update(
                        i,
                        OpenPosition {
                            quantity: Quantity::of(total),
                            entry_premium: entry,
                            ..leg
                        },
                    ),
                ),
                Err(kind) => Err(kind),
            }
        }
    }
}

/// What some fills traded for, which fits where their contracts do.
fn notional_of(fills: &[Fill]) -> (n: u128)
    requires
        total_quantity(fills@) <= u32::MAX,
    ensures
        n == notional(fills@),
        n <= u64::MAX * total_quantity(fills@),
{
    let mut n: u128 = 0;
    let ghost mut q: int = 0;
    let mut i: usize = 0;
    assert(fills@.take(0) =~= Seq::<Fill>::empty());
    while i < fills.len()
        invariant
            i <= fills.len(),
            total_quantity(fills@) <= u32::MAX,
            q == total_quantity(fills@.take(i as int)),
            0 <= q <= u32::MAX,
            n == notional(fills@.take(i as int)),
            n <= u64::MAX * q,
        decreases fills.len() - i,
    {
        let fill = &fills[i];
        let ghost next = fills@.take(i + 1);
        let ghost p = fill.price.0 as int;
        let ghost c = fill.quantity.n();
        proof {
            assert(next.drop_last() =~= fills@.take(i as int));
            assert(next.last() == *fill);
            lemma_quantity_grows(fills@, i + 1);
            fill.quantity.lemma_of();
            assert(0 <= p * c <= u64::MAX * c) by (nonlinear_arith)
                requires
                    0 <= p <= u64::MAX,
                    0 <= c,
            ;
            assert(u64::MAX * (q + c) == u64::MAX * q + u64::MAX * c) by (nonlinear_arith);
            assert(u64::MAX * (q + c) <= u64::MAX * u32::MAX) by (nonlinear_arith)
                requires
                    0 <= q + c <= u32::MAX,
            ;
        }
        n = n + fill.price.0 as u128 * fill.quantity.value() as u128;
        proof {
            q = q + c;
        }
        i = i + 1;
    }
    assert(fills@.take(fills@.len() as int) =~= fills@);
    n
}

/// Grow an open leg by a run of fills. A leg that is not open, or an
/// overflow, changes nothing.
pub fn extend_open_leg(
    inventory: &mut Vec<OpenPosition>,
    position_id: PositionId,
    order_fills: &[Fill],
    agg: &FillAggregate,
) -> (r: Result<(), BacktestError>)
    requires
        aggregate(order_fills@) == Ok::<FillAggregate, ErrorKind>(*agg),
    ensures
        match r {
            Ok(_) => extended(
                old(inventory)@,
                position_id,
                order_fills@,
                agg.quantity.n(),
            ) == Ok::<Seq<OpenPosition>, ErrorKind>(final(inventory)@),
            Err(e) => extended(
                old(inventory)@,
                position_id,
                order_fills@,
                agg.quantity.n(),
            ) == Err::<Seq<OpenPosition>, ErrorKind>(e.kind()) && final(inventory)@
                == old(inventory)@,
        },
{
    let idx: usize = match find_leg(inventory, position_id) {
        Some(idx) => idx,
        None => {
            return Err(
                BacktestError::Execution(
                    String::from_str("carry extension targets position ").concat(
                        &unsigned_text(position_id.0 as u128),
                    ).concat(" which is not open"),
                ),
            );
        },
    };
    let old_qty: u32 = inventory[idx].quantity.value();
    let entry: u64 = inventory[idx].entry_premium.0;
    let carried: u128 = notional_of(order_fills);
    assert(0 <= entry * old_qty <= u64::MAX * u32::MAX) by (nonlinear_arith)
        requires
            0 <= entry <= u64::MAX,
            0 <= old_qty <= u32::MAX,
    ;
    assert(carried <= u64::MAX * u32::MAX) by (nonlinear_arith)
        requires
            carried <= u64::MAX * total_quantity(order_fills@),
            total_quantity(order_fills@) <= u32::MAX,
    ;
    let total_notional: u128 = entry as u128 * old_qty as u128 + carried;
    let total: u64 = old_qty as u64 + agg.quantity.value() as u64;
    if total > u32::MAX as u64 {
        return Err(BacktestError::ArithmeticOverflow);
    }
    let quantity = match Quantity::new(total as u32) {
        Ok(quantity) => quantity,
        Err(e) => {
            return Err(e);
        },
    };
    let entry_premium = match vwap_cents(total_notional, total) {
        Ok(entry_premium) => entry_premium,
        Err(e) => {
            return Err(e);
        },
    };
    let mut leg = inventory[idx].clone();
    leg.quantity = quantity;
    leg.entry_premium = entry_premium;
    inventory.set(idx, leg);
    Ok(())
}

/// The fill stream and the ledger after a run of fills of one order: each
/// fill is recorded at its place among the order's fills, and moves cash.
pub open spec fn fills_applied(
    bundle: BundleView,
    ledger: LedgerView,
    fills: Seq<Fill>,
    order: u64,
    trade: u64,
    position: u64,
    first_seq: int,
    multiplier: int,
) -> Result<(BundleView, LedgerView), ErrorKind>
    decreases fills.len(),
{
    if fills.len() == 0 {
        Ok((bundle, ledger))
    } else {
        match fills_applied(
            bundle,
            ledger,
            fills.drop_last(),
            order,
            trade,
            position,
            first_seq,
            multiplier,
        ) {
            Err(kind) => Err(kind),
            Ok((b, l)) => {
                let seq = first_seq + fills.len() - 1;
                if seq > u32::MAX || !fill_fits(l, fills.last(), multiplier) {
                    Err(ErrorKind::ArithmeticOverflow)
                } else {
                    Ok(
                        (
                            bundle_filled(b, fills.last(), order, trade, position, seq as u32),
                            after_fill(l, fills.last(), multiplier),
                        ),
                    )
                }
            },
        }
    }
}

/// Once a fill is refused, no later fill changes that.
proof fn lemma_refusal_stays(
    bundle: BundleView,
    ledger: LedgerView,
    fills: Seq<Fill>,
    order: u64,
    trade: u64,
    position: u64,
    first_seq: int,
    multiplier: int,
    k: int,
)
    requires
        0 <= k <= fills.len(),
        fills_applied(
            bundle,
            ledger,
            fills.take(k),
            order,
            trade,
            position,
            first_seq,
            multiplier,
        ) is Err,
    ensures
        fills_applied(bundle, ledger, fills, order, trade, position, first_seq, multiplier)
            == fills_applied(
            bundle,
            ledger,
            fills.take(k),
            order,
            trade,
            position,
            first_seq,
            multiplier,
        ),
    decreases fills.len() - k,
{
    if k < fills.len() {
        assert(fills.take(k + 1).drop_last() =~= fills.take(k));
        lemma_refusal_stays(
            bundle,
            ledger,
            fills,
            order,
            trade,
            position,
            first_seq,
            multiplier,
            k + 1,
        );
    } else {
        assert(fills.take(k) =~= fills);
    }
}

/// Record a run of fills and move cash by each of them.
fn apply_fills(
    books: Books,
    fills: &[Fill],
    order_id: u64,
    trade_id: TradeId,
    position_id: PositionId,
    first_seq: u32,
    multiplier: u32,
) -> (r: Result<Books, BacktestError>)
    ensures
        books_agree(
            r,
            match fills_applied(
                books@.bundle,
                books@.ledger,
                fills@,
                order_id,
                trade_id.0,
                position_id.0,
                first_seq as int,
                multiplier as int,
            ) {
                Err(kind) => Err(kind),
                Ok((bundle, ledger)) => Ok(BooksView { bundle, ledger, ..books@ }),
            },
        ),
{
    let ghost before = books@;
    let mut work = books;
    let mut i: usize = 0;
    assert(fills@.take(0) =~= Seq::<Fill>::empty());
    while i < fills.len()
        invariant
            i <= fills.len(),
            before == books@,
            fills_applied(
                before.bundle,
                before.ledger,
                fills@.take(i as int),
                order_id,
                trade_id.0,
                position_id.0,
                first_seq as int,
                multiplier as int,
            ) == Ok::<(BundleView, LedgerView), ErrorKind>((work@.bundle, work@.ledger)),
            work@ == (BooksView {
                bundle: work@.bundle,
                ledger: work@.ledger,
                ..before
            }),
        decreases fills.len() - i,
    {
        let fill = &fills[i];
        proof {
            let next = fills@.take(i + 1);
            assert(next.drop_last() =~= fills@.take(i as int));
            assert(next.last() == *fill);
            if fills_applied(
                before.bundle,
                before.ledger,
                next,
                order_id,
                trade_id.0,
                position_id.0,
                first_seq as int,
                multiplier as int,
            ) is Err {
                lemma_refusal_stays(
                    before.bundle,
                    before.ledger,
                    fills@,
                    order_id,
                    trade_id.0,
                    position_id.0,
                    first_seq as int,
                    multiplier as int,
                    i + 1,
                );
            }
        }
        if i > u32::MAX as usize - first_seq as usize {
            return Err(BacktestError::ArithmeticOverflow);
        }
        let fill_seq: u32 = first_seq + i as u32;
        work.bundle.record_open_level(fill, order_id, trade_id, position_id, fill_seq);
        match work.ledger.apply_fill(fill, multiplier) {
            Ok(_) => {},
            Err(e) => {
                return Err(e);
            },
        }
        i = i + 1;
    }
    assert(fills@.take(fills@.len() as int) =~= fills@);
    Ok(work)
}

/// The books after a new leg was opened by a run of fills.
pub open spec fn leg_opened(
    b: BooksView,
    order: u64,
    trade: TradeId,
    position: PositionId,
    fills: Seq<Fill>,
    agg: FillAggregate,
    snapshot: ChainSnapshot,
    first_seq: int,
) -> Result<BooksView, ErrorKind> {
    let first = fills[0];
    match fills_applied(
        bundle_opened(
            b.bundle,
            position.0,
            LegMeta { trade_id: trade, entry_premium: agg.vwap, side: first.side },
        ),
        b.ledger,
        fills,
        order,
        trade.0,
        position.0,
        first_seq,
        snapshot.spec.contract_multiplier as int,
    ) {
        Err(kind) => Err(kind),
        Ok((bundle, ledger)) => Ok(
            BooksView {
                inventory: b.inventory.push(
                    OpenPosition {
                        position_id: position,
                        contract: first.contract,
                        side: first.side,
                        quantity: agg.quantity,
                        entry_premium: agg.vwap,
                    },
                ),
                log: log_opened(
                    b.log,
                    position.0,
                    OpenLeg {
                        trade_id: trade,
                        contract: first.contract,
                        side: first.side,
                        entry_premium: agg.vwap,
                        entry_ts: snapshot.ts.0,
                        remaining: agg.quantity.n() as u32,
                    },
                ),
                bundle,
                ledger,
                ..b
            },
        ),
    }
}

/// Open a new leg by a run of fills.
pub fn open_leg(
    books: Books,
    order_id: OrderId,
    trade_id: TradeId,
    position_id: PositionId,
    order_fills: &[Fill],
    agg: &FillAggregate,
    snapshot: &ChainSnapshot,
    first_seq: u32,
) -> (r: Result<Books, BacktestError>)
    requires
        order_fills@.len() > 0,
    ensures
        books_agree(
            r,
            leg_opened(
                books@,
                order_id.0,
                trade_id,
                position_id,
                order_fills@,
                *agg,
                *snapshot,
                first_seq as int,
            ),
        ),
{
    let mut books = books;
    let first = &order_fills[0];
    books.inventory.push(
        OpenPosition {
            position_id,
            contract: first.contract.clone(),
            side: first.side,
            quantity: agg.quantity,
            entry_premium: agg.vwap,
        },
    );
    books.trade_log.record_open(
        position_id,
        trade_id,
        first.contract.clone(),
        first.side,
        agg.quantity,
        agg.vwap,
        snapshot.ts.0,
    );
    books.bundle.register_open_leg(position_id, trade_id, agg.vwap, first.side);
    apply_fills(
        books,
        order_fills,
        order_id.0,
        trade_id,
        position_id,
        first_seq,
        snapshot.spec.contract_multiplier,
    )
}

/// The books after an open leg grew by a run of fills.
pub open spec fn leg_extended(
    b: BooksView,
    order: u64,
    trade: TradeId,
    position: PositionId,
    fills: Seq<Fill>,
    agg: FillAggregate,
    snapshot: ChainSnapshot,
    first_seq: int,
) -> Result<BooksView, ErrorKind> {
    match extended(b.inventory, position, fills, agg.quantity.n()) {
        Err(kind) => Err(kind),
        Ok(inventory) => {
            let entry = inventory[leg_at(b.inventory, position)].entry_premium;
            match log_extended(b.log, position.0, agg.quantity.n(), entry) {
                Err(kind) => Err(kind),
                Ok(log) => match fills_applied(
                    bundle_opened(
                        b.bundle,
                        position.0,
                        LegMeta { trade_id: trade, entry_premium: entry, side: fills[0].side },
                    ),
                    b.ledger,
                    fills,
                    order,
                    trade.0,
                    position.0,
                    first_seq,
                    snapshot.spec.contract_multiplier as int,
                ) {
                    Err(kind) => Err(kind),
                    Ok((bundle, ledger)) => Ok(
                        BooksView { inventory, log, bundle, ledger, ..b },
                    ),
                },
            }
        },
    }
}

/// Grow an open leg by a run of fills.
pub fn extend_leg(
    books: Books,
    order_id: OrderId,
    trade_id: TradeId,
    position_id: PositionId,
    order_fills: &[Fill],
    agg: &FillAggregate,
    snapshot: &ChainSnapshot,
    first_seq: u32,
) -> (r: Result<Books, BacktestError>)
    requires
        order_fills@.len() > 0,
        aggregate(order_fills@) == Ok::<FillAggregate, ErrorKind>(*agg),
    ensures
        books_agree(
            r,
            leg_extended(
                books@,
                order_id.0,
                trade_id,
                position_id,
                order_fills@,
                *agg,
                *snapshot,
                first_seq as int,
            ),
        ),
{
    let ghost before = books@.inventory;
    let mut books = books;
    match extend_open_leg(&mut books.inventory, position_id, order_fills, agg) {
        Ok(_) => {},
        Err(e) => {
            return Err(e);
        },
    }
    proof {
        let i = leg_at(before, position_id);
        assert(is_leg_at(before, position_id, i));
        assert(is_leg_at(books.inventory@, position_id, i)) by {
            assert forall|j: int| 0 <= j < i implies (
            #[trigger] books.inventory@[j]).position_id != position_id by {
                assert(before[j].position_id != position_id);
            }
        }
        lemma_leg_at(books.inventory@, position_id, i);
    }
    let entry = match find_leg(&books.inventory, position_id) {
        Some(idx) => books.inventory[idx].entry_premium,
        None => {
            return Err(
                BacktestError::Execution(
                    String::from_str("carry extension lost leg ").concat(
                        &unsigned_text(position_id.0 as u128),
                    ),
                ),
            );
        },
    };
    match books.trade_log.record_open_extend(position_id, agg.quantity, entry) {
        Ok(_) => {},
        Err(e) => {
            return Err(e);
        },
    }
    books.bundle.register_open_leg(position_id, trade_id, entry, order_fills[0].side);
    apply_fills(
        books,
        order_fills,
        order_id.0,
        trade_id,
        position_id,
        first_seq,
        snapshot.spec.contract_multiplier,
    )
}

/// What the log is told of a close by a run of fills.
pub open spec fn close_event(
    position: PositionId,
    agg: FillAggregate,
    snapshot: ChainSnapshot,
    reason: ExitReason,
) -> CloseEvent {
    CloseEvent {
        position,
        exit_price: agg.vwap,
        fees: agg.fees,
        slippage: agg.slippage,
        exit_ts: snapshot.ts.0,
        quantity: agg.quantity,
        multiplier: snapshot.spec.contract_multiplier,
        reason,
    }
}

/// What the terminal row is made of when a run of fills closes a leg in full.
pub open spec fn terminal_event(
    position: PositionId,
    first: Fill,
    agg: FillAggregate,
    snapshot: ChainSnapshot,
    reason: ExitReason,
) -> TerminalEvent {
    TerminalEvent {
        contract: first.contract,
        step: first.step.0,
        ts_ns: first.ts.0,
        position,
        quantity: agg.quantity.n() as u32,
        snapshot_mark: snapshot.mid_of(first.contract),
        multiplier: snapshot.spec.contract_multiplier,
        reason,
    }
}

/// The books after a leg was closed, in part or whole, by a run of fills.
pub open spec fn leg_closed(
    b: BooksView,
    order: u64,
    position: PositionId,
    fills: Seq<Fill>,
    agg: FillAggregate,
    snapshot: ChainSnapshot,
    first_seq: int,
    reason: ExitReason,
) -> Result<BooksView, ErrorKind> {
    match reduced(b.inventory, position, agg.quantity.n()) {
        Err(kind) => Err(kind),
        Ok((inventory, full)) => match log_closed(
            b.log,
            close_event(position, agg, snapshot, reason),
        ) {
            Err(kind) => Err(kind),
            Ok(log) => if !b.bundle.open_legs.dom().contains(position.0) {
                Err(ErrorKind::Execution)
            } else {
                match fills_applied(
                    b.bundle,
                    b.ledger,
                    fills,
                    order,
                    b.bundle.open_legs[position.0].trade_id.0,
                    position.0,
                    first_seq,
                    snapshot.spec.contract_multiplier as int,
                ) {
                    Err(kind) => Err(kind),
                    Ok((bundle, ledger)) => if full {
                        match bundle_closed(
                            bundle,
                            terminal_event(position, fills[0], agg, snapshot, reason),
                        ) {
                            Err(kind) => Err(kind),
                            Ok(bundle) => Ok(
                                BooksView { inventory, log, bundle, ledger, ..b },
                            ),
                        }
                    } else {
                        Ok(BooksView { inventory, log, bundle, ledger, ..b })
                    },
                }
            },
        },
    }
}

/// Close a leg, in part or whole, by a run of fills.
pub fn close_leg(
    books: Books,
    order_id: OrderId,
    position_id: PositionId,
    order_fills: &[Fill],
    agg: &FillAggregate,
    snapshot: &ChainSnapshot,
    first_seq: u32,
    reason: ExitReason,
) -> (r: Result<Books, BacktestError>)
    requires
        order_fills@.len() > 0,
    ensures
        books_agree(
            r,
            leg_closed(
                books@,
                order_id.0,
                position_id,
                order_fills@,
                *agg,
                *snapshot,
                first_seq as int,
                reason,
            ),
        ),
{
    let mut books = books;
    let first = &order_fills[0];
    let multiplier: u32 = snapshot.spec.contract_multiplier;
    let full = match reduce_leg(&mut books.inventory, position_id, agg.quantity) {
        Ok(full) => full,
        Err(e) => {
            return Err(e);
        },
    };
    match books.trade_log.record_close(
        position_id,
        agg.vwap,
        agg.fees,
        agg.slippage,
        snapshot.ts.0,
        agg.quantity,
        multiplier,
        reason.clone(),
    ) {
        Ok(_) => {},
        Err(e) => {
            return Err(e);
        },
    }
    let trade_id = match books.bundle.open_legs.get(&position_id.0) {
        Some(leg) => leg.trade_id,
        None => {
            return Err(
                BacktestError::Execution(
                    String::from_str("bundle close targets position ").concat(
                        &unsigned_text(position_id.0 as u128),
                    ).concat(" which is not open"),
                ),
            );
        },
    };
    let snapshot_mark = snapshot.mid(&first.contract);
    let mut books = match apply_fills(
        books,
        order_fills,
        order_id.0,
        trade_id,
        position_id,
        first_seq,
        multiplier,
    ) {
        Ok(books) => books,
        Err(e) => {
            return Err(e);
        },
    };
    if full {
        match books.bundle.record_close_terminal(
            &first.contract,
            first.step.0,
            first.ts.0,
            position_id,
            agg.quantity.value(),
            snapshot_mark,
            multiplier,
            reason,
        ) {
            Ok(_) => {},
            Err(e) => {
                return Err(e);
            },
        }
    }
    Ok(books)
}

/// The next trade id, or the one that is already there.
pub open spec fn trade_for(
    existing: Option<TradeId>,
    ids: IdCounters,
) -> Result<(TradeId, IdCounters), ErrorKind> {
    match existing {
        Some(trade) => Ok((trade, ids)),
        None => if ids.trade == u64::MAX {
            Err(ErrorKind::ArithmeticOverflow)
        } else {
            Ok((TradeId(ids.trade), IdCounters { trade: (ids.trade + 1) as u64, ..ids }))
        },
    }
}

/// Take the trade that is already there, or mint one.
pub fn trade_or_mint(existing: Option<TradeId>, ids: &mut IdCounters) -> (r: Result<
    TradeId,
    BacktestError,
>)
    ensures
        match r {
            Ok(trade) => trade_for(existing, *old(ids)) == Ok::<(TradeId, IdCounters), ErrorKind>(
                (trade, *final(ids)),
            ),
            Err(e) => trade_for(existing, *old(ids)) == Err::<(TradeId, IdCounters), ErrorKind>(
                e.kind(),
            ) && *final(ids) == *old(ids),
        },
{
    match existing {
        Some(trade) => Ok(trade),
        None => ids.mint_trade(),
    }
}

/// A resting order after some of it was filled, or nothing where all of it
/// was.
pub open spec fn still_resting(
    entry: PendingEntry,
    trade_id: Option<TradeId>,
    position_id: Option<PositionId>,
    produced: int,
    filled: int,
) -> Result<Option<PendingEntry>, ErrorKind> {
    let remaining = entry.pending.intent.quantity.n() - filled;
    if entry.fills_so_far + produced > u32::MAX {
        Err(ErrorKind::ArithmeticOverflow)
    } else if remaining < 0 {
        Err(ErrorKind::Execution)
    } else if remaining == 0 {
        Ok(None)
    } else {
        Ok(
            Some(
                PendingEntry {
                    pending: PendingOrder {
                        intent: OrderIntent {
                            quantity: Quantity::of(remaining),
                            ..entry.pending.intent
                        },
                        ..entry.pending
                    },
                    trade_id,
                    position_id,
                    fills_so_far: (entry.fills_so_far + produced) as u32,
                    reason: entry.reason,
                },
            ),
        )
    }
}

/// The books after an entry of the resting orders was settled: back with its
/// new size, or gone.
pub open spec fn entry_settled(
    b: Result<BooksView, ErrorKind>,
    order: u64,
    entry: Result<Option<PendingEntry>, ErrorKind>,
) -> Result<BooksView, ErrorKind> {
    match (b, entry) {
        (Err(kind), _) => Err(kind),
        (Ok(_), Err(kind)) => Err(kind),
        (Ok(books), Ok(Some(e))) => Ok(
            BooksView { pending: books.pending.insert(order, e), ..books },
        ),
        (Ok(books), Ok(None)) => Ok(BooksView { pending: books.pending.remove(order), ..books }),
    }
}

/// The books after fills of a resting order that opens.
pub open spec fn carried_open(
    b: BooksView,
    order: OrderId,
    fills: Seq<Fill>,
    agg: FillAggregate,
    snapshot: ChainSnapshot,
) -> Result<BooksView, ErrorKind> {
    let entry = b.pending[order.0];
    match trade_for(entry.trade_id, b.ids) {
        Err(kind) => Err(kind),
        Ok((trade, ids)) => match entry.position_id {
            Some(position) => entry_settled(
                leg_extended(
                    BooksView { ids, ..b },
                    order.0,
                    trade,
                    position,
                    fills,
                    agg,
                    snapshot,
                    entry.fills_so_far as int,
                ),
                order.0,
                still_resting(
                    entry,
                    Some(trade),
                    Some(position),
                    fills.len() as int,
                    agg.quantity.n(),
                ),
            ),
            None => if ids.position == u64::MAX {
                Err(ErrorKind::ArithmeticOverflow)
            } else {
                entry_settled(
                    leg_opened(
                        BooksView {
                            ids: IdCounters { position: (ids.position + 1) as u64, ..ids },
                            ..b
                        },
                        order.0,
                        trade,
                        PositionId(ids.position),
                        fills,
                        agg,
                        snapshot,
                        entry.fills_so_far as int,
                    ),
                    order.0,
                    still_resting(
                        entry,
                        Some(trade),
                        Some(PositionId(ids.position)),
                        fills.len() as int,
                        agg.quantity.n(),
                    ),
                )
            },
        },
    }
}

/// Why a resting order closes.
pub open spec fn resting_reason(entry: PendingEntry) -> ExitReason {
    match entry.reason {
        Some(reason) => reason,
        None => ExitReason::ManualClose,
    }
}

/// The books after fills of a resting order of an earlier step.
pub open spec fn carried(
    b: BooksView,
    order: OrderId,
    fills: Seq<Fill>,
    snapshot: ChainSnapshot,
) -> Result<BooksView, ErrorKind> {
    if !b.pending.dom().contains(order.0) {
        Err(ErrorKind::Execution)
    } else {
        match aggregate(fills) {
            Err(kind) => Err(kind),
            Ok(agg) => if fills.len() > u32::MAX {
                Err(ErrorKind::ArithmeticOverflow)
            } else {
                let entry = b.pending[order.0];
                match entry.pending.intent.action {
                    PositionAction::Open => carried_open(b, order, fills, agg, snapshot),
                    PositionAction::Close(position) => entry_settled(
                        leg_closed(
                            b,
                            order.0,
                            position,
                            fills,
                            agg,
                            snapshot,
                            entry.fills_so_far as int,
                            resting_reason(entry),
                        ),
                        order.0,
                        still_resting(
                            entry,
                            entry.trade_id,
                            entry.position_id,
                            fills.len() as int,
                            agg.quantity.n(),
                        ),
                    ),
                }
            },
        }
    }
}

/// Put a resting order back with the size that is left of it, or drop it.
fn settle_entry(
    books: Books,
    order_id: OrderId,
    entry: PendingEntry,
    trade_id: Option<TradeId>,
    position_id: Option<PositionId>,
    produced: u32,
    filled: Quantity,
) -> (r: Result<Books, BacktestError>)
    ensures
        books_agree(
            r,
            entry_settled(
                Ok(books@),
                order_id.0,
                still_resting(entry, trade_id, position_id, produced as int, filled.n()),
            ),
        ),
{
    let mut books = books;
    let fills_so_far: u32 = match entry.fills_so_far.checked_add(produced) {
        Some(n) => n,
        None => {
            return Err(BacktestError::ArithmeticOverflow);
        },
    };
    let remaining: u32 = match entry.pending.intent.quantity.value().checked_sub(filled.value()) {
        Some(n) => n,
        None => {
            return Err(
                BacktestError::Execution(
                    String::from_str("carry fills exceed order ").concat(
                        &unsigned_text(order_id.0 as u128),
                    ).concat("'s resting size"),
                ),
            );
        },
    };
    if remaining == 0 {
        books.pending.remove(&order_id.0);
        return Ok(books);
    }
    let quantity = match Quantity::new(remaining) {
        Ok(quantity) => quantity,
        Err(e) => {
            return Err(e);
        },
    };
    let mut pending = entry.pending;
    pending.intent.quantity = quantity;
    books.pending.insert(
        order_id.0,
        PendingEntry { pending, trade_id, position_id, fills_so_far, reason: entry.reason },
    );
    Ok(books)
}

/// Apply the fills of a resting order that opens.
fn apply_carry_open(
    books: Books,
    order_id: OrderId,
    entry: PendingEntry,
    order_fills: &[Fill],
    agg: &FillAggregate,
    snapshot: &ChainSnapshot,
    count: u32,
) -> (r: Result<Books, BacktestError>)
    requires
        order_fills@.len() == count,
        order_fills@.len() > 0,
        aggregate(order_fills@) == Ok::<FillAggregate, ErrorKind>(*agg),
        books@.pending.dom().contains(order_id.0),
        books@.pending[order_id.0] == entry,
    ensures
        books_agree(r, carried_open(books@, order_id, order_fills@, *agg, *snapshot)),
{
    let mut books = books;
    let trade_id = match trade_or_mint(entry.trade_id, &mut books.ids) {
        Ok(trade_id) => trade_id,
        Err(e) => {
            return Err(e);
        },
    };
    let first_seq: u32 = entry.fills_so_far;
    let (opened, position_id) = match entry.position_id {
        Some(position_id) => (
            extend_leg(
                books,
                order_id,
                trade_id,
                position_id,
                order_fills,
                agg,
                snapshot,
                first_seq,
            ),
            position_id,
        ),
        None => {
            let position_id = match books.ids.mint_position() {
                Ok(position_id) => position_id,
                Err(e) => {
                    return Err(e);
                },
            };
            (
                open_leg(
                    books,
                    order_id,
                    trade_id,
                    position_id,
                    order_fills,
                    agg,
                    snapshot,
                    first_seq,
                ),
                position_id,
            )
        },
    };
    match opened {
        Ok(books) => settle_entry(
            books,
            order_id,
            entry,
            Some(trade_id),
            Some(position_id),
            count,
            agg.quantity,
        ),
        Err(e) => Err(e),
    }
}

/// Apply the fills of a resting order of an earlier step: an order that opens
/// builds one leg out of all its fills, an order that closes reduces its leg.
pub fn apply_carry_group(
    books: Books,
    order_id: OrderId,
    order_fills: &[Fill],
    snapshot: &ChainSnapshot,
) -> (r: Result<Books, BacktestError>)
    ensures
        books_agree(r, carried(books@, order_id, order_fills@, *snapshot)),
{
    let entry: PendingEntry = match books.pending.get(&order_id.0) {
        Some(entry) => entry.clone(),
        None => {
            return Err(
                BacktestError::Execution(
                    String::from_str("carry group names order ").concat(
                        &unsigned_text(order_id.0 as u128),
                    ).concat(" which is not pending"),
                ),
            );
        },
    };
    let agg = match aggregate_fills(order_fills) {
        Ok(agg) => agg,
        Err(e) => {
            return Err(e);
        },
    };
    if order_fills.len() > u32::MAX as usize {
        return Err(BacktestError::ArithmeticOverflow);
    }
    let count: u32 = order_fills.len() as u32;
    match entry.pending.intent.action {
        PositionAction::Open => apply_carry_open(
            books,
            order_id,
            entry,
            order_fills,
            &agg,
            snapshot,
            count,
        ),
        PositionAction::Close(position_id) => {
            let reason = match &entry.reason {
                Some(reason) => reason.clone(),
                None => ExitReason::ManualClose,
            };
            match close_leg(
                books,
                order_id,
                position_id,
                order_fills,
                &agg,
                snapshot,
                entry.fills_so_far,
                reason,
            ) {
                Ok(books) => {
                    let trade_id = entry.trade_id;
                    let held = entry.position_id;
                    settle_entry(books, order_id, entry, trade_id, held, count, agg.quantity)
                },
                Err(e) => Err(e),
            }
        },
    }
}

} // verus!
