//! One step's fills, correlated to the commands that asked for them.
//!
//! The fills of a step are a flat list. At its front stand the fills of orders
//! that rested since an earlier step, group by group as the carry channel says;
//! behind them stand the fills of the step's own commands, in the order of the
//! commands: one per submitted order where no groups are given, or as many as
//! each order's group says.

use crate::domain::{
    ChainSnapshot, Fill, OrderCommand, OrderId, OrderIntent, PendingOrder, PositionAction,
    PositionId, Quantity, TimeInForce, TradeId,
};
use crate::engine::books::{
    apply_carry_group, books_agree, carried, close_leg, leg_closed, leg_opened, open_leg,
    trade_for, trade_or_mint, Books, BooksView, IdCounters, PendingEntry,
};
use crate::engine::exit::ExitReason;
use crate::engine::fills::{aggregate, aggregate_fills};
use crate::error::{BacktestError, ErrorKind};
use crate::execution::{groups_of, CarryGroup, FillGroup};
use crate::text::unsigned_text;
use vstd::prelude::*;
use vstd::slice::*;
use vstd::string::*;

verus! {

/// Which phase of a step emitted which of its closes.
#[derive(Debug)]
pub struct CloseReasons {
    /// Closes before this command index come from the exit policy.
    pub exits_end: usize,
    /// Closes from this command index on come from the end of the tape.
    pub on_end_start: usize,
    /// The reason of the exit policy's closes.
    pub policy_reason: ExitReason,
    /// The reason of the closes at the end of the tape.
    pub end_reason: ExitReason,
}

/// Whether a reason is the one that is recorded for what is closed at the end of
/// the tape.
pub open spec fn is_end_reason(reason: ExitReason) -> bool {
    reason matches ExitReason::Other(text) && text@ == "end_of_data"@
}

impl CloseReasons {
    /// The phases of a step.
    pub fn new(exits_end: usize, on_end_start: usize, policy_reason: ExitReason) -> (r: Self)
        ensures
            r.exits_end == exits_end,
            r.on_end_start == on_end_start,
            r.policy_reason == policy_reason,
            is_end_reason(r.end_reason),
    {
        CloseReasons {
            exits_end,
            on_end_start,
            policy_reason,
            end_reason: ExitReason::Other(String::from_str("end_of_data")),
        }
    }

    /// The reason of a close at command index `idx`.
    pub open spec fn reason_at(self, idx: int) -> ExitReason {
        if idx < self.exits_end {
            self.policy_reason
        } else if idx >= self.on_end_start {
            self.end_reason
        } else {
            ExitReason::ManualClose
        }
    }

    /// The reason of a close at command index `idx`: the exit policy's, the
    /// end of the tape, or the strategy's own decision in between.
    pub fn reason_for(&self, idx: usize) -> (r: ExitReason)
        ensures
            r == self.reason_at(idx as int),
    {
        if idx < self.exits_end {
            self.policy_reason.clone()
        } else if idx >= self.on_end_start {
            self.end_reason.clone()
        } else {
            ExitReason::ManualClose
        }
    }
}

/// What one step hands to the correlation.
pub struct StepInputs {
    pub cmds: Seq<OrderCommand>,
    pub fills: Seq<Fill>,
    pub groups: Option<Seq<FillGroup>>,
    pub submit_ids: Seq<OrderId>,
    pub snapshot: ChainSnapshot,
    pub reasons: CloseReasons,
}

/// Where the walk over a step's commands stands.
pub struct WalkView {
    /// The books.
    pub books: BooksView,
    /// The next fill.
    pub cursor: int,
    /// The next group.
    pub group: int,
    /// The trade of the step's opens, once there is one.
    pub trade: Option<TradeId>,
    /// The next order id.
    pub ordinal: int,
}

/// Where the walk over a step's commands stands.
struct Walk {
    books: Books,
    cursor: usize,
    group: usize,
    trade: Option<TradeId>,
    ordinal: usize,
}

impl Walk {
    spec fn view(&self) -> WalkView {
        WalkView {
            books: self.books@,
            cursor: self.cursor as int,
            group: self.group as int,
            trade: self.trade,
            ordinal: self.ordinal as int,
        }
    }
}

/// Whether the next group belongs to the command at `idx`.
pub open spec fn group_due(groups: Option<Seq<FillGroup>>, group: int, idx: int) -> bool {
    match groups {
        None => false,
        Some(g) => 0 <= group < g.len() && g[group].command_index == idx,
    }
}

/// How many fills the order at command index `idx` produced.
pub open spec fn fills_due(groups: Option<Seq<FillGroup>>, group: int, idx: int) -> int {
    match groups {
        None => 1,
        Some(g) => if group_due(groups, group, idx) {
            g[group].fill_count as int
        } else {
            0
        },
    }
}

/// The entry of an order that goes on resting.
pub open spec fn resting_entry(
    order: OrderId,
    intent: OrderIntent,
    remaining: int,
    produced: int,
    trade_id: Option<TradeId>,
    position_id: Option<PositionId>,
    reason: Option<ExitReason>,
) -> PendingEntry {
    PendingEntry {
        pending: PendingOrder {
            order_id: order,
            intent: OrderIntent { quantity: Quantity::of(remaining), ..intent },
        },
        trade_id,
        position_id,
        fills_so_far: produced as u32,
        reason,
    }
}

/// The books after an order without a fill came to rest.
pub open spec fn rested(
    w: WalkView,
    order: OrderId,
    intent: OrderIntent,
    reason: ExitReason,
) -> Result<WalkView, ErrorKind> {
    match intent.action {
        PositionAction::Open => match trade_for(w.trade, w.books.ids) {
            Err(kind) => Err(kind),
            Ok((trade, ids)) => Ok(
                WalkView {
                    books: BooksView {
                        ids,
                        pending: w.books.pending.insert(
                            order.0,
                            resting_entry(
                                order,
                                intent,
                                intent.quantity.n(),
                                0,
                                Some(trade),
                                None,
                                None,
                            ),
                        ),
                        ..w.books
                    },
                    trade: Some(trade),
                    ..w
                },
            ),
        },
        PositionAction::Close(_) => Ok(
            WalkView {
                books: BooksView {
                    pending: w.books.pending.insert(
                        order.0,
                        resting_entry(
                            order,
                            intent,
                            intent.quantity.n(),
                            0,
                            None,
                            None,
                            Some(reason),
                        ),
                    ),
                    ..w.books
                },
                ..w
            },
        ),
    }
}

/// The walk after a run of fills, with what is left of a resting order put to
/// rest.
pub open spec fn remainder_rested(
    w: WalkView,
    order: OrderId,
    intent: OrderIntent,
    filled: int,
    produced: int,
    trade_id: Option<TradeId>,
    position_id: Option<PositionId>,
    reason: Option<ExitReason>,
) -> Result<WalkView, ErrorKind> {
    if intent.tif is Gtc && filled < intent.quantity.n() {
        if produced > u32::MAX {
            Err(ErrorKind::ArithmeticOverflow)
        } else {
            Ok(
                WalkView {
                    books: BooksView {
                        pending: w.books.pending.insert(
                            order.0,
                            resting_entry(
                                order,
                                intent,
                                intent.quantity.n() - filled,
                                produced,
                                trade_id,
                                position_id,
                                reason,
                            ),
                        ),
                        ..w.books
                    },
                    ..w
                },
            )
        }
    } else {
        Ok(w)
    }
}

/// The walk after an order was filled by a run of fills.
pub open spec fn filled(
    w: WalkView,
    order: OrderId,
    intent: OrderIntent,
    run: Seq<Fill>,
    snapshot: ChainSnapshot,
    reason: ExitReason,
) -> Result<WalkView, ErrorKind> {
    match aggregate(run) {
        Err(kind) => Err(kind),
        Ok(agg) => match intent.action {
            PositionAction::Open => match trade_for(w.trade, w.books.ids) {
                Err(kind) => Err(kind),
                Ok((trade, ids)) => if ids.position == u64::MAX {
                    Err(ErrorKind::ArithmeticOverflow)
                } else {
                    let position = PositionId(ids.position);
                    match leg_opened(
                        BooksView {
                            ids: IdCounters { position: (ids.position + 1) as u64, ..ids },
                            ..w.books
                        },
                        order.0,
                        trade,
                        position,
                        run,
                        agg,
                        snapshot,
                        0,
                    ) {
                        Err(kind) => Err(kind),
                        Ok(books) => remainder_rested(
                            WalkView { books, trade: Some(trade), ..w },
                            order,
                            intent,
                            agg.quantity.n(),
                            run.len() as int,
                            Some(trade),
                            Some(position),
                            None,
                        ),
                    }
                },
            },
            PositionAction::Close(position) => match leg_closed(
                w.books,
                order.0,
                position,
                run,
                agg,
                snapshot,
                0,
                reason,
            ) {
                Err(kind) => Err(kind),
                Ok(books) => remainder_rested(
                    WalkView { books, ..w },
                    order,
                    intent,
                    agg.quantity.n(),
                    run.len() as int,
                    None,
                    None,
                    Some(reason),
                ),
            },
        },
    }
}

/// The walk after one submitted order: it takes its fills off the front of
/// what is left, or comes to rest.
pub open spec fn submitted(
    w: WalkView,
    inputs: StepInputs,
    idx: int,
    intent: OrderIntent,
) -> Result<WalkView, ErrorKind> {
    if w.ordinal >= inputs.submit_ids.len() {
        Err(ErrorKind::Execution)
    } else {
        let order = inputs.submit_ids[w.ordinal];
        let count = fills_due(inputs.groups, w.group, idx);
        let group = if group_due(inputs.groups, w.group, idx) {
            w.group + 1
        } else {
            w.group
        };
        let reason = inputs.reasons.reason_at(idx);
        if count == 0 {
            if intent.tif is Gtc {
                rested(
                    WalkView { group, ordinal: w.ordinal + 1, ..w },
                    order,
                    intent,
                    reason,
                )
            } else {
                Err(ErrorKind::Execution)
            }
        } else if w.cursor + count > inputs.fills.len() {
            Err(ErrorKind::Execution)
        } else {
            filled(
                WalkView { cursor: w.cursor + count, group, ordinal: w.ordinal + 1, ..w },
                order,
                intent,
                inputs.fills.subrange(w.cursor, w.cursor + count),
                inputs.snapshot,
                reason,
            )
        }
    }
}

/// The walk without the resting order `order`.
pub open spec fn dropped(w: WalkView, order: OrderId) -> WalkView {
    WalkView {
        books: BooksView { pending: w.books.pending.remove(order.0), ..w.books },
        ..w
    }
}

/// The walk after the command at `idx`.
pub open spec fn commanded(w: WalkView, inputs: StepInputs, idx: int) -> Result<
    WalkView,
    ErrorKind,
> {
    match inputs.cmds[idx] {
        OrderCommand::Submit(intent) => submitted(w, inputs, idx, intent),
        OrderCommand::Cancel(order) => Ok(dropped(w, order)),
        OrderCommand::Replace { order_id, replacement } => submitted(
            dropped(w, order_id),
            inputs,
            idx,
            replacement,
        ),
    }
}

/// The walk after the first `k` commands.
pub open spec fn walked(w: WalkView, inputs: StepInputs, k: int) -> Result<WalkView, ErrorKind>
    decreases k,
{
    if k <= 0 {
        Ok(w)
    } else {
        match walked(w, inputs, k - 1) {
            Err(kind) => Err(kind),
            Ok(before) => commanded(before, inputs, k - 1),
        }
    }
}

/// The fills of some carry groups.
pub open spec fn carry_total(carry: Seq<CarryGroup>) -> int
    decreases carry.len(),
{
    if carry.len() == 0 {
        0
    } else {
        carry_total(carry.drop_last()) + carry.last().fill_count
    }
}

/// The fills of some groups.
pub open spec fn group_total(groups: Seq<FillGroup>) -> int
    decreases groups.len(),
{
    if groups.len() == 0 {
        0
    } else {
        group_total(groups.drop_last()) + groups.last().fill_count
    }
}

/// The submitted orders among some commands.
pub open spec fn submit_total(cmds: Seq<OrderCommand>) -> int
    decreases cmds.len(),
{
    if cmds.len() == 0 {
        0
    } else {
        submit_total(cmds.drop_last()) + (if cmds.last() is Submit {
            1int
        } else {
            0int
        })
    }
}

/// How many fills the commands of a step account for.
pub open spec fn command_total(inputs: StepInputs) -> int {
    match inputs.groups {
        None => submit_total(inputs.cmds),
        Some(groups) => group_total(groups),
    }
}

/// Whether a command names a resting order.
pub open spec fn names_resting(pending: Map<u64, PendingEntry>, cmd: OrderCommand) -> bool {
    match cmd {
        OrderCommand::Submit(_) => true,
        OrderCommand::Cancel(order) => pending.dom().contains(order.0),
        OrderCommand::Replace { order_id, replacement } => pending.dom().contains(order_id.0),
    }
}

/// Whether every cancelled or replaced order rested when the step began.
pub open spec fn lifecycle_valid(
    pending: Map<u64, PendingEntry>,
    cmds: Seq<OrderCommand>,
) -> bool {
    forall|i: int| 0 <= i < cmds.len() ==> names_resting(pending, #[trigger] cmds[i])
}

/// The books after the fills at the front were applied to the resting orders
/// that they belong to.
pub open spec fn carry_applied(
    b: BooksView,
    fills: Seq<Fill>,
    carry: Seq<CarryGroup>,
    snapshot: ChainSnapshot,
) -> Result<BooksView, ErrorKind>
    decreases carry.len(),
{
    if carry.len() == 0 {
        Ok(b)
    } else {
        match carry_applied(b, fills, carry.drop_last(), snapshot) {
            Err(kind) => Err(kind),
            Ok(before) => carried(
                before,
                carry.last().order_id,
                fills.subrange(carry_total(carry.drop_last()), carry_total(carry)),
                snapshot,
            ),
        }
    }
}

/// The books after a step's fills.
pub open spec fn step_applied(
    b: BooksView,
    inputs: StepInputs,
    carry: Seq<CarryGroup>,
) -> Result<BooksView, ErrorKind> {
    let expected = carry_total(carry) + command_total(inputs);
    if !lifecycle_valid(b.pending, inputs.cmds) {
        Err(ErrorKind::Execution)
    } else if inputs.groups is None && carry.len() > 0 {
        Err(ErrorKind::Execution)
    } else if expected > usize::MAX {
        Err(ErrorKind::ArithmeticOverflow)
    } else if expected != inputs.fills.len() {
        Err(ErrorKind::Execution)
    } else {
        match carry_applied(b, inputs.fills, carry, inputs.snapshot) {
            Err(kind) => Err(kind),
            Ok(books) => match walked(
                WalkView {
                    books,
                    cursor: carry_total(carry),
                    group: 0,
                    trade: None,
                    ordinal: 0,
                },
                inputs,
                inputs.cmds.len() as int,
            ) {
                Err(kind) => Err(kind),
                Ok(w) => if w.cursor != inputs.fills.len() || (inputs.groups matches Some(groups)
                    && w.group < groups.len()) {
                    Err(ErrorKind::Execution)
                } else {
                    Ok(w.books)
                },
            },
        }
    }
}

/// The inputs of a step.
pub open spec fn inputs_of(
    cmds: &[OrderCommand],
    fills: &[Fill],
    groups: Option<&[FillGroup]>,
    submit_ids: &[OrderId],
    snapshot: &ChainSnapshot,
    reasons: &CloseReasons,
) -> StepInputs {
    StepInputs {
        cmds: cmds@,
        fills: fills@,
        groups: groups_of(groups),
        submit_ids: submit_ids@,
        snapshot: *snapshot,
        reasons: *reasons,
    }
}

/// Whether a walk came out as it should.
spec fn walk_agrees(r: Result<Walk, BacktestError>, expected: Result<WalkView, ErrorKind>) -> bool {
    match r {
        Ok(walk) => expected == Ok::<WalkView, ErrorKind>(walk.view()),
        Err(e) => expected == Err::<WalkView, ErrorKind>(e.kind()),
    }
}

/// Register an order, or what is left of one, as resting.
fn register_pending(
    books: Books,
    order_id: OrderId,
    intent: &OrderIntent,
    remaining: Quantity,
    fills_so_far: u32,
    trade_id: Option<TradeId>,
    position_id: Option<PositionId>,
    reason: Option<ExitReason>,
) -> (r: Books)
    ensures
        r@ == (BooksView {
            pending: books@.pending.insert(
                order_id.0,
                resting_entry(
                    order_id,
                    *intent,
                    remaining.n(),
                    fills_so_far as int,
                    trade_id,
                    position_id,
                    reason,
                ),
            ),
            ..books@
        }),
{
    proof {
        remaining.lemma_of();
    }
    let mut books = books;
    let mut resting = intent.clone();
    resting.quantity = remaining;
    books.pending.insert(
        order_id.0,
        PendingEntry {
            pending: PendingOrder { order_id, intent: resting },
            trade_id,
            position_id,
            fills_so_far,
            reason,
        },
    );
    books
}

/// Put an order without a fill to rest.
fn rest_whole(walk: Walk, order_id: OrderId, intent: &OrderIntent, reason: ExitReason) -> (r: Result<
    Walk,
    BacktestError,
>)
    ensures
        walk_agrees(r, rested(walk.view(), order_id, *intent, reason)),
{
    let Walk { books, cursor, group, trade, ordinal } = walk;
    let mut books = books;
    match intent.action {
        PositionAction::Open => {
            let trade_id = match trade_or_mint(trade, &mut books.ids) {
                Ok(trade_id) => trade_id,
                Err(e) => {
                    return Err(e);
                },
            };
            let books = register_pending(
                books,
                order_id,
                intent,
                intent.quantity,
                0,
                Some(trade_id),
                None,
                None,
            );
            Ok(Walk { books, cursor, group, trade: Some(trade_id), ordinal })
        },
        PositionAction::Close(_) => {
            let books = register_pending(
                books,
                order_id,
                intent,
                intent.quantity,
                0,
                None,
                None,
                Some(reason),
            );
            Ok(Walk { books, cursor, group, trade, ordinal })
        },
    }
}

/// Put what is left of a partly filled resting order to rest.
fn rest_remainder(
    walk: Walk,
    order_id: OrderId,
    intent: &OrderIntent,
    filled_qty: Quantity,
    produced: usize,
    trade_id: Option<TradeId>,
    position_id: Option<PositionId>,
    reason: Option<ExitReason>,
) -> (r: Result<Walk, BacktestError>)
    ensures
        walk_agrees(
            r,
            remainder_rested(
                walk.view(),
                order_id,
                *intent,
                filled_qty.n(),
                produced as int,
                trade_id,
                position_id,
                reason,
            ),
        ),
{
    let done: u32 = filled_qty.value();
    let total: u32 = intent.quantity.value();
    if matches!(intent.tif, TimeInForce::Gtc) && done < total {
        let remaining = match Quantity::new(total - done) {
            Ok(remaining) => remaining,
            Err(e) => {
                return Err(e);
            },
        };
        if produced > u32::MAX as usize {
            return Err(BacktestError::ArithmeticOverflow);
        }
        let Walk { books, cursor, group, trade, ordinal } = walk;
        let books = register_pending(
            books,
            order_id,
            intent,
            remaining,
            produced as u32,
            trade_id,
            position_id,
            reason,
        );
        return Ok(Walk { books, cursor, group, trade, ordinal });
    }
    Ok(walk)
}

/// Apply a run of fills to the order that produced them.
fn fill_order(
    walk: Walk,
    order_id: OrderId,
    intent: &OrderIntent,
    run: &[Fill],
    snapshot: &ChainSnapshot,
    reason: ExitReason,
) -> (r: Result<Walk, BacktestError>)
    requires
        run@.len() > 0,
    ensures
        walk_agrees(r, filled(walk.view(), order_id, *intent, run@, *snapshot, reason)),
{
    let agg = match aggregate_fills(run) {
        Ok(agg) => agg,
        Err(e) => {
            return Err(e);
        },
    };
    let Walk { books, cursor, group, trade, ordinal } = walk;
    let mut books = books;
    match intent.action {
        PositionAction::Open => {
            let trade_id = match trade_or_mint(trade, &mut books.ids) {
                Ok(trade_id) => trade_id,
                Err(e) => {
                    return Err(e);
                },
            };
            let position_id = match books.ids.mint_position() {
                Ok(position_id) => position_id,
                Err(e) => {
                    return Err(e);
                },
            };
            match open_leg(books, order_id, trade_id, position_id, run, &agg, snapshot, 0) {
                Ok(books) => rest_remainder(
                    Walk { books, cursor, group, trade: Some(trade_id), ordinal },
                    order_id,
                    intent,
                    agg.quantity,
                    run.len(),
                    Some(trade_id),
                    Some(position_id),
                    None,
                ),
                Err(e) => Err(e),
            }
        },
        PositionAction::Close(position_id) => match close_leg(
            books,
            order_id,
            position_id,
            run,
            &agg,
            snapshot,
            0,
            reason.clone(),
        ) {
            Ok(books) => rest_remainder(
                Walk { books, cursor, group, trade, ordinal },
                order_id,
                intent,
                agg.quantity,
                run.len(),
                None,
                None,
                Some(reason),
            ),
            Err(e) => Err(e),
        },
    }
}

/// Take the fills of the order at command index `idx` off the front of what
/// is left, or put the order to rest.
fn submit(
    walk: Walk,
    cmds: &[OrderCommand],
    fills: &[Fill],
    groups: Option<&[FillGroup]>,
    submit_ids: &[OrderId],
    snapshot: &ChainSnapshot,
    reasons: &CloseReasons,
    idx: usize,
    intent: &OrderIntent,
) -> (r: Result<Walk, BacktestError>)
    requires
        walk.cursor <= fills@.len(),
        groups matches Some(g) ==> walk.group <= g@.len(),
    ensures
        walk_agrees(
            r,
            submitted(
                walk.view(),
                inputs_of(cmds, fills, groups, submit_ids, snapshot, reasons),
                idx as int,
                *intent,
            ),
        ),
        r matches Ok(w) ==> w.cursor <= fills@.len() && (groups matches Some(g) ==> w.group
            <= g@.len()),
{
    let Walk { books, cursor, group, trade, ordinal } = walk;
    if ordinal >= submit_ids.len() {
        return Err(
            BacktestError::Execution(
                String::from_str("pre-minted submit_ids under-cover the step's commands"),
            ),
        );
    }
    let order_id: OrderId = submit_ids[ordinal];
    let (count, next_group): (usize, usize) = match groups {
        None => (1, group),
        Some(g) => if group < g.len() && g[group].command_index == idx {
            (g[group].fill_count as usize, group + 1)
        } else {
            (0, group)
        },
    };
    let reason = reasons.reason_for(idx);
    if count == 0 {
        if matches!(intent.tif, TimeInForce::Gtc) {
            return rest_whole(
                Walk { books, cursor, group: next_group, trade, ordinal: ordinal + 1 },
                order_id,
                intent,
                reason,
            );
        }
        return Err(
            BacktestError::Execution(
                String::from_str("submitted order at command index ").concat(
                    &unsigned_text(idx as u128),
                ).concat(" produced no fill (a zero-fill order cannot open or close a leg)"),
            ),
        );
    }
    if count > fills.len() - cursor {
        return Err(
            BacktestError::Execution(
                String::from_str("fill correlation ran past the produced fills"),
            ),
        );
    }
    let end: usize = cursor + count;
    let run = slice_subrange(fills, cursor, end);
    fill_order(
        Walk { books, cursor: end, group: next_group, trade, ordinal: ordinal + 1 },
        order_id,
        intent,
        run,
        snapshot,
        reason,
    )
}

/// Drop a resting order.
fn drop_pending(walk: Walk, order_id: OrderId) -> (r: Walk)
    ensures
        r.view() == dropped(walk.view(), order_id),
        r.cursor == walk.cursor,
        r.group == walk.group,
{
    let mut walk = walk;
    walk.books.pending.remove(&order_id.0);
    walk
}

/// Once a command is refused, no later command changes that.
proof fn lemma_walk_refusal_stays(w: WalkView, inputs: StepInputs, k: int, n: int)
    requires
        0 <= k <= n,
        walked(w, inputs, k) is Err,
    ensures
        walked(w, inputs, n) == walked(w, inputs, k),
    decreases n - k,
{
    if k < n {
        lemma_walk_refusal_stays(w, inputs, k, n - 1);
    }
}

/// Once a carry group is refused, no later group changes that.
proof fn lemma_carry_refusal_stays(
    b: BooksView,
    fills: Seq<Fill>,
    carry: Seq<CarryGroup>,
    snapshot: ChainSnapshot,
    k: int,
)
    requires
        0 <= k <= carry.len(),
        carry_applied(b, fills, carry.take(k), snapshot) is Err,
    ensures
        carry_applied(b, fills, carry, snapshot) == carry_applied(
            b,
            fills,
            carry.take(k),
            snapshot,
        ),
    decreases carry.len() - k,
{
    if k < carry.len() {
        assert(carry.take(k + 1).drop_last() =~= carry.take(k));
        lemma_carry_refusal_stays(b, fills, carry, snapshot, k + 1);
    } else {
        assert(carry.take(k) =~= carry);
    }
}

/// A part of some carry groups has no more fills than the whole.
proof fn lemma_carry_total_grows(carry: Seq<CarryGroup>, k: int)
    requires
        0 <= k <= carry.len(),
    ensures
        0 <= carry_total(carry.take(k)) <= carry_total(carry),
    decreases carry.len() - k,
{
    if k < carry.len() {
        assert(carry.take(k + 1).drop_last() =~= carry.take(k));
        lemma_carry_total_grows(carry, k + 1);
    } else {
        assert(carry.take(k) =~= carry);
    }
    lemma_carry_total_nonnegative(carry.take(k));
}

/// Groups never have fewer than no fills.
pub proof fn lemma_carry_total_nonnegative(carry: Seq<CarryGroup>)
    ensures
        0 <= carry_total(carry),
    decreases carry.len(),
{
    if carry.len() > 0 {
        lemma_carry_total_nonnegative(carry.drop_last());
    }
}

/// A part of some groups has no more fills than the whole.
proof fn lemma_group_total_grows(groups: Seq<FillGroup>, k: int)
    requires
        0 <= k <= groups.len(),
    ensures
        0 <= group_total(groups.take(k)) <= group_total(groups),
    decreases groups.len() - k,
{
    if k < groups.len() {
        assert(groups.take(k + 1).drop_last() =~= groups.take(k));
        lemma_group_total_grows(groups, k + 1);
    } else {
        assert(groups.take(k) =~= groups);
    }
    lemma_group_total_nonnegative(groups.take(k));
}

/// Groups never have fewer than no fills.
proof fn lemma_group_total_nonnegative(groups: Seq<FillGroup>)
    ensures
        0 <= group_total(groups),
    decreases groups.len(),
{
    if groups.len() > 0 {
        lemma_group_total_nonnegative(groups.drop_last());
    }
}

/// Commands never account for fewer than no fills.
pub proof fn lemma_command_total_nonnegative(inputs: StepInputs)
    ensures
        0 <= command_total(inputs),
{
    match inputs.groups {
        None => lemma_submit_total_nonnegative(inputs.cmds),
        Some(groups) => lemma_group_total_nonnegative(groups),
    }
}

/// Commands never hold fewer than no submitted orders.
proof fn lemma_submit_total_nonnegative(cmds: Seq<OrderCommand>)
    ensures
        0 <= submit_total(cmds),
    decreases cmds.len(),
{
    if cmds.len() > 0 {
        lemma_submit_total_nonnegative(cmds.drop_last());
    }
}

/// Whether every cancelled or replaced order rests.
fn check_lifecycle(books: &Books, cmds: &[OrderCommand]) -> (r: Result<(), BacktestError>)
    ensures
        match r {
            Ok(_) => lifecycle_valid(books@.pending, cmds@),
            Err(e) => !lifecycle_valid(books@.pending, cmds@) && e.kind() == ErrorKind::Execution,
        },
{
    let mut i: usize = 0;
    while i < cmds.len()
        invariant
            i <= cmds.len(),
            forall|k: int| 0 <= k < i ==> names_resting(books@.pending, #[trigger] cmds@[k]),
        decreases cmds.len() - i,
    {
        let named: Option<OrderId> = match &cmds[i] {
            OrderCommand::Submit(_) => None,
            OrderCommand::Cancel(order_id) => Some(*order_id),
            OrderCommand::Replace { order_id, replacement: _ } => Some(*order_id),
        };
        match named {
            Some(order_id) => {
                if !books.pending.contains_key(&order_id.0) {
                    assert(!names_resting(books@.pending, cmds@[i as int]));
                    return Err(
                        BacktestError::Execution(
                            String::from_str("cancel/replace targets order ").concat(
                                &unsigned_text(order_id.0 as u128),
                            ).concat(" which is not pending"),
                        ),
                    );
                }
            },
            None => {},
        }
        i = i + 1;
    }
    Ok(())
}

/// The fills of some carry groups, or an overflow.
fn count_carry(carry: &[CarryGroup]) -> (r: Result<usize, BacktestError>)
    ensures
        match r {
            Ok(n) => n == carry_total(carry@),
            Err(e) => carry_total(carry@) > usize::MAX && e.kind()
                == ErrorKind::ArithmeticOverflow,
        },
{
    let mut total: usize = 0;
    let mut i: usize = 0;
    assert(carry@.take(0) =~= Seq::<CarryGroup>::empty());
    while i < carry.len()
        invariant
            i <= carry.len(),
            total == carry_total(carry@.take(i as int)),
        decreases carry.len() - i,
    {
        proof {
            assert(carry@.take(i + 1).drop_last() =~= carry@.take(i as int));
            lemma_carry_total_grows(carry@, i + 1);
        }
        total = match total.checked_add(carry[i].fill_count as usize) {
            Some(total) => total,
            None => {
                return Err(BacktestError::ArithmeticOverflow);
            },
        };
        i = i + 1;
    }
    assert(carry@.take(carry@.len() as int) =~= carry@);
    Ok(total)
}

/// The fills of some groups, or an overflow.
fn count_groups(groups: &[FillGroup]) -> (r: Result<usize, BacktestError>)
    ensures
        match r {
            Ok(n) => n == group_total(groups@),
            Err(e) => group_total(groups@) > usize::MAX && e.kind()
                == ErrorKind::ArithmeticOverflow,
        },
{
    let mut total: usize = 0;
    let mut i: usize = 0;
    assert(groups@.take(0) =~= Seq::<FillGroup>::empty());
    while i < groups.len()
        invariant
            i <= groups.len(),
            total == group_total(groups@.take(i as int)),
        decreases groups.len() - i,
    {
        proof {
            assert(groups@.take(i + 1).drop_last() =~= groups@.take(i as int));
            lemma_group_total_grows(groups@, i + 1);
        }
        total = match total.checked_add(groups[i].fill_count as usize) {
            Some(total) => total,
            None => {
                return Err(BacktestError::ArithmeticOverflow);
            },
        };
        i = i + 1;
    }
    assert(groups@.take(groups@.len() as int) =~= groups@);
    Ok(total)
}

/// The submitted orders among some commands.
fn count_submits(cmds: &[OrderCommand]) -> (n: usize)
    ensures
        n == submit_total(cmds@),
{
    let mut n: usize = 0;
    let mut i: usize = 0;
    assert(cmds@.take(0) =~= Seq::<OrderCommand>::empty());
    while i < cmds.len()
        invariant
            n <= i <= cmds.len(),
            n == submit_total(cmds@.take(i as int)),
        decreases cmds.len() - i,
    {
        assert(cmds@.take(i + 1).drop_last() =~= cmds@.take(i as int));
        if matches!(&cmds[i], OrderCommand::Submit(_)) {
            n = n + 1;
        }
        i = i + 1;
    }
    assert(cmds@.take(cmds@.len() as int) =~= cmds@);
    n
}

/// Apply the fills at the front to the resting orders that they belong to.
fn apply_carry(
    books: Books,
    fills: &[Fill],
    carry: &[CarryGroup],
    snapshot: &ChainSnapshot,
) -> (r: Result<Books, BacktestError>)
    requires
        carry_total(carry@) <= fills@.len(),
    ensures
        books_agree(r, carry_applied(books@, fills@, carry@, *snapshot)),
{
    let ghost before = books@;
    let mut work = books;
    let n: usize = fills.len();
    let mut cursor: usize = 0;
    let mut i: usize = 0;
    assert(carry@.take(0) =~= Seq::<CarryGroup>::empty());
    while i < carry.len()
        invariant
            i <= carry.len(),
            before == books@,
            n == fills@.len(),
            carry_total(carry@) <= n,
            cursor == carry_total(carry@.take(i as int)),
            carry_applied(before, fills@, carry@.take(i as int), *snapshot) == Ok::<
                BooksView,
                ErrorKind,
            >(work@),
        decreases carry.len() - i,
    {
        let ghost next = carry@.take(i + 1);
        proof {
            assert(next.drop_last() =~= carry@.take(i as int));
            assert(next.last() == carry@[i as int]);
            lemma_carry_total_grows(carry@, i + 1);
            lemma_carry_total_grows(carry@, i as int);
            if carry_applied(before, fills@, next, *snapshot) is Err {
                lemma_carry_refusal_stays(before, fills@, carry@, *snapshot, i + 1);
            }
        }
        assert(carry_total(next) == cursor + carry@[i as int].fill_count);
        let end: usize = cursor + carry[i].fill_count as usize;
        let run = slice_subrange(fills, cursor, end);
        work = match apply_carry_group(work, carry[i].order_id, run, snapshot) {
            Ok(books) => books,
            Err(e) => {
                return Err(e);
            },
        };
        cursor = end;
        i = i + 1;
    }
    assert(carry@.take(carry@.len() as int) =~= carry@);
    Ok(work)
}

/// Walk the commands of a step.
fn walk_commands(
    walk: Walk,
    cmds: &[OrderCommand],
    fills: &[Fill],
    groups: Option<&[FillGroup]>,
    submit_ids: &[OrderId],
    snapshot: &ChainSnapshot,
    reasons: &CloseReasons,
) -> (r: Result<Walk, BacktestError>)
    requires
        walk.cursor <= fills@.len(),
        walk.group == 0,
    ensures
        walk_agrees(
            r,
            walked(
                walk.view(),
                inputs_of(cmds, fills, groups, submit_ids, snapshot, reasons),
                cmds@.len() as int,
            ),
        ),
{
    let ghost start = walk.view();
    let ghost inputs = inputs_of(cmds, fills, groups, submit_ids, snapshot, reasons);
    let mut at = walk;
    let mut idx: usize = 0;
    while idx < cmds.len()
        invariant
            idx <= cmds.len(),
            start == walk.view(),
            inputs == inputs_of(cmds, fills, groups, submit_ids, snapshot, reasons),
            at.cursor <= fills@.len(),
            groups matches Some(g) ==> at.group <= g@.len(),
            walked(start, inputs, idx as int) == Ok::<WalkView, ErrorKind>(at.view()),
        decreases cmds.len() - idx,
    {
        proof {
            if walked(start, inputs, idx + 1) is Err {
                lemma_walk_refusal_stays(start, inputs, idx + 1, cmds@.len() as int);
            }
        }
        match &cmds[idx] {
            OrderCommand::Submit(intent) => {
                at = match submit(
                    at,
                    cmds,
                    fills,
                    groups,
                    submit_ids,
                    snapshot,
                    reasons,
                    idx,
                    intent,
                ) {
                    Ok(next) => next,
                    Err(e) => {
                        return Err(e);
                    },
                };
            },
            OrderCommand::Cancel(order_id) => {
                at = drop_pending(at, *order_id);
            },
            OrderCommand::Replace { order_id, replacement } => {
                let left = drop_pending(at, *order_id);
                at = match submit(
                    left,
                    cmds,
                    fills,
                    groups,
                    submit_ids,
                    snapshot,
                    reasons,
                    idx,
                    replacement,
                ) {
                    Ok(next) => next,
                    Err(e) => {
                        return Err(e);
                    },
                };
            },
        }
        idx = idx + 1;
    }
    Ok(at)
}

/// Correlate a step's fills to its commands and to the orders that rest since
/// earlier steps, and move the books by them. Every fill must be accounted
/// for, and every cancelled or replaced order must have rested when the step
/// began.
pub fn apply_step_fills(
    books: Books,
    cmds: &[OrderCommand],
    fills: &[Fill],
    groups: Option<&[FillGroup]>,
    carry: &[CarryGroup],
    submit_ids: &[OrderId],
    snapshot: &ChainSnapshot,
    reasons: &CloseReasons,
) -> (r: Result<Books, BacktestError>)
    ensures
        books_agree(
            r,
            step_applied(
                books@,
                inputs_of(cmds, fills, groups, submit_ids, snapshot, reasons),
                carry@,
            ),
        ),
{
    proof {
        lemma_carry_total_nonnegative(carry@);
        if groups is Some {
            lemma_group_total_nonnegative(groups->0@);
        }
    }
    match check_lifecycle(&books, cmds) {
        Ok(_) => {},
        Err(e) => {
            return Err(e);
        },
    }
    if groups.is_none() && carry.len() > 0 {
        return Err(
            BacktestError::Execution(
                String::from_str("carry fills require the grouped correlation mode"),
            ),
        );
    }
    let carry_fills: usize = match count_carry(carry) {
        Ok(n) => n,
        Err(e) => {
            return Err(e);
        },
    };
    let command_fills: usize = match groups {
        None => count_submits(cmds),
        Some(g) => match count_groups(g) {
            Ok(n) => n,
            Err(e) => {
                return Err(e);
            },
        },
    };
    let expected: usize = match carry_fills.checked_add(command_fills) {
        Some(n) => n,
        None => {
            return Err(BacktestError::ArithmeticOverflow);
        },
    };
    if expected != fills.len() {
        return Err(
            BacktestError::Execution(
                String::from_str(
                    "execution fills are not fully correlated to submitted orders (",
                ).concat(&unsigned_text(fills.len() as u128)).concat(" fills, ").concat(
                    &unsigned_text(expected as u128),
                ).concat(
                    " expected from the order grouping; a surplus is an uncorrelated refresh fill and a shortfall is a submit that did not fill)",
                ),
            ),
        );
    }
    let books = match apply_carry(books, fills, carry, snapshot) {
        Ok(books) => books,
        Err(e) => {
            return Err(e);
        },
    };
    let walk = match walk_commands(
        Walk { books, cursor: carry_fills, group: 0, trade: None, ordinal: 0 },
        cmds,
        fills,
        groups,
        submit_ids,
        snapshot,
        reasons,
    ) {
        Ok(walk) => walk,
        Err(e) => {
            return Err(e);
        },
    };
    let groups_left = match groups {
        None => false,
        Some(g) => walk.group < g.len(),
    };
    if walk.cursor != fills.len() || groups_left {
        return Err(
            BacktestError::Execution(
                String::from_str("execution fills were not fully correlated to submitted orders"),
            ),
        );
    }
    Ok(walk.books)
}

} // verus!
