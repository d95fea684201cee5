//! The replay loop.
//!
//! A run drives three seams: a feed, an execution model and a strategy. Before
//! the first step the strategy's opening orders are executed against the first
//! snapshot. Each step then advances the clock, lets the strategy close and
//! open, executes its commands, moves the books by the fills, and settles the
//! ledger once. The final step also asks the strategy for its last closes. A
//! leg that is still open then stays open; it is never closed by force.

use crate::config::BacktestConfig;
use crate::data::{DataFeed, DataSourceSpec, TapeMeta};
use crate::domain::decimal::Decimal;
use crate::domain::expiration::Instant;
use crate::domain::{
    Cents, ChainSnapshot, EquityPoint, Fill, OpenPosition, OrderCommand, OrderId, PendingOrder,
    PositionAction, SimTime, StepIndex,
};
use crate::engine::books::{Books, BooksView, IdCounters, PendingEntry};
use crate::engine::bundle_collector::{
    bundle_rows, BundleCollector, BundleView, FillRecord, PositionSnapshot,
};
use crate::engine::clock::{ClockView, SimClock};
use crate::engine::correlate::{
    apply_step_fills, inputs_of, is_end_reason, step_applied, CloseReasons, StepInputs,
};
use crate::engine::exit::ExitReason;
use crate::engine::ledger::{
    after_settle, held_leg, settle_fits, settled_point, Ledger, LedgerView,
};
use crate::engine::seams::{
    act_call, commands_given, end_call, ends_closing, exit_call, filled_by, lemma_ask_refused,
    lemma_commands_refused, lemma_opening_refused, lemma_start_refused, start_call, start_driven,
    start_refused, step_driven, step_refused, Seams, StepCalls,
};
use crate::engine::strategy::{generator_of, seeded_generator, ChainContext, Strategy};
use crate::engine::substrate::{
    step_collected, AttributionCollector, AttributionSubstrate, AttributionView,
};
use crate::engine::tradelog::{ClosedTrade, TradeLogCollector, TradeLogView};
use crate::error::{BacktestError, ErrorKind};
use crate::execution::{groups_of, CarryGroup, ExecutionModel, FillGroup, Filling};
use rand_chacha::ChaCha8Rng;
use std::collections::BTreeMap;
use vstd::prelude::*;
use vstd::slice::*;
use vstd::string::*;

verus! {

/// What a run amounts to.
#[derive(Debug)]
pub struct BacktestResult {
    /// The strategy's name.
    pub strategy_name: String,
    /// The initial capital, in dollars.
    pub initial_capital: Decimal,
    /// The equity of the last step, in dollars.
    pub final_capital: Decimal,
    /// The first timestamp of the tape.
    pub test_period_start: Instant,
    /// The last timestamp of the tape.
    pub test_period_end: Instant,
}

/// The output of a run.
#[derive(Debug)]
pub struct BacktestRun {
    /// What the run amounts to.
    pub result: BacktestResult,
    /// One point per step, in the order of the steps.
    pub equity_curve: Vec<EquityPoint>,
    /// The legs still open at the end of the tape.
    pub open_at_end: Vec<OpenPosition>,
    /// The realised closes, in the order they came.
    pub trade_log: Vec<ClosedTrade>,
    /// What the attribution of the run's profit needs.
    pub attribution_substrate: AttributionSubstrate,
    /// The fills, in the order they came.
    pub fills: Vec<FillRecord>,
    /// The position rows, in the order they came.
    pub positions: Vec<PositionSnapshot>,
    /// Where the tape came from.
    pub data_source: DataSourceSpec,
    /// The identity of the tape.
    pub data_identity: String,
}

/// Whether a command submits a new order: a plain one or a replacement.
pub open spec fn mints_order(cmd: OrderCommand) -> bool {
    cmd is Submit || cmd is Replace
}

/// How many order ids some commands take.
pub open spec fn minted_total(cmds: Seq<OrderCommand>) -> int
    decreases cmds.len(),
{
    if cmds.len() == 0 {
        0
    } else {
        minted_total(cmds.drop_last()) + (if mints_order(cmds.last()) {
            1int
        } else {
            0int
        })
    }
}

/// Some order ids in a row.
pub open spec fn order_ids(first: int, n: int) -> Seq<OrderId> {
    Seq::new(n as nat, |i: int| OrderId((first + i) as u64))
}

/// More commands take no fewer ids.
proof fn lemma_minted_total_grows(cmds: Seq<OrderCommand>, i: int)
    requires
        0 <= i <= cmds.len(),
    ensures
        0 <= minted_total(cmds.take(i)) <= minted_total(cmds),
    decreases cmds.len(),
{
    if cmds.len() == i {
        assert(cmds.take(i) =~= cmds);
        if i > 0 {
            lemma_minted_total_grows(cmds.drop_last(), 0);
            assert(cmds.drop_last().take(0) =~= Seq::<OrderCommand>::empty());
        }
    } else {
        lemma_minted_total_grows(cmds.drop_last(), i);
        assert(cmds.drop_last().take(i) =~= cmds.take(i));
    }
}

/// Mint one order id for each submitted or replacing order, in the order of
/// the commands. Where the counter runs out it stays at its end.
pub fn mint_submit_ids(cmds: &[OrderCommand], ids: &mut IdCounters) -> (r: Result<
    Vec<OrderId>,
    BacktestError,
>)
    ensures
        match r {
            Ok(minted) => {
                &&& old(ids).order + minted_total(cmds@) <= u64::MAX
                &&& minted@ == order_ids(old(ids).order as int, minted_total(cmds@))
                &&& *final(ids) == (IdCounters {
                    order: (old(ids).order + minted_total(cmds@)) as u64,
                    ..*old(ids)
                })
            },
            Err(e) => {
                &&& old(ids).order + minted_total(cmds@) > u64::MAX
                &&& *final(ids) == (IdCounters { order: u64::MAX, ..*old(ids) })
                &&& e.kind() == ErrorKind::ArithmeticOverflow
            },
        },
{
    let mut minted: Vec<OrderId> = Vec::new();
    let ghost first = ids.order as int;
    let mut i: usize = 0;
    assert(cmds@.take(0) =~= Seq::<OrderCommand>::empty());
    while i < cmds.len()
        invariant
            i <= cmds.len(),
            first == old(ids).order,
            first + minted_total(cmds@.take(i as int)) <= u64::MAX,
            minted_total(cmds@.take(i as int)) >= 0,
            minted@ == order_ids(first, minted_total(cmds@.take(i as int))),
            *ids == (IdCounters {
                order: (first + minted_total(cmds@.take(i as int))) as u64,
                ..*old(ids)
            }),
        decreases cmds.len() - i,
    {
        assert(cmds@.take(i + 1).drop_last() =~= cmds@.take(i as int));
        let mints = match &cmds[i] {
            OrderCommand::Submit(_) => true,
            OrderCommand::Replace { order_id: _, replacement: _ } => true,
            OrderCommand::Cancel(_) => false,
        };
        if mints {
            match ids.mint_order() {
                Ok(id) => {
                    minted.push(id);
                },
                Err(e) => {
                    proof {
                        lemma_minted_total_grows(cmds@, i + 1);
                    }
                    return Err(e);
                },
            }
        }
        i = i + 1;
    }
    assert(cmds@.take(cmds@.len() as int) =~= cmds@);
    Ok(minted)
}

/// Whether a command closes a leg.
pub open spec fn is_close(cmd: OrderCommand) -> bool {
    cmd matches OrderCommand::Submit(intent) && intent.action is Close
}

/// Refuse the strategy's last commands unless each of them closes a leg.
pub fn reject_non_close(on_end_cmds: &[OrderCommand]) -> (r: Result<(), BacktestError>)
    ensures
        match r {
            Ok(_) => forall|i: int| 0 <= i < on_end_cmds@.len() ==> is_close(#[trigger] on_end_cmds@[i]),
            Err(e) => e.kind() == ErrorKind::Execution && exists|i: int|
                0 <= i < on_end_cmds@.len() && !is_close(#[trigger] on_end_cmds@[i]),
        },
{
    let mut i: usize = 0;
    while i < on_end_cmds.len()
        invariant
            i <= on_end_cmds.len(),
            forall|k: int| 0 <= k < i ==> is_close(#[trigger] on_end_cmds@[k]),
        decreases on_end_cmds.len() - i,
    {
        let closes = match &on_end_cmds[i] {
            OrderCommand::Submit(intent) => match intent.action {
                PositionAction::Close(_) => true,
                PositionAction::Open => false,
            },
            _ => false,
        };
        if !closes {
            assert(!is_close(on_end_cmds@[i as int]));
            return Err(
                BacktestError::Execution(
                    String::from_str(
                        "on_end may emit only close commands; a submit(open), cancel, or replace from on_end is rejected",
                    ),
                ),
            );
        }
        i = i + 1;
    }
    Ok(())
}

/// Whether some keys are all the keys of a registry, from the lowest up.
pub open spec fn walks_keys(keys: Seq<u64>, pending: Map<u64, PendingEntry>) -> bool {
    &&& forall|i: int, j: int| 0 <= i < j < keys.len() ==> keys[i] < keys[j]
    &&& forall|i: int| 0 <= i < keys.len() ==> pending.dom().contains(#[trigger] keys[i])
    &&& forall|k: u64| #[trigger] pending.dom().contains(k) ==> keys.contains(k)
}

/// Whether some orders are what a registry shows of itself: one per resting
/// order, from the lowest order id up.
pub open spec fn shows_pending(
    orders: Seq<PendingOrder>,
    pending: Map<u64, PendingEntry>,
    keys: Seq<u64>,
) -> bool {
    &&& walks_keys(keys, pending)
    &&& orders.len() == keys.len()
    &&& forall|i: int| 0 <= i < keys.len() ==> #[trigger] orders[i] == pending[keys[i]].pending
}

/// The resting orders as the strategy sees them, from the lowest order id up.
pub fn rebuild_pending_view(pending: &BTreeMap<u64, PendingEntry>) -> (orders: Vec<PendingOrder>)
    ensures
        exists|keys: Seq<u64>| #[trigger] shows_pending(orders@, pending@, keys),
{
    broadcast use vstd::std_specs::btree::group_btree_axioms;

    let mut orders: Vec<PendingOrder> = Vec::new();
    let walk = pending.iter();
    let ghost all = vstd::std_specs::iter::IteratorSpec::remaining(&walk);
    let ghost keys = all.map_values(|kv: (&u64, &PendingEntry)| *kv.0);
    proof {
        assert(vstd::std_specs::btree::increasing_seq(keys));
        assert forall|i: int, j: int| 0 <= i < j < keys.len() implies keys[i] < keys[j] by {
            assert(vstd::std_specs::cmp::OrdSpec::cmp_spec(&keys[i], &keys[j]) is Less);
        }
        assert forall|i: int| 0 <= i < keys.len() implies pending@.dom().contains(
            #[trigger] keys[i],
        ) by {
            assert(pending@.contains_key(*all[i].0));
        }
        assert forall|k: u64| #[trigger] pending@.dom().contains(k) implies keys.contains(k) by {
            assert(pending@.contains_key(k));
            let i = all.index_of((&k, &pending@[k]));
            assert(keys[i] == k);
        }
    }
    for entry in it: walk
        invariant
            it.seq() == all,
            orders@.len() == it.index(),
            forall|i: int| 0 <= i < it.index() ==> #[trigger] orders@[i] == all[i].1.pending,
    {
        orders.push(entry.1.pending.clone());
    }
    proof {
        assert forall|i: int| 0 <= i < keys.len() implies #[trigger] orders@[i]
            == pending@[keys[i]].pending by {
            assert(pending@[*all[i].0] == *all[i].1);
        }
    }
    assert(shows_pending(orders@, pending@, keys));
    orders
}

/// How far a run has come.
pub struct ProgressView {
    pub clock: ClockView,
    pub books: BooksView,
    pub curve: Seq<EquityPoint>,
    pub attribution: AttributionView,
}

/// How far a run has come.
#[derive(Debug)]
pub struct Progress {
    /// The clock.
    pub clock: SimClock,
    /// The books.
    pub books: Books,
    /// One point per step so far.
    pub equity_curve: Vec<EquityPoint>,
    /// The attribution substrate so far.
    pub attribution: AttributionCollector,
}

impl View for Progress {
    type V = ProgressView;

    open spec fn view(&self) -> ProgressView {
        ProgressView {
            clock: self.clock@,
            books: self.books@,
            curve: self.equity_curve@,
            attribution: self.attribution@,
        }
    }
}

/// Whether an initial capital can be run with: positive, and in range.
pub open spec fn capital_valid(initial_capital: u64) -> bool {
    1 <= initial_capital <= i64::MAX
}

/// A run that has not begun.
pub open spec fn fresh(initial_cents: int) -> ProgressView {
    ProgressView {
        clock: ClockView { step: StepIndex(0), ts: SimTime(i64::MIN) },
        books: BooksView {
            ids: IdCounters { position: 1, order: 1, trade: 1 },
            inventory: Seq::empty(),
            ledger: LedgerView {
                cash: initial_cents,
                peak: initial_cents,
                marks: Map::empty(),
                greeks: Map::empty(),
                slippages: Seq::empty(),
                fee_entries: Seq::empty(),
                prior_equity: initial_cents,
                spread_capture: 0,
                fees: 0,
                step_pnl: 0,
                position_marks: Seq::empty(),
                attribution_marks: Seq::empty(),
            },
            log: TradeLogView { open: Map::empty(), closed: Seq::empty() },
            bundle: BundleView {
                fills: Seq::empty(),
                positions: Seq::empty(),
                open_legs: Map::empty(),
            },
            pending: Map::empty(),
        },
        curve: Seq::empty(),
        attribution: AttributionView {
            steps: Seq::empty(),
            legs: Seq::empty(),
            prev_ts: None,
            prev_underlying: None,
        },
    }
}

/// The initial capital in cents: it must be positive and in range.
pub fn initial_cents(config: &BacktestConfig) -> (r: Result<i64, BacktestError>)
    ensures
        match r {
            Ok(cents) => capital_valid(config.initial_capital) && cents == config.initial_capital,
            Err(e) => !capital_valid(config.initial_capital) && e.kind() == ErrorKind::Config,
        },
{
    if config.initial_capital > i64::MAX as u64 {
        return Err(
            BacktestError::Config(String::from_str("initial capital exceeds the i64 cents range")),
        );
    }
    if config.initial_capital == 0 {
        return Err(BacktestError::Config(String::from_str("initial capital must be positive")));
    }
    Ok(config.initial_capital as i64)
}

/// Begin a run: the tape must not be empty.
pub fn begin_run(initial_cents: i64, meta: &TapeMeta) -> (r: Result<Progress, BacktestError>)
    ensures
        match r {
            Ok(progress) => meta.non_empty && progress@ == fresh(initial_cents as int),
            Err(e) => !meta.non_empty && e.kind() == ErrorKind::Data,
        },
{
    if !meta.non_empty {
        return Err(BacktestError::Data(String::from_str("tape is empty")));
    }
    let progress = Progress {
        clock: SimClock::new(),
        books: Books {
            ids: IdCounters::new(),
            inventory: Vec::new(),
            ledger: Ledger::new(Cents(initial_cents)),
            trade_log: TradeLogCollector::with_capacity(16),
            bundle: BundleCollector::with_capacity(16),
            pending: BTreeMap::new(),
        },
        equity_curve: Vec::new(),
        attribution: AttributionCollector::with_capacity(16),
    };
    assert(progress.books@.pending =~= Map::<u64, PendingEntry>::empty());
    Ok(progress)
}

/// The ledger with the legs taken down that were held when the step began.
pub open spec fn legs_taken_down(
    ledger: LedgerView,
    begin: Seq<OpenPosition>,
    multiplier: u32,
) -> LedgerView {
    LedgerView {
        attribution_marks: Seq::new(begin.len(), |i: int| held_leg(ledger, multiplier, begin[i])),
        ..ledger
    }
}

/// How far a run has come once a step was executed: the books moved by its
/// fills, the ledger settled, and the step taken down.
pub open spec fn step_recorded(
    p: ProgressView,
    inputs: StepInputs,
    carry: Seq<CarryGroup>,
    is_last: bool,
) -> Result<ProgressView, ErrorKind> {
    let snapshot = inputs.snapshot;
    match step_applied(p.books, inputs, carry) {
        Err(kind) => Err(kind),
        Ok(books) => {
            let ledger = legs_taken_down(
                books.ledger,
                p.books.inventory,
                snapshot.spec.contract_multiplier,
            );
            if !settle_fits(ledger, books.inventory, snapshot) {
                Err(ErrorKind::ArithmeticOverflow)
            } else {
                let settled = after_settle(ledger, books.inventory, snapshot);
                let (bundle, error) = bundle_rows(
                    books.bundle,
                    snapshot.step.0,
                    snapshot.ts.0,
                    settled.position_marks,
                    is_last,
                );
                match error {
                    Some(kind) => Err(kind),
                    None => Ok(
                        ProgressView {
                            clock: p.clock,
                            books: BooksView { ledger: settled, bundle, ..books },
                            curve: p.curve.push(
                                settled_point(
                                    ledger,
                                    snapshot.step,
                                    snapshot.ts,
                                    books.inventory,
                                    snapshot,
                                ),
                            ),
                            attribution: step_collected(
                                p.attribution,
                                snapshot,
                                settled.attribution_marks,
                                Cents(settled.spread_capture as i64),
                                Cents(settled.fees as i64),
                                Cents(settled.step_pnl as i64),
                            ),
                        },
                    ),
                }
            }
        },
    }
}

/// Copy some legs.
fn copy_legs(legs: &Vec<OpenPosition>) -> (copy: Vec<OpenPosition>)
    ensures
        copy@ == legs@,
{
    let mut copy: Vec<OpenPosition> = Vec::with_capacity(legs.len());
    for i in 0..legs.len()
        invariant
            copy@ == legs@.take(i as int),
    {
        copy.push(legs[i].clone());
    }
    assert(copy@ =~= legs@);
    copy
}

/// Record an executed step: move the books by its fills, take down the legs
/// that were held when it began, settle the ledger once, and append the step's
/// one equity point, its attribution samples and its position rows. A step
/// that fails leaves nothing behind.
pub fn record_step(
    progress: Progress,
    cmds: &[OrderCommand],
    fills: &[Fill],
    groups: Option<&[FillGroup]>,
    carry: &[CarryGroup],
    submit_ids: &[OrderId],
    snapshot: &ChainSnapshot,
    reasons: &CloseReasons,
    is_last: bool,
) -> (r: Result<Progress, BacktestError>)
    ensures
        ({
            let expected = step_recorded(
                progress@,
                inputs_of(cmds, fills, groups, submit_ids, snapshot, reasons),
                carry@,
                is_last,
            );
            match r {
                Ok(after) => expected == Ok::<ProgressView, ErrorKind>(after@),
                Err(e) => expected == Err::<ProgressView, ErrorKind>(e.kind()),
            }
        }),
{
    let begin = copy_legs(&progress.books.inventory);
    let clock = progress.clock;
    let mut equity_curve = progress.equity_curve;
    let mut attribution = progress.attribution;
    let mut books = match apply_step_fills(
        progress.books,
        cmds,
        fills,
        groups,
        carry,
        submit_ids,
        snapshot,
        reasons,
    ) {
        Ok(books) => books,
        Err(e) => {
            return Err(e);
        },
    };
    books.ledger.collect_attribution_marks(begin.as_slice(), snapshot.spec.contract_multiplier);
    let point = match books.ledger.settle(
        snapshot.step,
        snapshot.ts,
        books.inventory.as_slice(),
        snapshot,
    ) {
        Ok(point) => point,
        Err(e) => {
            return Err(e);
        },
    };
    equity_curve.push(point);
    attribution.collect(
        snapshot,
        books.ledger.attribution_marks().as_slice(),
        books.ledger.spread_capture(),
        books.ledger.fees(),
        books.ledger.step_pnl(),
    );
    match books.bundle.collect_step(
        snapshot.step.0,
        snapshot.ts.0,
        books.ledger.position_marks().as_slice(),
        is_last,
    ) {
        Ok(_) => Ok(Progress { clock, books, equity_curve, attribution }),
        Err(e) => Err(e),
    }
}

/// What the seams gave a step, and what the step made of it.
pub struct StepTrace {
    /// The commands, the fills, their correlation and the snapshot.
    pub inputs: StepInputs,
    /// Which resting orders the fills at the front belong to.
    pub carry: Seq<CarryGroup>,
    /// Whether the step is the final one.
    pub is_last: bool,
}

/// The books once the order ids of some commands were minted.
pub open spec fn with_minted(b: BooksView, cmds: Seq<OrderCommand>) -> BooksView {
    BooksView {
        ids: IdCounters { order: (b.ids.order + minted_total(cmds)) as u64, ..b.ids },
        ..b
    }
}

/// Whether the order ids that a step hands out are those that were minted for
/// its commands.
pub open spec fn ids_fresh(b: BooksView, inputs: StepInputs) -> bool {
    &&& b.ids.order + minted_total(inputs.cmds) <= u64::MAX
    &&& inputs.submit_ids == order_ids(b.ids.order as int, minted_total(inputs.cmds))
}

/// The books after the strategy's opening orders were executed: before the
/// first step, and without an equity point.
pub open spec fn started(b: BooksView, t: StepTrace) -> Option<BooksView> {
    if ids_fresh(b, t.inputs) && t.inputs.reasons.exits_end == 0
        && t.inputs.reasons.on_end_start == t.inputs.cmds.len()
        && t.inputs.reasons.policy_reason == ExitReason::ManualClose && is_end_reason(
        t.inputs.reasons.end_reason,
    ) {
        match step_applied(with_minted(b, t.inputs.cmds), t.inputs, t.carry) {
            Ok(books) => Some(books),
            Err(_) => None,
        }
    } else {
        None
    }
}

/// Whether a step keeps to the phases: time moves forward, the ids are fresh,
/// and what the final step appends last closes legs.
pub open spec fn in_phase(p: ProgressView, t: StepTrace) -> bool {
    let cmds = t.inputs.cmds;
    let reasons = t.inputs.reasons;
    &&& p.clock.may_advance(t.inputs.snapshot.ts, t.inputs.snapshot.step)
    &&& ids_fresh(p.books, t.inputs)
    &&& reasons.exits_end == 0 ==> reasons.policy_reason == ExitReason::ManualClose
    &&& is_end_reason(reasons.end_reason)
    &&& !t.is_last ==> reasons.on_end_start == cmds.len()
    &&& t.is_last ==> forall|i: int|
        reasons.on_end_start <= i < cmds.len() ==> is_close(#[trigger] cmds[i])
}

/// A run at a step: the clock advanced, and the order ids minted.
pub open spec fn entered(p: ProgressView, t: StepTrace) -> ProgressView {
    ProgressView {
        clock: ClockView { step: t.inputs.snapshot.step, ts: t.inputs.snapshot.ts },
        books: with_minted(p.books, t.inputs.cmds),
        ..p
    }
}

/// How far a run has come after a step.
pub open spec fn stepped(p: ProgressView, t: StepTrace) -> Option<ProgressView> {
    if in_phase(p, t) {
        match step_recorded(entered(p, t), t.inputs, t.carry, t.is_last) {
            Ok(after) => Some(after),
            Err(_) => None,
        }
    } else {
        None
    }
}

/// How far a run has come after some steps.
pub open spec fn replayed(p: ProgressView, steps: Seq<StepTrace>) -> Option<ProgressView>
    decreases steps.len(),
{
    if steps.len() == 0 {
        Some(p)
    } else {
        match replayed(p, steps.drop_last()) {
            Some(mid) => stepped(mid, steps.last()),
            None => None,
        }
    }
}

/// Whether `t` is a step that the seams may have led to.
pub open spec fn leads_to(
    p: ProgressView,
    t: StepTrace,
    snapshot: ChainSnapshot,
    is_last: bool,
    after: ProgressView,
) -> bool {
    &&& t.inputs.snapshot == snapshot
    &&& t.is_last == is_last
    &&& stepped(p, t) == Some(after)
}

/// Whether `t` is an opening that the seams may have led to.
pub open spec fn opens_to(
    b: BooksView,
    t: StepTrace,
    snapshot: ChainSnapshot,
    after: BooksView,
) -> bool {
    t.inputs.snapshot == snapshot && started(b, t) == Some(after)
}

/// Let the strategy open, and execute its orders against the first snapshot.
/// No equity point comes of it.
fn start<S: Strategy, X: ExecutionModel>(
    strategy: &mut S,
    execution: &mut X,
    rng: &mut ChaCha8Rng,
    books: Books,
    snapshot: &ChainSnapshot,
) -> (r: Result<Books, BacktestError>)
    ensures
        ({
            let from = (Seams {
                execution: *old(execution),
                strategy: *old(strategy),
                rng: *old(rng),
            });
            let to = (Seams {
                execution: *final(execution),
                strategy: *final(strategy),
                rng: *final(rng),
            });
            match r {
                Ok(after) => exists|t: StepTrace|
                    {
                        &&& #[trigger] opens_to(books@, t, *snapshot, after@)
                        &&& start_driven(from, to, books@, t)
                    },
                Err(e) => start_refused(from, to, books@, *snapshot, e.kind()),
            }
        }),
{
    let mut books = books;
    let ghost before = books@;
    let ghost from = Seams { execution: *execution, strategy: *strategy, rng: *rng };
    let mut cmds: Vec<OrderCommand> = Vec::with_capacity(16);
    let none: Vec<PendingOrder> = Vec::new();
    {
        let mut ctx = ChainContext {
            snapshot,
            open: books.inventory.as_slice(),
            pending: none.as_slice(),
            marks: books.ledger.marks(),
            rng: &mut *rng,
            step: snapshot.step,
        };
        match strategy.on_start(&mut ctx, &mut cmds) {
            Ok(_) => {},
            Err(e) => {
                proof {
                    let to = Seams {
                        execution: *execution,
                        strategy: *strategy,
                        rng: *ctx.rng,
                    };
                    lemma_start_refused(from, to, before, *snapshot, cmds@, e);
                }
                return Err(e);
            },
        }
    }
    assert(S::may_start(start_call(from, before, *snapshot, *strategy, *rng, cmds@, None)));
    let submit_ids = match mint_submit_ids(cmds.as_slice(), &mut books.ids) {
        Ok(ids) => ids,
        Err(e) => {
            proof {
                let to = Seams { execution: *execution, strategy: *strategy, rng: *rng };
                lemma_opening_refused(from, to, before, *snapshot, cmds@, e.kind());
            }
            return Err(e);
        },
    };
    let mut fills: Vec<Fill> = Vec::with_capacity(16);
    match execution.fill(cmds.as_slice(), submit_ids.as_slice(), snapshot, &mut fills) {
        Ok(_) => {},
        Err(e) => {
            proof {
                let f = Filling {
                    before: from.execution,
                    after: *execution,
                    cmds: cmds@,
                    submit_ids: submit_ids@,
                    snapshot: *snapshot,
                    out: Seq::empty(),
                    out_after: fills@,
                    error: Some(e),
                };
                assert(X::may_fill(f));
                let to = Seams { execution: *execution, strategy: *strategy, rng: *rng };
                lemma_opening_refused(from, to, before, *snapshot, cmds@, e.kind());
            }
            return Err(e);
        },
    }
    let groups = execution.fill_groups();
    let carry = execution.carry_fills();
    let reasons = CloseReasons::new(0, cmds.len(), ExitReason::ManualClose);
    let ghost t = StepTrace {
        inputs: StepInputs {
            cmds: cmds@,
            fills: fills@,
            groups: groups_of(groups),
            submit_ids: submit_ids@,
            snapshot: *snapshot,
            reasons,
        },
        carry: carry@,
        is_last: false,
    };
    match apply_step_fills(
        books,
        cmds.as_slice(),
        fills.as_slice(),
        groups,
        carry,
        submit_ids.as_slice(),
        snapshot,
        &reasons,
    ) {
        Ok(after) => {
            assert(opens_to(before, t, *snapshot, after@));
            proof {
                let to = Seams { execution: *execution, strategy: *strategy, rng: *rng };
                reveal(start_driven);
                assert(start_driven(from, to, before, t));
            }
            Ok(after)
        },
        Err(e) => {
            proof {
                assert(filled_by(from.execution, *execution, t));
                let to = Seams { execution: *execution, strategy: *strategy, rng: *rng };
                lemma_opening_refused(from, to, before, *snapshot, cmds@, e.kind());
            }
            Err(e)
        },
    }
}

/// Take one step: advance the clock, let the strategy close and then open, in
/// the final step let it append its last closes, execute its commands, and
/// record the step.
#[verifier::rlimit(40)]
fn step<S: Strategy, X: ExecutionModel>(
    strategy: &mut S,
    execution: &mut X,
    rng: &mut ChaCha8Rng,
    progress: Progress,
    snapshot: &ChainSnapshot,
    is_last: bool,
) -> (r: Result<Progress, BacktestError>)
    ensures
        match r {
            Ok(after) => exists|t: StepTrace, calls: StepCalls<S>|
                {
                    &&& #[trigger] leads_to(progress@, t, *snapshot, is_last, after@)
                    &&& #[trigger] step_driven(
                        (Seams {
                            execution: *old(execution),
                            strategy: *old(strategy),
                            rng: *old(rng),
                        }),
                        (Seams {
                            execution: *final(execution),
                            strategy: *final(strategy),
                            rng: *final(rng),
                        }),
                        progress@,
                        t,
                        calls,
                    )
                },
            Err(e) => step_refused(
                (Seams { execution: *old(execution), strategy: *old(strategy), rng: *old(rng) }),
                (Seams {
                    execution: *final(execution),
                    strategy: *final(strategy),
                    rng: *final(rng),
                }),
                progress@,
                *snapshot,
                is_last,
                e.kind(),
            ),
        },
{
    let mut progress = progress;
    let ghost before = progress@;
    let ghost from = Seams { execution: *execution, strategy: *strategy, rng: *rng };
    match progress.clock.advance_to(snapshot.ts, snapshot.step) {
        Ok(_) => {},
        Err(e) => {
            proof {
                reveal(step_refused);
            }
            return Err(e);
        },
    }
    let pending = rebuild_pending_view(&progress.books.pending);
    let ghost keys = choose|keys: Seq<u64>| #[trigger]
        shows_pending(pending@, before.books.pending, keys);
    let mut cmds: Vec<OrderCommand> = Vec::with_capacity(16);
    {
        let ctx = ChainContext {
            snapshot,
            open: progress.books.inventory.as_slice(),
            pending: pending.as_slice(),
            marks: progress.books.ledger.marks(),
            rng: &mut *rng,
            step: snapshot.step,
        };
        match strategy.exits(&ctx, &mut cmds) {
            Ok(_) => {},
            Err(e) => {
                proof {
                    let calls = StepCalls {
                        pending: pending@,
                        keys,
                        exited: *strategy,
                        exit_cmds: cmds@,
                        acted: *strategy,
                        act_cmds: cmds@,
                        rng: from.rng,
                    };
                    assert(S::may_exit(
                        exit_call(from, before.books, *snapshot, calls, Some(e)),
                    ));
                    let to = Seams { execution: *execution, strategy: *strategy, rng: from.rng };
                    lemma_ask_refused(from, to, before, *snapshot, is_last, calls, e.kind());
                }
                return Err(e);
            },
        }
    }
    let exits_end: usize = cmds.len();
    let ghost exited = *strategy;
    let ghost exit_cmds = cmds@;
    {
        let mut ctx = ChainContext {
            snapshot,
            open: progress.books.inventory.as_slice(),
            pending: pending.as_slice(),
            marks: progress.books.ledger.marks(),
            rng: &mut *rng,
            step: snapshot.step,
        };
        match strategy.on_snapshot(&mut ctx, &mut cmds) {
            Ok(_) => {},
            Err(e) => {
                proof {
                    let calls = StepCalls {
                        pending: pending@,
                        keys,
                        exited,
                        exit_cmds,
                        acted: *strategy,
                        act_cmds: cmds@,
                        rng: *ctx.rng,
                    };
                    assert(S::may_act(act_call(from, before.books, *snapshot, calls, Some(e))));
                    let to = Seams { execution: *execution, strategy: *strategy, rng: *ctx.rng };
                    lemma_ask_refused(from, to, before, *snapshot, is_last, calls, e.kind());
                }
                return Err(e);
            },
        }
    }
    let on_end_start: usize = cmds.len();
    let ghost calls = StepCalls {
        pending: pending@,
        keys,
        exited,
        exit_cmds,
        acted: *strategy,
        act_cmds: cmds@,
        rng: *rng,
    };
    if is_last {
        {
            let mut ctx = ChainContext {
                snapshot,
                open: progress.books.inventory.as_slice(),
                pending: pending.as_slice(),
                marks: progress.books.ledger.marks(),
                rng: &mut *rng,
                step: snapshot.step,
            };
            match strategy.on_end(&mut ctx, &mut cmds) {
                Ok(_) => {},
                Err(e) => {
                    proof {
                        assert(S::may_end(
                            end_call(
                                before.books,
                                *snapshot,
                                calls,
                                *strategy,
                                *ctx.rng,
                                cmds@,
                                Some(e),
                            ),
                        ));
                        let to = Seams { execution: *execution, strategy: *strategy, rng: *ctx.rng };
                        lemma_ask_refused(from, to, before, *snapshot, is_last, calls, e.kind());
                    }
                    return Err(e);
                },
            }
        }
        if on_end_start < cmds.len() {
            let last = slice_subrange(cmds.as_slice(), on_end_start, cmds.len());
            match reject_non_close(last) {
                Ok(_) => {},
                Err(e) => {
                    proof {
                        let k = choose|k: int|
                            0 <= k < last@.len() && !is_close(#[trigger] last@[k]);
                        assert(!is_close(cmds@[on_end_start + k]));
                        assert(commands_given(
                            from,
                            before.books,
                            *snapshot,
                            is_last,
                            calls,
                            *strategy,
                            *rng,
                            cmds@,
                        ));
                        let to = Seams { execution: *execution, strategy: *strategy, rng: *rng };
                        lemma_commands_refused(
                            from,
                            to,
                            before,
                            *snapshot,
                            is_last,
                            calls,
                            cmds@,
                            e.kind(),
                        );
                    }
                    return Err(e);
                },
            }
            assert forall|i: int| on_end_start <= i < cmds@.len() implies is_close(
                #[trigger] cmds@[i],
            ) by {
                assert(is_close(last@[i - on_end_start]));
            }
        }
    }
    assert(commands_given(
        from,
        before.books,
        *snapshot,
        is_last,
        calls,
        *strategy,
        *rng,
        cmds@,
    ));
    assert(ends_closing(is_last, calls, cmds@));
    let policy_reason = if exits_end > 0 {
        strategy.exit_reason()
    } else {
        ExitReason::ManualClose
    };
    let reasons = CloseReasons::new(exits_end, on_end_start, policy_reason);
    let submit_ids = match mint_submit_ids(cmds.as_slice(), &mut progress.books.ids) {
        Ok(ids) => ids,
        Err(e) => {
            proof {
                let to = Seams { execution: *execution, strategy: *strategy, rng: *rng };
                lemma_commands_refused(
                    from,
                    to,
                    before,
                    *snapshot,
                    is_last,
                    calls,
                    cmds@,
                    e.kind(),
                );
            }
            return Err(e);
        },
    };
    let mut fills: Vec<Fill> = Vec::with_capacity(16);
    match execution.fill(cmds.as_slice(), submit_ids.as_slice(), snapshot, &mut fills) {
        Ok(_) => {},
        Err(e) => {
            proof {
                let f = Filling {
                    before: from.execution,
                    after: *execution,
                    cmds: cmds@,
                    submit_ids: submit_ids@,
                    snapshot: *snapshot,
                    out: Seq::empty(),
                    out_after: fills@,
                    error: Some(e),
                };
                assert(X::may_fill(f));
                let to = Seams { execution: *execution, strategy: *strategy, rng: *rng };
                lemma_commands_refused(
                    from,
                    to,
                    before,
                    *snapshot,
                    is_last,
                    calls,
                    cmds@,
                    e.kind(),
                );
            }
            return Err(e);
        },
    }
    let groups = execution.fill_groups();
    let carry = execution.carry_fills();
    let ghost t = StepTrace {
        inputs: StepInputs {
            cmds: cmds@,
            fills: fills@,
            groups: groups_of(groups),
            submit_ids: submit_ids@,
            snapshot: *snapshot,
            reasons,
        },
        carry: carry@,
        is_last,
    };
    match record_step(
        progress,
        cmds.as_slice(),
        fills.as_slice(),
        groups,
        carry,
        submit_ids.as_slice(),
        snapshot,
        &reasons,
        is_last,
    ) {
        Ok(after) => {
            assert(in_phase(before, t));
            assert(leads_to(before, t, *snapshot, is_last, after@));
            proof {
                let to = Seams { execution: *execution, strategy: *strategy, rng: *rng };
                reveal(step_driven);
                assert(step_driven(from, to, before, t, calls));
            }
            Ok(after)
        },
        Err(e) => {
            proof {
                assert(filled_by(from.execution, *execution, t));
                let to = Seams { execution: *execution, strategy: *strategy, rng: *rng };
                lemma_commands_refused(
                    from,
                    to,
                    before,
                    *snapshot,
                    is_last,
                    calls,
                    cmds@,
                    e.kind(),
                );
            }
            Err(e)
        },
    }
}

/// Integer cents as dollars.
pub fn dollars(cents: i64) -> (d: Decimal)
    ensures
        d == Decimal::of(cents as int, 2),
        d.mant() == cents,
        d.places() == 2,
{
    Decimal::from_i128_with_scale(cents as i128, 2)
}

/// The equity that a run ends with.
pub open spec fn final_equity(curve: Seq<EquityPoint>, initial_cents: i64) -> i64 {
    if curve.len() == 0 {
        initial_cents
    } else {
        curve.last().equity_cents
    }
}

/// Whether a run's output is what it has come to.
pub open spec fn reports(
    run: BacktestRun,
    p: ProgressView,
    initial_cents: i64,
    name: Seq<char>,
    first_ts: SimTime,
    last_ts: SimTime,
) -> bool {
    &&& run.equity_curve@ == p.curve
    &&& run.open_at_end@ == p.books.inventory
    &&& run.trade_log@ == p.books.log.closed
    &&& run.fills@ == p.books.bundle.fills
    &&& run.positions@ == p.books.bundle.positions
    &&& run.attribution_substrate.steps@ == p.attribution.steps
    &&& run.attribution_substrate.legs@ == p.attribution.legs
    &&& run.result.strategy_name@ == name
    &&& run.result.initial_capital == Decimal::of(initial_cents as int, 2)
    &&& run.result.final_capital == Decimal::of(final_equity(p.curve, initial_cents) as int, 2)
    &&& run.result.test_period_start.nanos_since_epoch() == first_ts.0
    &&& run.result.test_period_end.nanos_since_epoch() == last_ts.0
}

/// Put a run's output together.
pub fn finish_run(
    progress: Progress,
    initial_cents: i64,
    strategy_name: &str,
    first_ts: SimTime,
    last_ts: SimTime,
    data_source: DataSourceSpec,
    data_identity: String,
) -> (run: BacktestRun)
    ensures
        reports(run, progress@, initial_cents, strategy_name@, first_ts, last_ts),
        run.data_source == data_source,
        run.data_identity == data_identity,
{
    let len: usize = progress.equity_curve.len();
    let equity: i64 = if len == 0 {
        initial_cents
    } else {
        progress.equity_curve[len - 1].equity_cents
    };
    let (fills, positions) = progress.books.bundle.into_parts();
    BacktestRun {
        result: BacktestResult {
            strategy_name: String::from_str(strategy_name),
            initial_capital: dollars(initial_cents),
            final_capital: dollars(equity),
            test_period_start: Instant::from_timestamp_nanos(first_ts.0),
            test_period_end: Instant::from_timestamp_nanos(last_ts.0),
        },
        equity_curve: progress.equity_curve,
        open_at_end: progress.books.inventory,
        trade_log: progress.books.trade_log.into_log(),
        attribution_substrate: progress.attribution.into_substrate(),
        fills,
        positions,
        data_source,
        data_identity,
    }
}

/// Whether a run's output comes of some steps over a tape: the opening orders
/// were executed once, every step but the last was not the tape's final one,
/// and the last was.
pub open spec fn comes_of(
    run: BacktestRun,
    initial_cents: i64,
    name: Seq<char>,
    meta: TapeMeta,
    opening: StepTrace,
    steps: Seq<StepTrace>,
) -> bool {
    let p0 = fresh(initial_cents as int);
    &&& meta.non_empty
    &&& run.data_identity == meta.data_identity
    &&& steps.len() >= 1
    &&& opening.inputs.snapshot == steps[0].inputs.snapshot
    &&& forall|i: int|
        0 <= i < steps.len() ==> (#[trigger] steps[i]).is_last == (i == steps.len() - 1)
            && steps[i].is_last == (steps[i].inputs.snapshot.step == meta.final_step)
    &&& started(p0.books, opening) matches Some(books) && (replayed(
        ProgressView { books, ..p0 },
        steps,
    ) matches Some(p) && reports(
        run,
        p,
        initial_cents,
        name,
        meta.first_ts,
        steps.last().inputs.snapshot.ts,
    ))
}

/// The states that the seams of a run went through.
pub struct RunCalls<F, X, S> {
    /// The feed before each snapshot was taken, and after the last.
    pub feeds: Seq<F>,
    /// The other seams before the opening, before each step, and after the
    /// last.
    pub seams: Seq<Seams<X, S>>,
    /// What passed between the calls of each step.
    pub calls: Seq<StepCalls<S>>,
}

/// Whether the seams of a run led to one of its steps: the feed yielded its
/// snapshot, and the others led to the step from where the run stood.
pub open spec fn step_taken<F: DataFeed, X: ExecutionModel, S: Strategy>(
    c: RunCalls<F, X, S>,
    p: ProgressView,
    steps: Seq<StepTrace>,
    i: int,
) -> bool {
    &&& F::may_yield(c.feeds[i], c.feeds[i + 1], Ok(Some(steps[i].inputs.snapshot)))
    &&& replayed(p, steps.take(i)) matches Some(mid) && step_driven(
        c.seams[i + 1],
        c.seams[i + 2],
        mid,
        steps[i],
        c.calls[i],
    )
}

/// Whether the seams of a run led to its opening and to all its steps, one
/// after the other. The generator starts out from the seed.
#[verifier::opaque]
pub open spec fn driven<F: DataFeed, X: ExecutionModel, S: Strategy>(
    seed: u64,
    feed: F,
    execution: X,
    strategy: S,
    initial_cents: int,
    opening: StepTrace,
    steps: Seq<StepTrace>,
    c: RunCalls<F, X, S>,
) -> bool {
    let p0 = fresh(initial_cents);
    &&& c.feeds.len() == steps.len() + 1
    &&& c.seams.len() == steps.len() + 2
    &&& c.calls.len() == steps.len()
    &&& c.feeds[0] == feed
    &&& c.seams[0] == Seams { execution, strategy, rng: generator_of(seed) }
    &&& start_driven(c.seams[0], c.seams[1], p0.books, opening)
    &&& started(p0.books, opening) matches Some(books) && forall|i: int|
        0 <= i < steps.len() ==> #[trigger] step_taken(
            c,
            ProgressView { books, ..p0 },
            steps,
            i,
        )
}

/// One more step leaves those before it as they were.
proof fn lemma_driven_on<F: DataFeed, X: ExecutionModel, S: Strategy>(
    seed: u64,
    feed: F,
    execution: X,
    strategy: S,
    initial_cents: int,
    opening: StepTrace,
    steps: Seq<StepTrace>,
    c: RunCalls<F, X, S>,
    t: StepTrace,
    feed_after: F,
    seams_after: Seams<X, S>,
    calls: StepCalls<S>,
)
    requires
        driven(seed, feed, execution, strategy, initial_cents, opening, steps, c),
        F::may_yield(c.feeds.last(), feed_after, Ok(Some(t.inputs.snapshot))),
        started(fresh(initial_cents).books, opening) matches Some(books) && (replayed(
            ProgressView { books, ..fresh(initial_cents) },
            steps,
        ) matches Some(mid) && step_driven(c.seams.last(), seams_after, mid, t, calls)),
    ensures
        driven(
            seed,
            feed,
            execution,
            strategy,
            initial_cents,
            opening,
            steps.push(t),
            RunCalls {
                feeds: c.feeds.push(feed_after),
                seams: c.seams.push(seams_after),
                calls: c.calls.push(calls),
            },
        ),
{
    reveal(driven);
    let p0 = fresh(initial_cents);
    let p1 = ProgressView { books: started(p0.books, opening)->0, ..p0 };
    let grown = steps.push(t);
    let c2 = RunCalls {
        feeds: c.feeds.push(feed_after),
        seams: c.seams.push(seams_after),
        calls: c.calls.push(calls),
    };
    assert forall|i: int| 0 <= i < grown.len() implies #[trigger] step_taken(
        c2,
        p1,
        grown,
        i,
    ) by {
        if i < steps.len() {
            assert(grown.take(i) =~= steps.take(i));
            assert(step_taken(c, p1, steps, i));
        } else {
            assert(grown.take(i) =~= steps);
        }
    }
}

/// Whether a run's output comes of what the seams gave: it comes of some steps
/// over the feed's tape, and the seams led to each of them.
pub open spec fn ran<F: DataFeed, X: ExecutionModel, S: Strategy>(
    run: BacktestRun,
    config: BacktestConfig,
    feed: F,
    execution: X,
    strategy: S,
    name: Seq<char>,
    opening: StepTrace,
    steps: Seq<StepTrace>,
    c: RunCalls<F, X, S>,
) -> bool {
    let initial_cents = config.initial_capital as i64;
    &&& comes_of(run, initial_cents, name, feed.tape(), opening, steps)
    &&& driven(
        config.seed,
        feed,
        execution,
        strategy,
        initial_cents as int,
        opening,
        steps,
        c,
    )
    &&& run.data_source.same_as(feed.source())
}

/// Whether a feed gave no snapshot, and what is made of that: its own error, or
/// an error of the data where its tape has run out.
pub open spec fn yields_none(
    r: Result<Option<ChainSnapshot>, BacktestError>,
    kind: ErrorKind,
) -> bool {
    match r {
        Err(e) => e.kind() == kind,
        Ok(None) => kind == ErrorKind::Data,
        Ok(Some(_)) => false,
    }
}

/// Whether the step at a snapshot came to nothing, on a tape that ends at
/// `final_step`.
pub open spec fn refused_at<X: ExecutionModel, S: Strategy>(
    from: Seams<X, S>,
    to: Seams<X, S>,
    p: ProgressView,
    snapshot: ChainSnapshot,
    final_step: StepIndex,
    kind: ErrorKind,
) -> bool {
    step_refused(from, to, p, snapshot, snapshot.step == final_step, kind)
}

/// Whether a run that has come some steps far goes no further: the feed gives
/// no snapshot, or the step at the one it gives comes to nothing.
pub open spec fn goes_no_further<F: DataFeed, X: ExecutionModel, S: Strategy>(
    final_step: StepIndex,
    initial_cents: int,
    opening: StepTrace,
    steps: Seq<StepTrace>,
    c: RunCalls<F, X, S>,
    kind: ErrorKind,
) -> bool {
    let p0 = fresh(initial_cents);
    &&& forall|i: int|
        0 <= i < steps.len() ==> (#[trigger] steps[i]).inputs.snapshot.step != final_step
    &&& started(p0.books, opening) matches Some(books) && (replayed(
        ProgressView { books, ..p0 },
        steps,
    ) matches Some(p) && {
        ||| exists|after: F, r: Result<Option<ChainSnapshot>, BacktestError>| #[trigger]
            F::may_yield(c.feeds.last(), after, r) && yields_none(r, kind)
        ||| exists|after: F, snapshot: ChainSnapshot, to: Seams<X, S>|
            {
                &&& #[trigger] F::may_yield(c.feeds.last(), after, Ok(Some(snapshot)))
                &&& #[trigger] refused_at(c.seams.last(), to, p, snapshot, final_step, kind)
            }
    })
}

/// Whether a run came to nothing: its capital cannot be run with, its tape is
/// empty or too long, its opening came to nothing, or it went no further after
/// some steps.
#[verifier::opaque]
pub open spec fn broke_off<F: DataFeed, X: ExecutionModel, S: Strategy>(
    config: BacktestConfig,
    feed: F,
    execution: X,
    strategy: S,
    kind: ErrorKind,
) -> bool {
    let tape = feed.tape();
    let cents = (config.initial_capital as i64) as int;
    if !capital_valid(config.initial_capital) {
        kind == ErrorKind::Config
    } else if !tape.non_empty {
        kind == ErrorKind::Data
    } else if tape.final_step.0 + 1 > usize::MAX {
        kind == ErrorKind::ArithmeticOverflow
    } else {
        ||| exists|after: F, r: Result<Option<ChainSnapshot>, BacktestError>| #[trigger]
            F::may_yield(feed, after, r) && yields_none(r, kind)
        ||| exists|after: F, snapshot: ChainSnapshot, to: Seams<X, S>|
            {
                &&& #[trigger] F::may_yield(feed, after, Ok(Some(snapshot)))
                &&& #[trigger] start_refused(
                    Seams { execution, strategy, rng: generator_of(config.seed) },
                    to,
                    fresh(cents).books,
                    snapshot,
                    kind,
                )
            }
        ||| exists|opening: StepTrace, steps: Seq<StepTrace>, c: RunCalls<F, X, S>|
            {
                &&& #[trigger] driven(
                    config.seed,
                    feed,
                    execution,
                    strategy,
                    cents,
                    opening,
                    steps,
                    c,
                )
                &&& goes_no_further(tape.final_step, cents, opening, steps, c, kind)
            }
    }
}

/// The replay engine.
#[derive(Debug, Clone, Copy, PartialEq, Eq, Structural)]
pub struct BacktestEngine;

impl Default for BacktestEngine {
    fn default() -> (e: Self)
        ensures
            e == BacktestEngine,
    {
        BacktestEngine
    }
}

impl BacktestEngine {
    /// Run one backtest over a feed's tape, to its final step.
    ///
    /// What the feed yields, what the strategy asks for and how it is filled
    /// lies with the three seams, and so does whether one of them fails.
    /// Whatever they give, a run that succeeds comes of steps that the seams led
    /// to one after the other, each recorded as `record_step` says, and a run
    /// that fails broke off where `broke_off` says. A capital that cannot be run
    /// with, and then an empty tape, is refused first.
    #[verifier::rlimit(40)]
    pub fn run<F: DataFeed, X: ExecutionModel, S: Strategy>(
        config: &BacktestConfig,
        feed: F,
        execution: X,
        strategy: S,
        strategy_name: &str,
    ) -> (r: Result<BacktestRun, BacktestError>)
        ensures
            match r {
                Ok(run) => {
                    &&& capital_valid(config.initial_capital)
                    &&& feed.tape().non_empty
                    &&& exists|
                        opening: StepTrace,
                        steps: Seq<StepTrace>,
                        c: RunCalls<F, X, S>,
                    | #[trigger]
                        ran(
                            run,
                            *config,
                            feed,
                            execution,
                            strategy,
                            strategy_name@,
                            opening,
                            steps,
                            c,
                        )
                },
                Err(e) => broke_off(*config, feed, execution, strategy, e.kind()),
            },
    {
        let mut reader = feed;
        let mut venue = execution;
        let mut trader = strategy;
        let initial_cents: i64 = match initial_cents(config) {
            Ok(cents) => cents,
            Err(e) => {
                proof {
                    reveal(broke_off);
                }
                return Err(e);
            },
        };
        let meta = reader.tape_meta().clone();
        let progress = match begin_run(initial_cents, &meta) {
            Ok(progress) => progress,
            Err(e) => {
                proof {
                    reveal(broke_off);
                }
                return Err(e);
            },
        };
        let ghost p0 = progress@;
        let final_step = meta.final_step;
        let first_ts = meta.first_ts;
        let data_source = reader.meta();
        let data_identity = meta.data_identity.clone();
        let capacity: usize = match (final_step.0 as usize).checked_add(1) {
            Some(n) => n,
            None => {
                proof {
                    reveal(broke_off);
                }
                return Err(BacktestError::ArithmeticOverflow);
            },
        };
        let mut rng = seeded_generator(config.seed);
        let ghost seams0 = Seams { execution: venue, strategy: trader, rng };
        let mut current: ChainSnapshot = match reader.next() {
            Err(e) => {
                proof {
                    reveal(broke_off);
                    assert(F::may_yield(feed, reader, Err(e)));
                }
                return Err(e);
            },
            Ok(None) => {
                proof {
                    reveal(broke_off);
                    assert(F::may_yield(feed, reader, Ok(None)));
                }
                return Err(
                    BacktestError::Data(
                        String::from_str(
                            "tape metadata reports a non-empty tape but the feed yielded no first snapshot",
                        ),
                    ),
                );
            },
            Ok(Some(snapshot)) => snapshot,
        };
        let books = match start(
            &mut trader,
            &mut venue,
            &mut rng,
            progress.books,
            &current,
        ) {
            Ok(books) => books,
            Err(e) => {
                proof {
                    reveal(broke_off);
                    assert(F::may_yield(feed, reader, Ok(Some(current))));
                }
                return Err(e);
            },
        };
        let ghost seams1 = Seams { execution: venue, strategy: trader, rng };
        let ghost opening = choose|t: StepTrace|
            {
                &&& #[trigger] opens_to(p0.books, t, current, books@)
                &&& start_driven(seams0, seams1, p0.books, t)
            };
        let mut progress = Progress {
            clock: progress.clock,
            books,
            equity_curve: progress.equity_curve,
            attribution: progress.attribution,
        };
        let legs: usize = progress.books.inventory.len();
        progress.attribution.reserve_legs(capacity, legs);
        progress.books.trade_log.reserve(legs);
        progress.books.bundle.reserve(legs, capacity);
        let ghost p1 = progress@;
        let ghost mut steps: Seq<StepTrace> = Seq::empty();
        let ghost mut c = RunCalls {
            feeds: seq![feed],
            seams: seq![seams0, seams1],
            calls: Seq::empty(),
        };
        assert(driven(
            config.seed,
            feed,
            execution,
            strategy,
            initial_cents as int,
            opening,
            steps,
            c,
        )) by {
            reveal(driven);
        }
        loop
            invariant
                feed.tape() == meta,
                final_step.0 + 1 <= usize::MAX,
                data_source.same_as(feed.source()),
                driven(
                    config.seed,
                    feed,
                    execution,
                    strategy,
                    initial_cents as int,
                    opening,
                    steps,
                    c,
                ),
                F::may_yield(c.feeds.last(), reader, Ok(Some(current))),
                c.seams.last() == (Seams { execution: venue, strategy: trader, rng }),
                capital_valid(config.initial_capital),
                initial_cents == config.initial_capital,
                meta.non_empty,
                final_step == meta.final_step,
                first_ts == meta.first_ts,
                data_identity == meta.data_identity,
                p0 == fresh(initial_cents as int),
                started(p0.books, opening) == Some(p1.books),
                p1 == (ProgressView { books: p1.books, ..p0 }),
                replayed(p1, steps) == Some(progress@),
                steps.len() == 0 ==> opening.inputs.snapshot == current,
                steps.len() > 0 ==> opening.inputs.snapshot == steps[0].inputs.snapshot,
                forall|i: int|
                    0 <= i < steps.len() ==> !(#[trigger] steps[i]).is_last
                        && steps[i].inputs.snapshot.step != final_step,
            decreases i64::MAX - progress@.clock.ts.0,
        {
            let is_last = current.step.0 == final_step.0;
            let ghost before = progress@;
            let ghost from = Seams { execution: venue, strategy: trader, rng };
            progress =
            match step(
                &mut trader,
                &mut venue,
                &mut rng,
                progress,
                &current,
                is_last,
            ) {
                Ok(progress) => progress,
                Err(e) => {
                    proof {
                        reveal(broke_off);
                        assert(F::may_yield(c.feeds.last(), reader, Ok(Some(current))));
                        let to = Seams { execution: venue, strategy: trader, rng };
                        assert(is_last == (current.step == final_step));
                        assert(refused_at(from, to, before, current, final_step, e.kind()));
                        assert(goes_no_further(
                            final_step,
                            initial_cents as int,
                            opening,
                            steps,
                            c,
                            e.kind(),
                        ));
                    }
                    return Err(e);
                },
            };
            proof {
                let to = Seams { execution: venue, strategy: trader, rng };
                let (t, calls) = choose|t: StepTrace, calls: StepCalls<S>|
                    {
                        &&& #[trigger] leads_to(before, t, current, is_last, progress@)
                        &&& #[trigger] step_driven(from, to, before, t, calls)
                    };
                lemma_driven_on(
                    config.seed,
                    feed,
                    execution,
                    strategy,
                    initial_cents as int,
                    opening,
                    steps,
                    c,
                    t,
                    reader,
                    to,
                    calls,
                );
                c = RunCalls {
                    feeds: c.feeds.push(reader),
                    seams: c.seams.push(to),
                    calls: c.calls.push(calls),
                };
                let grown = steps.push(t);
                assert(grown.drop_last() =~= steps);
                steps = grown;
                assert(replayed(p1, steps) == Some(progress@));
            }
            if is_last {
                let last_ts = current.ts;
                let run = finish_run(
                    progress,
                    initial_cents,
                    strategy_name,
                    first_ts,
                    last_ts,
                    data_source,
                    data_identity,
                );
                assert(initial_cents == config.initial_capital as i64);
                assert(comes_of(run, initial_cents, strategy_name@, meta, opening, steps));
                assert(ran(
                    run,
                    *config,
                    feed,
                    execution,
                    strategy,
                    strategy_name@,
                    opening,
                    steps,
                    c,
                ));
                return Ok(run);
            }
            current =
            match reader.next() {
                Err(e) => {
                    proof {
                        reveal(broke_off);
                        assert(F::may_yield(c.feeds.last(), reader, Err(e)));
                        assert(goes_no_further(
                            final_step,
                            initial_cents as int,
                            opening,
                            steps,
                            c,
                            e.kind(),
                        ));
                    }
                    return Err(e);
                },
                Ok(None) => {
                    proof {
                        reveal(broke_off);
                        assert(F::may_yield(c.feeds.last(), reader, Ok(None)));
                        assert(goes_no_further(
                            final_step,
                            initial_cents as int,
                            opening,
                            steps,
                            c,
                            ErrorKind::Data,
                        ));
                    }
                    return Err(
                        BacktestError::Data(
                            String::from_str(
                                "feed exhausted before reaching the declared final step",
                            ),
                        ),
                    );
                },
                Ok(Some(snapshot)) => snapshot,
            };
        }
    }
}

} // verus!
