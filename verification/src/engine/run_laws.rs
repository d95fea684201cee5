//! What holds of every run, whatever its seams do.

use crate::data::TapeMeta;
use crate::domain::decimal::lemma_parts_of;
use crate::domain::execution::sign_convention::sum_cents;
use crate::domain::money::fits_i64;
use crate::domain::{
    Cents, EquityPoint, Fill, OpenPosition, OrderCommand, PendingOrder, PositionAction,
};
use crate::engine::backtest::{
    capital_valid, comes_of, fresh, in_phase, is_close, legs_taken_down, minted_total, order_ids,
    replayed, shows_pending, started, stepped, with_minted, BacktestRun, ProgressView, StepTrace,
};
use crate::engine::book_laws::{
    books_orderly, flow_total, law_each_fill_counts_once, law_inventory_stays_in_order, stream,
};
use crate::engine::books::PendingEntry;
use crate::engine::bundle_collector::{law_one_row_per_open_leg, law_rows_say_what_was_marked};
use crate::engine::correlate::step_applied;
use crate::engine::fills::{fees_of, slippages_of};
use crate::engine::ledger::{marks_value, LedgerView};
use crate::engine::substrate::{law_samples_follow_their_legs, StepAttributionScalars};
use vstd::prelude::*;

verus! {

/// Whether an equity point is a step's.
pub open spec fn is_point_of(point: EquityPoint, t: StepTrace) -> bool {
    &&& point.step == t.inputs.snapshot.step.0
    &&& point.ts_ns == t.inputs.snapshot.ts.0
    &&& point.equity_cents == point.cash_cents + point.position_value_cents
    &&& point.drawdown.below_peak <= 0
}

/// What a step adds to a run.
proof fn lemma_step_adds(p: ProgressView, t: StepTrace)
    requires
        fits_i64(p.books.ledger.cash),
        fits_i64(p.books.ledger.peak),
        stepped(p, t) is Some,
    ensures
        ({
            let q = stepped(p, t)->0;
            &&& q.curve.len() == p.curve.len() + 1
            &&& q.curve.drop_last() == p.curve
            &&& is_point_of(q.curve.last(), t)
            &&& q.curve.last().cash_cents == q.books.ledger.cash
            &&& q.curve.last().equity_cents == q.books.ledger.prior_equity
            &&& q.clock.ts == t.inputs.snapshot.ts
            &&& q.clock.step == t.inputs.snapshot.step
            &&& p.clock.ts.0 < q.clock.ts.0
            &&& p.clock.step.0 <= q.clock.step.0
            &&& fits_i64(q.books.ledger.cash)
            &&& fits_i64(q.books.ledger.peak)
            &&& q.books.ledger.cash == p.books.ledger.cash + flow_total(
                t.inputs.fills,
                t.inputs.snapshot.spec.contract_multiplier as int,
            )
            &&& stream(q.books.bundle) == stream(p.books.bundle) + t.inputs.fills
            &&& books_orderly(p.books) ==> books_orderly(q.books)
            &&& q.attribution.steps.drop_last() == p.attribution.steps
            &&& q.attribution.steps.len() == p.attribution.steps.len() + 1
            &&& q.attribution.steps.last().step_pnl_cents == q.books.ledger.prior_equity
                - p.books.ledger.prior_equity
        }),
{
    let b = with_minted(p.books, t.inputs.cmds);
    let q = stepped(p, t)->0;
    law_each_fill_counts_once(b, t.inputs, t.carry);
    if books_orderly(p.books) {
        law_inventory_stays_in_order(b, t.inputs, t.carry);
    }
    let applied = step_applied(b, t.inputs, t.carry)->Ok_0;
    let ledger = crate::engine::backtest::legs_taken_down(
        applied.ledger,
        p.books.inventory,
        t.inputs.snapshot.spec.contract_multiplier,
    );
    let settled = crate::engine::ledger::after_settle(
        ledger,
        applied.inventory,
        t.inputs.snapshot,
    );
    law_one_row_per_open_leg(
        applied.bundle,
        t.inputs.snapshot.step.0,
        t.inputs.snapshot.ts.0,
        settled.position_marks,
        t.is_last,
    );
    assert(q.curve.drop_last() =~= p.curve);
    assert(q.attribution.steps.drop_last() =~= p.attribution.steps);
}

/// The fills of some steps, one step after the other.
pub open spec fn all_fills(steps: Seq<StepTrace>) -> Seq<Fill>
    decreases steps.len(),
{
    if steps.len() == 0 {
        Seq::empty()
    } else {
        all_fills(steps.drop_last()) + steps.last().inputs.fills
    }
}

/// What the fills of some steps do to cash.
pub open spec fn all_flows(steps: Seq<StepTrace>) -> int
    decreases steps.len(),
{
    if steps.len() == 0 {
        0
    } else {
        all_flows(steps.drop_last()) + flow_total(
            steps.last().inputs.fills,
            steps.last().inputs.snapshot.spec.contract_multiplier as int,
        )
    }
}

/// The profits of some steps.
pub open spec fn all_pnl(steps: Seq<StepAttributionScalars>) -> int
    decreases steps.len(),
{
    if steps.len() == 0 {
        0
    } else {
        all_pnl(steps.drop_last()) + steps.last().step_pnl_cents
    }
}

/// What some steps add to a run.
proof fn lemma_steps_add(p: ProgressView, steps: Seq<StepTrace>)
    requires
        fits_i64(p.books.ledger.cash),
        fits_i64(p.books.ledger.peak),
        p.curve.len() == 0,
        p.attribution.steps.len() == 0,
        replayed(p, steps) is Some,
    ensures
        ({
            let q = replayed(p, steps)->0;
            &&& fits_i64(q.books.ledger.cash)
            &&& fits_i64(q.books.ledger.peak)
            &&& q.curve.len() == steps.len()
            &&& forall|i: int|
                0 <= i < steps.len() ==> is_point_of(#[trigger] q.curve[i], steps[i])
            &&& forall|i: int, j: int|
                #![trigger q.curve[i], q.curve[j]]
                0 <= i < j < steps.len() ==> q.curve[i].ts_ns < q.curve[j].ts_ns
                    && q.curve[i].step <= q.curve[j].step
            &&& steps.len() > 0 ==> {
                &&& q.clock.ts == steps.last().inputs.snapshot.ts
                &&& q.clock.step == steps.last().inputs.snapshot.step
                &&& q.curve.last().cash_cents == q.books.ledger.cash
                &&& q.curve.last().equity_cents == q.books.ledger.prior_equity
            }
            &&& q.books.ledger.cash == p.books.ledger.cash + all_flows(steps)
            &&& stream(q.books.bundle) == stream(p.books.bundle) + all_fills(steps)
            &&& books_orderly(p.books) ==> books_orderly(q.books)
            &&& q.attribution.steps.len() == steps.len()
            &&& all_pnl(q.attribution.steps) == q.books.ledger.prior_equity
                - p.books.ledger.prior_equity
        }),
    decreases steps.len(),
{
    let q = replayed(p, steps)->0;
    if steps.len() == 0 {
        assert(stream(p.books.bundle) + Seq::<Fill>::empty() =~= stream(p.books.bundle));
    } else {
        let front = steps.drop_last();
        let t = steps.last();
        lemma_steps_add(p, front);
        let mid = replayed(p, front)->0;
        lemma_step_adds(mid, t);
        assert forall|i: int| 0 <= i < steps.len() implies is_point_of(
            #[trigger] q.curve[i],
            steps[i],
        ) by {
            if i < front.len() {
                assert(q.curve.drop_last()[i] == mid.curve[i]);
                assert(is_point_of(mid.curve[i], front[i]));
            }
        }
        assert forall|i: int, j: int|
            #![trigger q.curve[i], q.curve[j]]
            0 <= i < j < steps.len() implies q.curve[i].ts_ns < q.curve[j].ts_ns
            && q.curve[i].step <= q.curve[j].step by {
            assert(q.curve.drop_last()[i] == mid.curve[i]);
            if j < front.len() {
                assert(q.curve.drop_last()[j] == mid.curve[j]);
            } else {
                let last = front.len() - 1;
                assert(mid.curve[i].ts_ns <= mid.curve[last].ts_ns && mid.curve[i].step
                    <= mid.curve[last].step);
                assert(is_point_of(mid.curve[last], front[last]));
            }
        }
        assert(stream(p.books.bundle) + all_fills(front) + t.inputs.fills =~= stream(
            p.books.bundle,
        ) + all_fills(steps));
    }
}

/// The state of a run when its first step begins.
pub proof fn lemma_opening(initial_cents: i64, opening: StepTrace)
    requires
        started(fresh(initial_cents as int).books, opening) is Some,
    ensures
        ({
            let b = started(fresh(initial_cents as int).books, opening)->0;
            &&& fits_i64(b.ledger.cash)
            &&& b.ledger.peak == initial_cents
            &&& b.ledger.prior_equity == initial_cents
            &&& b.ledger.cash == initial_cents + flow_total(
                opening.inputs.fills,
                opening.inputs.snapshot.spec.contract_multiplier as int,
            )
            &&& stream(b.bundle) == opening.inputs.fills
            &&& books_orderly(b)
        }),
{
    let b0 = fresh(initial_cents as int).books;
    let b = with_minted(b0, opening.inputs.cmds);
    law_each_fill_counts_once(b, opening.inputs, opening.carry);
    law_inventory_stays_in_order(b, opening.inputs, opening.carry);
    assert(stream(b.bundle) + opening.inputs.fills =~= opening.inputs.fills);
}

/// A run has one equity point per step, at the step's own time, and its points
/// move forward in time. At each of them equity is cash plus position value
/// and stands no higher than its peak. The last is at the tape's final step.
pub proof fn law_one_point_per_step(
    run: BacktestRun,
    initial_cents: i64,
    name: Seq<char>,
    meta: TapeMeta,
    opening: StepTrace,
    steps: Seq<StepTrace>,
)
    requires
        comes_of(run, initial_cents, name, meta, opening, steps),
    ensures
        run.equity_curve@.len() == steps.len(),
        forall|i: int|
            0 <= i < steps.len() ==> is_point_of(#[trigger] run.equity_curve@[i], steps[i]),
        forall|i: int, j: int|
            #![trigger run.equity_curve@[i], run.equity_curve@[j]]
            0 <= i < j < steps.len() ==> run.equity_curve@[i].ts_ns < run.equity_curve@[j].ts_ns
                && run.equity_curve@[i].step <= run.equity_curve@[j].step,
        run.equity_curve@.last().step == meta.final_step.0,
        run.attribution_substrate.steps@.len() == steps.len(),
{
    let p0 = fresh(initial_cents as int);
    let books = started(p0.books, opening)->0;
    lemma_opening(initial_cents, opening);
    let p1 = ProgressView { books, ..p0 };
    lemma_steps_add(p1, steps);
    let last = steps.len() - 1;
    assert(is_point_of(run.equity_curve@[last], steps[last]));
    assert(steps[last].is_last);
}

/// Cash moves through fills alone: the cash of a run's last point is the
/// initial capital and what all its fills did to cash, each counted once. The
/// run's fill stream is those fills, in their order.
pub proof fn law_cash_moves_by_fills_alone(
    run: BacktestRun,
    initial_cents: i64,
    name: Seq<char>,
    meta: TapeMeta,
    opening: StepTrace,
    steps: Seq<StepTrace>,
)
    requires
        comes_of(run, initial_cents, name, meta, opening, steps),
    ensures
        run.equity_curve@.last().cash_cents == initial_cents + flow_total(
            opening.inputs.fills,
            opening.inputs.snapshot.spec.contract_multiplier as int,
        ) + all_flows(steps),
        run.fills@.map_values(|record: crate::engine::bundle_collector::FillRecord| record.fill)
            == opening.inputs.fills + all_fills(steps),
{
    let p0 = fresh(initial_cents as int);
    let books = started(p0.books, opening)->0;
    lemma_opening(initial_cents, opening);
    lemma_steps_add(ProgressView { books, ..p0 }, steps);
    let q = replayed(ProgressView { books, ..p0 }, steps)->0;
    assert(stream(q.books.bundle) =~= run.fills@.map_values(
        |record: crate::engine::bundle_collector::FillRecord| record.fill,
    ));
}

/// The profits of a run's steps add up to what it made: its last equity less
/// the initial capital.
pub proof fn law_step_profits_add_up(
    run: BacktestRun,
    initial_cents: i64,
    name: Seq<char>,
    meta: TapeMeta,
    opening: StepTrace,
    steps: Seq<StepTrace>,
)
    requires
        comes_of(run, initial_cents, name, meta, opening, steps),
    ensures
        all_pnl(run.attribution_substrate.steps@) == run.equity_curve@.last().equity_cents
            - initial_cents,
{
    let p0 = fresh(initial_cents as int);
    let books = started(p0.books, opening)->0;
    lemma_opening(initial_cents, opening);
    lemma_steps_add(ProgressView { books, ..p0 }, steps);
}

/// The legs that a run leaves open stand in the order in which they were
/// opened, and none of them is empty.
pub proof fn law_open_legs_are_in_order(
    run: BacktestRun,
    initial_cents: i64,
    name: Seq<char>,
    meta: TapeMeta,
    opening: StepTrace,
    steps: Seq<StepTrace>,
)
    requires
        comes_of(run, initial_cents, name, meta, opening, steps),
    ensures
        forall|i: int, j: int|
            #![trigger run.open_at_end@[i], run.open_at_end@[j]]
            0 <= i < j < run.open_at_end@.len() ==> run.open_at_end@[i].position_id.0
                < run.open_at_end@[j].position_id.0,
        forall|i: int|
            0 <= i < run.open_at_end@.len() ==> (#[trigger] run.open_at_end@[i]).quantity.n() > 0,
{
    let p0 = fresh(initial_cents as int);
    let books = started(p0.books, opening)->0;
    lemma_opening(initial_cents, opening);
    lemma_steps_add(ProgressView { books, ..p0 }, steps);
}

/// A leg left open is reported as such and never closed by force: the run's
/// last position rows are those of the legs left open, one each and in their
/// order, marked as open at the end and without a reason to exit.
pub proof fn law_open_legs_are_reported(
    run: BacktestRun,
    initial_cents: i64,
    name: Seq<char>,
    meta: TapeMeta,
    opening: StepTrace,
    steps: Seq<StepTrace>,
)
    requires
        comes_of(run, initial_cents, name, meta, opening, steps),
    ensures
        run.positions@.len() >= run.open_at_end@.len(),
        forall|i: int|
            0 <= i < run.open_at_end@.len() ==> {
                let row = #[trigger] run.positions@[run.positions@.len() - run.open_at_end@.len()
                    + i];
                &&& row.position_id == run.open_at_end@[i].position_id.0
                &&& row.open_at_end
                &&& row.exit_reason is None
            },
{
    let p0 = fresh(initial_cents as int);
    let books = started(p0.books, opening)->0;
    let p1 = ProgressView { books, ..p0 };
    let p = replayed(p1, steps.drop_last())->0;
    let t = steps.last();
    assert(steps[steps.len() - 1].is_last);
    let b = with_minted(p.books, t.inputs.cmds);
    let applied = step_applied(b, t.inputs, t.carry)->Ok_0;
    let ledger = crate::engine::backtest::legs_taken_down(
        applied.ledger,
        p.books.inventory,
        t.inputs.snapshot.spec.contract_multiplier,
    );
    let settled = crate::engine::ledger::after_settle(
        ledger,
        applied.inventory,
        t.inputs.snapshot,
    );
    law_one_row_per_open_leg(
        applied.bundle,
        t.inputs.snapshot.step.0,
        t.inputs.snapshot.ts.0,
        settled.position_marks,
        true,
    );
    let n = applied.bundle.positions.len();
    assert forall|i: int| 0 <= i < run.open_at_end@.len() implies ({
        let row = #[trigger] run.positions@[run.positions@.len() - run.open_at_end@.len() + i];
        &&& row.position_id == run.open_at_end@[i].position_id.0
        &&& row.open_at_end
        &&& row.exit_reason is None
    }) by {
        assert(run.positions@[n + i].open_at_end);
        assert(settled.position_marks[i].position_id == applied.inventory[i].position_id);
    }
}

/// The order ids that a step hands out were never handed out before: they
/// start where those of the steps before it end.
pub proof fn law_order_ids_are_never_reused(p: ProgressView, steps: Seq<StepTrace>, i: int, j: int)
    requires
        replayed(p, steps) is Some,
        books_orderly(p.books),
        0 <= i < j < steps.len(),
    ensures
        forall|a: int, b: int|
            #![trigger steps[i].inputs.submit_ids[a], steps[j].inputs.submit_ids[b]]
            0 <= a < steps[i].inputs.submit_ids.len() && 0 <= b < steps[j].inputs.submit_ids.len()
                ==> steps[i].inputs.submit_ids[a].0 < steps[j].inputs.submit_ids[b].0,
{
    let front = steps.take(j);
    lemma_prefix(p, steps, j);
    lemma_prefix(p, steps, j + 1);
    assert(steps.take(j + 1).drop_last() =~= front);
    assert(steps.take(j + 1).last() == steps[j]);
    let mid = replayed(p, front)->0;
    lemma_ids_below(p, front, i);
    assert(front[i] == steps[i]);
    lemma_ids_start(mid, steps[j]);
    assert forall|a: int, b: int|
        #![trigger steps[i].inputs.submit_ids[a], steps[j].inputs.submit_ids[b]]
        0 <= a < steps[i].inputs.submit_ids.len() && 0 <= b
            < steps[j].inputs.submit_ids.len() implies steps[i].inputs.submit_ids[a].0
        < steps[j].inputs.submit_ids[b].0 by {
        assert(steps[i].inputs.submit_ids[a].0 < mid.books.ids.order);
    }
}

/// The ids that a step hands out start at the next one.
proof fn lemma_ids_start(p: ProgressView, t: StepTrace)
    requires
        stepped(p, t) is Some,
    ensures
        forall|b: int|
            0 <= b < t.inputs.submit_ids.len() ==> p.books.ids.order <= (
            #[trigger] t.inputs.submit_ids[b]).0,
{
    assert(in_phase(p, t));
    lemma_minted_nonnegative(t.inputs.cmds);
}

/// The steps before another could be taken too.
pub proof fn lemma_prefix(p: ProgressView, steps: Seq<StepTrace>, k: int)
    requires
        replayed(p, steps) is Some,
        0 <= k <= steps.len(),
    ensures
        replayed(p, steps.take(k)) is Some,
    decreases steps.len(),
{
    if k == steps.len() {
        assert(steps.take(k) =~= steps);
    } else {
        lemma_prefix(p, steps.drop_last(), k);
        assert(steps.drop_last().take(k) =~= steps.take(k));
    }
}

/// The ids that a step handed out are below the next one.
proof fn lemma_ids_below(p: ProgressView, steps: Seq<StepTrace>, i: int)
    requires
        replayed(p, steps) is Some,
        books_orderly(p.books),
        0 <= i < steps.len(),
    ensures
        forall|a: int|
            0 <= a < steps[i].inputs.submit_ids.len()
                ==> (#[trigger] steps[i].inputs.submit_ids[a]).0 < replayed(
                p,
                steps,
            )->0.books.ids.order,
        books_orderly(replayed(p, steps)->0.books),
    decreases steps.len(),
{
    let front = steps.drop_last();
    let t = steps.last();
    let mid = replayed(p, front)->0;
    lemma_order_kept(p, front);
    let b = with_minted(mid.books, t.inputs.cmds);
    law_inventory_stays_in_order(b, t.inputs, t.carry);
    lemma_minted_nonnegative(t.inputs.cmds);
    if i < front.len() {
        lemma_ids_below(p, front, i);
        assert(front[i] == steps[i]);
    }
}

/// Steps keep the inventory in order.
pub proof fn lemma_order_kept(p: ProgressView, steps: Seq<StepTrace>)
    requires
        replayed(p, steps) is Some,
        books_orderly(p.books),
    ensures
        books_orderly(replayed(p, steps)->0.books),
    decreases steps.len(),
{
    if steps.len() > 0 {
        lemma_order_kept(p, steps.drop_last());
        let mid = replayed(p, steps.drop_last())->0;
        let t = steps.last();
        law_inventory_stays_in_order(with_minted(mid.books, t.inputs.cmds), t.inputs, t.carry);
    }
}

/// Commands take no negative number of ids.
pub proof fn lemma_minted_nonnegative(cmds: Seq<crate::domain::OrderCommand>)
    ensures
        crate::engine::backtest::minted_total(cmds) >= 0,
    decreases cmds.len(),
{
    if cmds.len() > 0 {
        lemma_minted_nonnegative(cmds.drop_last());
    }
}

/// An order id is taken for every order submitted, plainly or in place of
/// another, and for nothing else; ids follow one another.
pub proof fn law_each_order_takes_one_id(
    cmds: Seq<OrderCommand>,
    cmd: OrderCommand,
    first: int,
    n: int,
    i: int,
)
    requires
        0 <= first,
        0 <= i < n,
        first + n <= u64::MAX,
    ensures
        minted_total(Seq::empty()) == 0,
        minted_total(cmds.push(cmd)) == minted_total(cmds) + match cmd {
            OrderCommand::Submit(_) => 1int,
            OrderCommand::Replace { .. } => 1int,
            OrderCommand::Cancel(_) => 0int,
        },
        order_ids(first, n).len() == n,
        order_ids(first, n)[i].0 == first + i,
{
    assert(cmds.push(cmd).drop_last() =~= cmds);
}

/// What a strategy may still ask for at the end of the tape: to close legs,
/// and neither to open, nor to cancel, nor to replace.
pub proof fn law_only_closes_end_a_tape(cmd: OrderCommand)
    ensures
        match cmd {
            OrderCommand::Submit(intent) => match intent.action {
                PositionAction::Close(_) => is_close(cmd),
                PositionAction::Open => !is_close(cmd),
            },
            OrderCommand::Cancel(_) => !is_close(cmd),
            OrderCommand::Replace { .. } => !is_close(cmd),
        },
{
}

/// A run begins with its capital in cash and nothing else: no legs, no orders,
/// no fills, no points, and ids that start at one. Capital must be above zero
/// and fit sixty-four bits.
pub proof fn law_run_begins_with_its_capital(capital: u64, cents: int)
    ensures
        capital_valid(capital) <==> 0 < capital < 0x8000_0000_0000_0000,
        ({
            let p = fresh(cents);
            &&& p.books.ledger.cash == cents
            &&& p.books.ledger.peak == cents
            &&& p.books.ledger.prior_equity == cents
            &&& p.books.ledger.slippages.len() == 0
            &&& p.books.ledger.fee_entries.len() == 0
            &&& p.books.inventory.len() == 0
            &&& p.books.log.closed.len() == 0
            &&& p.books.bundle.fills.len() == 0
            &&& p.books.bundle.positions.len() == 0
            &&& p.books.ids.order == 1 && p.books.ids.position == 1 && p.books.ids.trade == 1
            &&& p.curve.len() == 0
            &&& p.attribution.steps.len() == 0
            &&& p.clock.ts.0 == i64::MIN
        }),
{
}

/// A run reports what it began with and what it came to, in dollars: its
/// initial capital, the equity of its last point, and the period of its tape.
pub proof fn law_run_reports_what_it_came_to(
    run: BacktestRun,
    initial_cents: i64,
    name: Seq<char>,
    meta: TapeMeta,
    opening: StepTrace,
    steps: Seq<StepTrace>,
)
    requires
        comes_of(run, initial_cents, name, meta, opening, steps),
    ensures
        run.result.strategy_name@ == name,
        run.result.initial_capital.mant() == initial_cents,
        run.result.initial_capital.places() == 2,
        run.result.final_capital.mant() == run.equity_curve@.last().equity_cents,
        run.result.final_capital.places() == 2,
        run.result.test_period_start.nanos_since_epoch() == meta.first_ts.0,
        run.result.test_period_end.nanos_since_epoch() == run.equity_curve@.last().ts_ns,
        run.data_identity == meta.data_identity,
{
    law_one_point_per_step(run, initial_cents, name, meta, opening, steps);
    let last = steps.len() - 1;
    assert(is_point_of(run.equity_curve@[last], steps[last]));
    lemma_parts_of(initial_cents as int, 2);
    lemma_parts_of(run.equity_curve@.last().equity_cents as int, 2);
}

/// A step ends with one row per leg that is then open, in the legs' order and
/// marked at the step's own snapshot, and with a point whose position value is
/// what those legs are worth.
pub proof fn law_step_marks_every_open_leg(p: ProgressView, t: StepTrace, i: int)
    requires
        stepped(p, t) is Some,
        0 <= i < stepped(p, t)->0.books.inventory.len(),
    ensures
        ({
            let q = stepped(p, t)->0;
            let snapshot = t.inputs.snapshot;
            let leg = q.books.inventory[i];
            let rows = q.books.bundle.positions;
            let row = rows[rows.len() - q.books.inventory.len() + i];
            let marks = q.books.ledger.position_marks;
            &&& rows.len() >= q.books.inventory.len()
            &&& row.position_id == leg.position_id.0
            &&& row.contract == leg.contract
            &&& row.side == leg.side
            &&& row.quantity == leg.quantity.n()
            &&& row.step == snapshot.step.0
            &&& row.ts_ns == snapshot.ts.0
            &&& row.stale_mark == !snapshot.quotes@.dom().contains(leg.contract@)
            &&& !row.stale_mark ==> row.mark_cents == snapshot.quotes@[leg.contract@].mid.0
            &&& row.exit_reason is None
            &&& row.open_at_end == t.is_last
            &&& marks.len() == q.books.inventory.len()
            &&& q.curve.last().position_value_cents == marks_value(marks)
        }),
{
    let b = with_minted(p.books, t.inputs.cmds);
    let applied = step_applied(b, t.inputs, t.carry)->Ok_0;
    let ledger = crate::engine::backtest::legs_taken_down(
        applied.ledger,
        p.books.inventory,
        t.inputs.snapshot.spec.contract_multiplier,
    );
    let settled = crate::engine::ledger::after_settle(
        ledger,
        applied.inventory,
        t.inputs.snapshot,
    );
    law_one_row_per_open_leg(
        applied.bundle,
        t.inputs.snapshot.step.0,
        t.inputs.snapshot.ts.0,
        settled.position_marks,
        t.is_last,
    );
    law_rows_say_what_was_marked(
        applied.bundle,
        t.inputs.snapshot.step.0,
        t.inputs.snapshot.ts.0,
        settled.position_marks,
        t.is_last,
        i,
    );
}

/// The legs that a step is attributed to are those held when it began, as they
/// were known then.
pub proof fn law_attribution_is_to_the_legs_held(
    ledger: LedgerView,
    begin: Seq<OpenPosition>,
    multiplier: u32,
    i: int,
)
    requires
        0 <= i < begin.len(),
    ensures
        ({
            let after = legs_taken_down(ledger, begin, multiplier);
            let m = after.attribution_marks[i];
            &&& after.attribution_marks.len() == begin.len()
            &&& m.position_id == begin[i].position_id
            &&& m.side == begin[i].side
            &&& m.quantity == begin[i].quantity
            &&& m.contract_multiplier == multiplier
            &&& after.cash == ledger.cash
            &&& after.marks == ledger.marks
            &&& after.prior_equity == ledger.prior_equity
        }),
{
}

/// A strategy is shown all its resting orders and nothing else, each once, the
/// lowest id first.
pub proof fn law_resting_orders_are_shown_by_id(
    orders: Seq<PendingOrder>,
    pending: Map<u64, PendingEntry>,
    keys: Seq<u64>,
    i: int,
    j: int,
    key: u64,
)
    requires
        shows_pending(orders, pending, keys),
        0 <= i < j < orders.len(),
    ensures
        keys[i] < keys[j],
        pending.dom().contains(keys[i]) && orders[i] == pending[keys[i]].pending,
        pending.dom().contains(key) ==> exists|k: int|
            0 <= k < orders.len() && #[trigger] orders[k] == pending[key].pending,
{
    if pending.dom().contains(key) {
        assert(keys.contains(key));
        let k = choose|k: int| 0 <= k < keys.len() && keys[k] == key;
        assert(orders[k] == pending[keys[k]].pending);
    }
}

/// A step is attributed to the legs held when it began, one sample each and in
/// their order, and its figures are those of its own fills: the fees that they
/// paid, the spread that they captured, and what equity gained over the step.
pub proof fn law_step_is_attributed_to_the_legs_held(p: ProgressView, t: StepTrace, i: int)
    requires
        stepped(p, t) is Some,
        p.books.inventory.len() <= usize::MAX,
        fits_i64(p.books.ledger.cash),
    ensures
        ({
            let q = stepped(p, t)->0;
            let s = q.attribution.steps.last();
            let begin = p.books.inventory;
            let samples = q.attribution.legs;
            let fills = t.inputs.fills;
            &&& s.step == t.inputs.snapshot.step.0
            &&& s.ts_ns == t.inputs.snapshot.ts.0
            &&& s.underlying_cents == t.inputs.snapshot.underlying_price.0
            &&& s.leg_count == begin.len()
            &&& samples.len() == p.attribution.legs.len() + begin.len()
            &&& 0 <= i < begin.len() ==> {
                let sample = samples[p.attribution.legs.len() + i];
                &&& sample.side == begin[i].side
                &&& sample.quantity == begin[i].quantity.n()
                &&& sample.contract_multiplier == t.inputs.snapshot.spec.contract_multiplier
            }
            &&& s.fees_cents == sum_cents(
                p.books.ledger.fee_entries + fills.map_values(|f: Fill| f.fees),
            )
            &&& s.spread_capture_cents == -sum_cents(
                p.books.ledger.slippages + fills.map_values(|f: Fill| f.slippage),
            )
            &&& s.step_pnl_cents == q.curve.last().equity_cents - p.books.ledger.prior_equity
        }),
{
    let b = with_minted(p.books, t.inputs.cmds);
    law_each_fill_counts_once(b, t.inputs, t.carry);
    let applied = step_applied(b, t.inputs, t.carry)->Ok_0;
    let ledger = legs_taken_down(
        applied.ledger,
        p.books.inventory,
        t.inputs.snapshot.spec.contract_multiplier,
    );
    let settled = crate::engine::ledger::after_settle(
        ledger,
        applied.inventory,
        t.inputs.snapshot,
    );
    let fills = t.inputs.fills;
    assert(fees_of(fills) =~= fills.map_values(|f: Fill| f.fees));
    assert(slippages_of(fills) =~= fills.map_values(|f: Fill| f.slippage));
    let fees = ledger.fee_entries;
    assert(fits_i64(sum_cents(fees.take(fees.len() as int))));
    assert(fees.take(fees.len() as int) =~= fees);
    if 0 <= i < p.books.inventory.len() {
        p.books.inventory[i].quantity.lemma_of();
        law_samples_follow_their_legs(
            p.attribution,
            t.inputs.snapshot,
            settled.attribution_marks,
            Cents(settled.spread_capture as i64),
            Cents(settled.fees as i64),
            Cents(settled.step_pnl as i64),
            i,
        );
    }
}

/// A run hands out its books as they stand at its end: every close in the order
/// in which it was realised, every fill and every row in the order in which it
/// came, and the legs that were left open.
pub proof fn law_run_hands_out_its_books(
    run: BacktestRun,
    initial_cents: i64,
    name: Seq<char>,
    meta: TapeMeta,
    opening: StepTrace,
    steps: Seq<StepTrace>,
    p: ProgressView,
)
    requires
        comes_of(run, initial_cents, name, meta, opening, steps),
        ({
            let p0 = fresh(initial_cents as int);
            &&& started(p0.books, opening) matches Some(books)
            &&& replayed(ProgressView { books, ..p0 }, steps) == Some(p)
        }),
    ensures
        run.trade_log@ == p.books.log.closed,
        run.open_at_end@ == p.books.inventory,
        run.fills@ == p.books.bundle.fills,
        run.positions@ == p.books.bundle.positions,
        run.equity_curve@ == p.curve,
        run.attribution_substrate.steps@ == p.attribution.steps,
        run.attribution_substrate.legs@ == p.attribution.legs,
{
}

} // verus!
