//! What a run does under the strategies of this crate.

use crate::config::BacktestConfig;
use crate::data::DataFeed;
use crate::domain::{ChainSnapshot, OpenPosition, OrderCommand, PendingOrder};
use crate::engine::adapter::{entries_of, OptStratAdapter};
use crate::engine::backtest::{
    driven, fresh, is_close, ran, replayed, shows_pending, started, step_taken, BacktestRun,
    ProgressView, RunCalls, StepTrace,
};
use crate::engine::book_laws::books_orderly;
use crate::engine::books::BooksView;
use crate::engine::closing::{
    closed_out, ends_flat, exits_by, exits_of, ids_differ, law_every_leg_is_closed_once,
    law_exits_close_open_legs, resting_closes, scheduled,
};
use crate::engine::exit::ExitReason;
use crate::engine::exit_policy::{is_reason_of, ExitPolicy};
use crate::engine::leg_set::{set_entries, LegSetStrategy};
use crate::engine::named::PositionableStrategy;
use crate::engine::run_laws::{lemma_opening, lemma_order_kept, lemma_prefix};
use crate::engine::seams::{end_call, exit_call, start_driven, step_driven, Seams, StepCalls};
use crate::engine::strategy::{Decision, Strategy};
use crate::error::BacktestError;
use crate::execution::ExecutionModel;
use vstd::prelude::*;

verus! {

/// Whether every command closes a leg.
pub open spec fn all_close(cmds: Seq<OrderCommand>) -> bool {
    forall|i: int| 0 <= i < cmds.len() ==> is_close(#[trigger] cmds[i])
}

/// Closing out what is left only adds closes.
proof fn lemma_closing_out_closes(
    open: Seq<OpenPosition>,
    pending: Seq<PendingOrder>,
    snapshot: ChainSnapshot,
    cmds: Seq<OrderCommand>,
)
    requires
        all_close(cmds),
    ensures
        all_close(closed_out(open, pending, snapshot, cmds).0),
    decreases open.len(),
{
    if open.len() > 0 {
        lemma_closing_out_closes(open.drop_last(), pending, snapshot, cmds);
    }
}

/// What a policy closes are closes.
proof fn lemma_exits_close<S>(d: Decision<S>, policy: ExitPolicy)
    requires
        exits_by(policy, d),
        all_close(d.out),
    ensures
        all_close(d.out_after),
{
    let s = d.seen;
    let cmds = exits_of(policy, s.snapshot, s.marks, s.step, s.open).0;
    assert forall|i: int| 0 <= i < d.out_after.len() implies is_close(
        #[trigger] d.out_after[i],
    ) by {
        if i < d.out.len() {
            assert(d.out_after[i] == d.out[i]);
        } else {
            law_exits_close_open_legs(
                policy,
                s.snapshot,
                s.marks,
                s.step,
                s.open,
                i - d.out.len(),
            );
            assert(d.out_after[i] == cmds[i - d.out.len()]);
        }
    }
}

/// A strategy whose legs were opened only closes, and stays opened.
proof fn lemma_opened_adapter_closes<X: ExecutionModel, P: PositionableStrategy>(
    from: Seams<X, OptStratAdapter<P>>,
    to: Seams<X, OptStratAdapter<P>>,
    p: ProgressView,
    t: StepTrace,
    calls: StepCalls<OptStratAdapter<P>>,
)
    requires
        step_driven(from, to, p, t, calls),
        from.strategy.has_opened(),
    ensures
        to.strategy.has_opened(),
        all_close(t.inputs.cmds),
{
    reveal(step_driven);
    let exits = exit_call(from, p.books, t.inputs.snapshot, calls, None);
    assert(all_close(exits.out));
    lemma_exits_close(exits, from.strategy.policy());
    assert(calls.exited == from.strategy);
    assert(calls.act_cmds == calls.exit_cmds);
    lemma_closing_out_closes(
        p.books.inventory,
        calls.pending,
        t.inputs.snapshot,
        calls.act_cmds,
    );
}

/// A leg set only closes once the run has begun.
proof fn lemma_leg_set_closes<X: ExecutionModel>(
    from: Seams<X, LegSetStrategy>,
    to: Seams<X, LegSetStrategy>,
    p: ProgressView,
    t: StepTrace,
    calls: StepCalls<LegSetStrategy>,
)
    requires
        step_driven(from, to, p, t, calls),
    ensures
        all_close(t.inputs.cmds),
{
    reveal(step_driven);
    let exits = exit_call(from, p.books, t.inputs.snapshot, calls, None);
    assert(all_close(exits.out));
    lemma_exits_close(exits, from.strategy.policy());
    lemma_closing_out_closes(
        p.books.inventory,
        calls.pending,
        t.inputs.snapshot,
        calls.act_cmds,
    );
}

/// A run opens a named strategy's legs once: its opening commands are the
/// legs' opening orders at the first snapshot, one per leg and in their order,
/// and where there is a leg every command of a later step closes one.
pub proof fn law_run_opens_every_leg_once<F: DataFeed, X: ExecutionModel, P: PositionableStrategy>(
    run: BacktestRun,
    config: BacktestConfig,
    feed: F,
    execution: X,
    strategy: OptStratAdapter<P>,
    name: Seq<char>,
    opening: StepTrace,
    steps: Seq<StepTrace>,
    c: RunCalls<F, X, OptStratAdapter<P>>,
)
    requires
        ran(run, config, feed, execution, strategy, name, opening, steps, c),
        !strategy.has_opened(),
    ensures
        strategy.strategy().legs() matches Some(legs) && {
            &&& entries_of(opening.inputs.snapshot, legs).1 is None
            &&& opening.inputs.cmds == entries_of(opening.inputs.snapshot, legs).0
            &&& legs.len() > 0 ==> forall|i: int|
                0 <= i < steps.len() ==> all_close((#[trigger] steps[i]).inputs.cmds)
        },
{
    reveal(driven);
    reveal(start_driven);
    let legs = strategy.strategy().legs()->0;
    assert(Seq::<OrderCommand>::empty() + entries_of(opening.inputs.snapshot, legs).0
        =~= entries_of(opening.inputs.snapshot, legs).0);
    if legs.len() > 0 {
        assert forall|i: int| 0 <= i < steps.len() implies all_close(
            (#[trigger] steps[i]).inputs.cmds,
        ) by {
            lemma_adapter_stays_opened(
                run,
                config,
                feed,
                execution,
                strategy,
                name,
                opening,
                steps,
                c,
                i,
            );
        }
    }
}

/// A strategy that was opened at the start is opened at every step, and only
/// closes.
proof fn lemma_adapter_stays_opened<F: DataFeed, X: ExecutionModel, P: PositionableStrategy>(
    run: BacktestRun,
    config: BacktestConfig,
    feed: F,
    execution: X,
    strategy: OptStratAdapter<P>,
    name: Seq<char>,
    opening: StepTrace,
    steps: Seq<StepTrace>,
    c: RunCalls<F, X, OptStratAdapter<P>>,
    i: int,
)
    requires
        ran(run, config, feed, execution, strategy, name, opening, steps, c),
        c.seams[1].strategy.has_opened(),
        0 <= i < steps.len(),
    ensures
        c.seams[i + 2].strategy.has_opened(),
        all_close(steps[i].inputs.cmds),
    decreases i,
{
    if i > 0 {
        lemma_adapter_stays_opened(
            run,
            config,
            feed,
            execution,
            strategy,
            name,
            opening,
            steps,
            c,
            i - 1,
        );
    }
    let mid = lemma_driven_step(run, config, feed, execution, strategy, name, opening, steps, c, i);
    lemma_opened_adapter_closes(c.seams[i + 1], c.seams[i + 2], mid, steps[i], c.calls[i]);
}

/// Where a run stood when a step was taken.
proof fn lemma_driven_step<F: DataFeed, X: ExecutionModel, S: Strategy>(
    run: BacktestRun,
    config: BacktestConfig,
    feed: F,
    execution: X,
    strategy: S,
    name: Seq<char>,
    opening: StepTrace,
    steps: Seq<StepTrace>,
    c: RunCalls<F, X, S>,
    i: int,
) -> (mid: ProgressView)
    requires
        ran(run, config, feed, execution, strategy, name, opening, steps, c),
        0 <= i < steps.len(),
    ensures
        step_driven(c.seams[i + 1], c.seams[i + 2], mid, steps[i], c.calls[i]),
        mid.books == books_before(config, opening, steps, i),
{
    reveal(driven);
    let p0 = fresh((config.initial_capital as i64) as int);
    let books = started(p0.books, opening)->0;
    let p1 = ProgressView { books, ..p0 };
    assert(step_taken(c, p1, steps, i));
    replayed(p1, steps.take(i))->0
}

/// A run opens a leg set once and as a whole: its opening commands are the
/// legs' opening orders at the first snapshot, in canonical order, and every
/// command of a later step closes a leg.
pub proof fn law_run_opens_a_leg_set_once<F: DataFeed, X: ExecutionModel>(
    run: BacktestRun,
    config: BacktestConfig,
    feed: F,
    execution: X,
    strategy: LegSetStrategy,
    name: Seq<char>,
    opening: StepTrace,
    steps: Seq<StepTrace>,
    c: RunCalls<F, X, LegSetStrategy>,
)
    requires
        ran(run, config, feed, execution, strategy, name, opening, steps, c),
        !strategy.has_opened(),
    ensures
        opening.inputs.snapshot.underlying@ == strategy.on(),
        set_entries(opening.inputs.snapshot, strategy.held()).1 is None,
        opening.inputs.cmds == set_entries(opening.inputs.snapshot, strategy.held()).0,
        forall|i: int| 0 <= i < steps.len() ==> all_close((#[trigger] steps[i]).inputs.cmds),
{
    reveal(driven);
    reveal(start_driven);
    let entries = set_entries(opening.inputs.snapshot, strategy.held()).0;
    assert(Seq::<OrderCommand>::empty() + entries =~= entries);
    assert forall|i: int| 0 <= i < steps.len() implies all_close(
        (#[trigger] steps[i]).inputs.cmds,
    ) by {
        let mid = lemma_driven_step(
            run,
            config,
            feed,
            execution,
            strategy,
            name,
            opening,
            steps,
            c,
            i,
        );
        lemma_leg_set_closes(c.seams[i + 1], c.seams[i + 2], mid, steps[i], c.calls[i]);
    }
}

/// Whether a step closes first what a policy says for the books before it, and
/// gives the policy's reason.
pub open spec fn exits_first(b: BooksView, t: StepTrace, policy: ExitPolicy) -> bool {
    let snapshot = t.inputs.snapshot;
    let (cmds, error) = exits_of(policy, snapshot, b.ledger.marks, snapshot.step, b.inventory);
    &&& error is None
    &&& t.inputs.reasons.exits_end == cmds.len()
    &&& cmds.len() <= t.inputs.cmds.len()
    &&& t.inputs.cmds.take(cmds.len() as int) == cmds
    &&& cmds.len() > 0 ==> is_reason_of(t.inputs.reasons.policy_reason, policy)
}

/// Closing out what is left leaves the commands before it as they are.
proof fn lemma_closing_out_appends(
    open: Seq<OpenPosition>,
    pending: Seq<PendingOrder>,
    snapshot: ChainSnapshot,
    cmds: Seq<OrderCommand>,
)
    ensures
        cmds.len() <= closed_out(open, pending, snapshot, cmds).0.len(),
        closed_out(open, pending, snapshot, cmds).0.take(cmds.len() as int) == cmds,
    decreases open.len(),
{
    let after = closed_out(open, pending, snapshot, cmds).0;
    if open.len() == 0 {
        assert(after.take(cmds.len() as int) =~= cmds);
    } else {
        lemma_closing_out_appends(open.drop_last(), pending, snapshot, cmds);
        let before = closed_out(open.drop_last(), pending, snapshot, cmds).0;
        assert(after.take(cmds.len() as int) =~= before.take(cmds.len() as int));
    }
}

/// A step of a strategy that exits by a policy, then appends, and closes out at
/// the end, closes first what the policy says.
proof fn lemma_exits_come_first<X: ExecutionModel, S: Strategy>(
    from: Seams<X, S>,
    to: Seams<X, S>,
    p: ProgressView,
    t: StepTrace,
    calls: StepCalls<S>,
    policy: ExitPolicy,
)
    requires
        step_driven(from, to, p, t, calls),
        exits_by(policy, exit_call(from, p.books, t.inputs.snapshot, calls, None)),
        calls.exit_cmds.len() <= calls.act_cmds.len(),
        calls.act_cmds.take(calls.exit_cmds.len() as int) == calls.exit_cmds,
        t.is_last ==> t.inputs.cmds == closed_out(
            p.books.inventory,
            calls.pending,
            t.inputs.snapshot,
            calls.act_cmds,
        ).0,
        calls.exit_cmds.len() > 0 ==> is_reason_of(t.inputs.reasons.policy_reason, policy),
    ensures
        exits_first(p.books, t, policy),
{
    reveal(step_driven);
    let snapshot = t.inputs.snapshot;
    let cmds = exits_of(
        policy,
        snapshot,
        p.books.ledger.marks,
        snapshot.step,
        p.books.inventory,
    ).0;
    let n = cmds.len() as int;
    assert(Seq::<OrderCommand>::empty() + cmds =~= cmds);
    lemma_closing_out_appends(p.books.inventory, calls.pending, snapshot, calls.act_cmds);
    assert(t.inputs.cmds.take(n) =~= t.inputs.cmds.take(calls.act_cmds.len() as int).take(n));
    assert(t.inputs.cmds.take(calls.act_cmds.len() as int) =~= calls.act_cmds);
}

/// A named strategy keeps its policy, and exits by it first.
proof fn lemma_adapter_exits<F: DataFeed, X: ExecutionModel, P: PositionableStrategy>(
    run: BacktestRun,
    config: BacktestConfig,
    feed: F,
    execution: X,
    strategy: OptStratAdapter<P>,
    name: Seq<char>,
    opening: StepTrace,
    steps: Seq<StepTrace>,
    c: RunCalls<F, X, OptStratAdapter<P>>,
    i: int,
)
    requires
        ran(run, config, feed, execution, strategy, name, opening, steps, c),
        0 <= i < steps.len(),
    ensures
        c.seams[i + 2].strategy.policy() == strategy.policy(),
        exits_first(books_before(config, opening, steps, i), steps[i], strategy.policy()),
    decreases i,
{
    if i > 0 {
        lemma_adapter_exits(
            run,
            config,
            feed,
            execution,
            strategy,
            name,
            opening,
            steps,
            c,
            i - 1,
        );
    } else {
        reveal(driven);
        reveal(start_driven);
    }
    let (from, to, calls) = (c.seams[i + 1], c.seams[i + 2], c.calls[i]);
    let t = steps[i];
    let mid = lemma_driven_step(run, config, feed, execution, strategy, name, opening, steps, c, i);
    assert(from.strategy.policy() == strategy.policy());
    reveal(step_driven);
    let n = calls.exit_cmds.len() as int;
    assert(calls.exit_cmds.len() <= calls.act_cmds.len());
    assert(calls.act_cmds.take(n) =~= calls.exit_cmds);
    lemma_exits_come_first(from, to, mid, t, calls, strategy.policy());
}

/// The books of a run before its step at `i`.
pub open spec fn books_before(
    config: BacktestConfig,
    opening: StepTrace,
    steps: Seq<StepTrace>,
    i: int,
) -> BooksView {
    let p0 = fresh((config.initial_capital as i64) as int);
    let books = started(p0.books, opening)->0;
    replayed(ProgressView { books, ..p0 }, steps.take(i))->0.books
}

/// A run under a named strategy evaluates its exit policy at every step: the
/// first commands of each step are the closes that the policy asks for on the
/// books as they stood, no more and no fewer, and they are recorded under the
/// policy's reason.
pub proof fn law_run_exits_by_its_policy<F: DataFeed, X: ExecutionModel, P: PositionableStrategy>(
    run: BacktestRun,
    config: BacktestConfig,
    feed: F,
    execution: X,
    strategy: OptStratAdapter<P>,
    name: Seq<char>,
    opening: StepTrace,
    steps: Seq<StepTrace>,
    c: RunCalls<F, X, OptStratAdapter<P>>,
)
    requires
        ran(run, config, feed, execution, strategy, name, opening, steps, c),
    ensures
        forall|i: int|
            0 <= i < steps.len() ==> exits_first(
                books_before(config, opening, steps, i),
                #[trigger] steps[i],
                strategy.policy(),
            ),
{
    assert forall|i: int| 0 <= i < steps.len() implies exits_first(
        books_before(config, opening, steps, i),
        #[trigger] steps[i],
        strategy.policy(),
    ) by {
        lemma_adapter_exits(
            run,
            config,
            feed,
            execution,
            strategy,
            name,
            opening,
            steps,
            c,
            i,
        );
    }
}

/// A leg set keeps its policy, and exits by it first.
proof fn lemma_leg_set_exits<F: DataFeed, X: ExecutionModel>(
    run: BacktestRun,
    config: BacktestConfig,
    feed: F,
    execution: X,
    strategy: LegSetStrategy,
    name: Seq<char>,
    opening: StepTrace,
    steps: Seq<StepTrace>,
    c: RunCalls<F, X, LegSetStrategy>,
    i: int,
)
    requires
        ran(run, config, feed, execution, strategy, name, opening, steps, c),
        0 <= i < steps.len(),
    ensures
        c.seams[i + 2].strategy.policy() == strategy.policy(),
        exits_first(books_before(config, opening, steps, i), steps[i], strategy.policy()),
    decreases i,
{
    if i > 0 {
        lemma_leg_set_exits(
            run,
            config,
            feed,
            execution,
            strategy,
            name,
            opening,
            steps,
            c,
            i - 1,
        );
    } else {
        reveal(driven);
        reveal(start_driven);
    }
    let (from, to, calls) = (c.seams[i + 1], c.seams[i + 2], c.calls[i]);
    let mid = lemma_driven_step(run, config, feed, execution, strategy, name, opening, steps, c, i);
    assert(from.strategy.policy() == strategy.policy());
    reveal(step_driven);
    let n = calls.exit_cmds.len() as int;
    assert(calls.act_cmds.take(n) =~= calls.exit_cmds);
    lemma_exits_come_first(from, to, mid, steps[i], calls, strategy.policy());
}

/// A run under a leg set evaluates its exit policy at every step, as one under
/// a named strategy does.
pub proof fn law_run_exits_a_leg_set_by_its_policy<F: DataFeed, X: ExecutionModel>(
    run: BacktestRun,
    config: BacktestConfig,
    feed: F,
    execution: X,
    strategy: LegSetStrategy,
    name: Seq<char>,
    opening: StepTrace,
    steps: Seq<StepTrace>,
    c: RunCalls<F, X, LegSetStrategy>,
)
    requires
        ran(run, config, feed, execution, strategy, name, opening, steps, c),
    ensures
        forall|i: int|
            0 <= i < steps.len() ==> exits_first(
                books_before(config, opening, steps, i),
                #[trigger] steps[i],
                strategy.policy(),
            ),
{
    assert forall|i: int| 0 <= i < steps.len() implies exits_first(
        books_before(config, opening, steps, i),
        #[trigger] steps[i],
        strategy.policy(),
    ) by {
        lemma_leg_set_exits(
            run,
            config,
            feed,
            execution,
            strategy,
            name,
            opening,
            steps,
            c,
            i,
        );
    }
}

/// Whether a step asks for the whole of a leg to be closed: what its commands
/// close of it and what rests to close it come to its size.
pub open spec fn covers_leg(b: BooksView, t: StepTrace, leg: OpenPosition) -> bool {
    exists|pending: Seq<PendingOrder>, keys: Seq<u64>|
        {
            &&& #[trigger] shows_pending(pending, b.pending, keys)
            &&& scheduled(t.inputs.cmds, leg.position_id) + resting_closes(
                pending,
                leg.position_id,
            ) >= leg.quantity.n()
        }
}

/// A strategy that ends flat covers every leg that it was shown.
proof fn lemma_flat_end_covers<X: ExecutionModel, S: Strategy>(
    from: Seams<X, S>,
    to: Seams<X, S>,
    p: ProgressView,
    t: StepTrace,
    calls: StepCalls<S>,
    k: int,
)
    requires
        step_driven(from, to, p, t, calls),
        books_orderly(p.books),
        ends_flat(
            end_call(
                p.books,
                t.inputs.snapshot,
                calls,
                to.strategy,
                to.rng,
                t.inputs.cmds,
                None,
            ),
        ),
        0 <= k < p.books.inventory.len(),
    ensures
        covers_leg(p.books, t, p.books.inventory[k]),
{
    reveal(step_driven);
    let open = p.books.inventory;
    assert(ids_differ(open)) by {
        assert forall|i: int, j: int|
            #![trigger open[i], open[j]]
            0 <= i < j < open.len() implies open[i].position_id != open[j].position_id by {
            assert(open[i].position_id.0 < open[j].position_id.0);
        }
    }
    law_every_leg_is_closed_once(open, calls.pending, t.inputs.snapshot, calls.act_cmds, k);
    assert(shows_pending(calls.pending, p.books.pending, calls.keys));
}

/// The books of a run are in order before each of its steps.
proof fn lemma_books_before_are_orderly(
    config: BacktestConfig,
    opening: StepTrace,
    steps: Seq<StepTrace>,
    i: int,
)
    requires
        ({
            let p0 = fresh((config.initial_capital as i64) as int);
            &&& started(p0.books, opening) matches Some(books)
            &&& replayed(ProgressView { books, ..p0 }, steps) is Some
        }),
        0 <= i <= steps.len(),
    ensures
        books_orderly(books_before(config, opening, steps, i)),
{
    let p0 = fresh((config.initial_capital as i64) as int);
    let books = started(p0.books, opening)->0;
    let p1 = ProgressView { books, ..p0 };
    lemma_opening(config.initial_capital as i64, opening);
    lemma_prefix(p1, steps, i);
    lemma_order_kept(p1, steps.take(i));
}

/// A run under a named strategy closes at the end of the tape what is still
/// open: its final step asks for the whole of every leg that was open when the
/// step began.
pub proof fn law_run_closes_what_is_left<F: DataFeed, X: ExecutionModel, P: PositionableStrategy>(
    run: BacktestRun,
    config: BacktestConfig,
    feed: F,
    execution: X,
    strategy: OptStratAdapter<P>,
    name: Seq<char>,
    opening: StepTrace,
    steps: Seq<StepTrace>,
    c: RunCalls<F, X, OptStratAdapter<P>>,
    k: int,
)
    requires
        ran(run, config, feed, execution, strategy, name, opening, steps, c),
        0 <= k < books_before(config, opening, steps, steps.len() - 1).inventory.len(),
    ensures
        ({
            let b = books_before(config, opening, steps, steps.len() - 1);
            covers_leg(b, steps.last(), b.inventory[k])
        }),
{
    let i = steps.len() - 1;
    let mid = lemma_driven_step(run, config, feed, execution, strategy, name, opening, steps, c, i);
    lemma_books_before_are_orderly(config, opening, steps, i);
    assert(steps[i].is_last);
    assert(ends_flat(
        end_call(
            mid.books,
            steps[i].inputs.snapshot,
            c.calls[i],
            c.seams[i + 2].strategy,
            c.seams[i + 2].rng,
            steps[i].inputs.cmds,
            None,
        ),
    )) by {
        reveal(step_driven);
    }
    lemma_flat_end_covers(c.seams[i + 1], c.seams[i + 2], mid, steps[i], c.calls[i], k);
}

/// A run under a leg set closes at the end of the tape what is still open, as
/// one under a named strategy does.
pub proof fn law_run_closes_what_is_left_of_a_leg_set<F: DataFeed, X: ExecutionModel>(
    run: BacktestRun,
    config: BacktestConfig,
    feed: F,
    execution: X,
    strategy: LegSetStrategy,
    name: Seq<char>,
    opening: StepTrace,
    steps: Seq<StepTrace>,
    c: RunCalls<F, X, LegSetStrategy>,
    k: int,
)
    requires
        ran(run, config, feed, execution, strategy, name, opening, steps, c),
        0 <= k < books_before(config, opening, steps, steps.len() - 1).inventory.len(),
    ensures
        ({
            let b = books_before(config, opening, steps, steps.len() - 1);
            covers_leg(b, steps.last(), b.inventory[k])
        }),
{
    let i = steps.len() - 1;
    let mid = lemma_driven_step(run, config, feed, execution, strategy, name, opening, steps, c, i);
    lemma_books_before_are_orderly(config, opening, steps, i);
    assert(steps[i].is_last);
    assert(ends_flat(
        end_call(
            mid.books,
            steps[i].inputs.snapshot,
            c.calls[i],
            c.seams[i + 2].strategy,
            c.seams[i + 2].rng,
            steps[i].inputs.cmds,
            None,
        ),
    )) by {
        reveal(step_driven);
    }
    lemma_flat_end_covers(c.seams[i + 1], c.seams[i + 2], mid, steps[i], c.calls[i], k);
}

/// The strategies of this crate give for their exits the reason of their
/// policy: a target for a profit, a stop for a loss, an expiration for days that
/// ran out.
pub proof fn law_strategies_give_their_policys_reason<P: PositionableStrategy>(
    named: OptStratAdapter<P>,
    set: LegSetStrategy,
    reason: ExitReason,
)
    ensures
        named.policy() is ProfitPercent && named.may_give(reason) ==> reason is TargetReached,
        named.policy() is LossPercent && named.may_give(reason) ==> reason is StopLoss,
        named.policy() is Expiration && named.may_give(reason) ==> reason is Expiration,
        set.policy() is ProfitPercent && set.may_give(reason) ==> reason is TargetReached,
        set.policy() is LossPercent && set.may_give(reason) ==> reason is StopLoss,
        set.policy() is Expiration && set.may_give(reason) ==> reason is Expiration,
{
}

/// The strategies of this crate see what the books say: the snapshot, the open
/// legs, the resting orders and the last known marks, and they draw no random
/// numbers when they close.
pub proof fn law_strategies_are_shown_the_books<X, P: PositionableStrategy>(
    from: Seams<X, OptStratAdapter<P>>,
    b: BooksView,
    snapshot: ChainSnapshot,
    calls: StepCalls<OptStratAdapter<P>>,
    error: Option<BacktestError>,
)
    ensures
        ({
            let d = exit_call(from, b, snapshot, calls, error);
            &&& d.seen.snapshot == snapshot
            &&& d.seen.open == b.inventory
            &&& d.seen.pending == calls.pending
            &&& d.seen.marks == b.ledger.marks
            &&& d.seen.step == snapshot.step
            &&& d.out.len() == 0
            &&& d.before == from.strategy
            &&& d.rng_after == from.rng
        }),
{
}

/// The closes of a step are told apart by who asked for them: the policy's come
/// first and have its reason, the strategy's own are manual, and those of the
/// end of the tape come last and say so.
pub proof fn law_steps_tell_their_closes_apart<X: ExecutionModel, S: Strategy>(
    from: Seams<X, S>,
    to: Seams<X, S>,
    p: ProgressView,
    t: StepTrace,
    calls: StepCalls<S>,
    i: int,
)
    requires
        step_driven(from, to, p, t, calls),
        calls.exit_cmds.len() <= calls.act_cmds.len(),
    ensures
        0 <= i < calls.exit_cmds.len() ==> t.inputs.reasons.reason_at(i)
            == t.inputs.reasons.policy_reason && to.strategy.may_give(
            t.inputs.reasons.policy_reason,
        ),
        calls.exit_cmds.len() <= i < calls.act_cmds.len() ==> t.inputs.reasons.reason_at(
            i,
        ) is ManualClose,
        i >= calls.act_cmds.len() ==> t.inputs.reasons.reason_at(i)
            == t.inputs.reasons.end_reason,
        !t.is_last ==> t.inputs.cmds == calls.act_cmds,
{
    reveal(step_driven);
}

} // verus!
