//! The replay loop adds nothing of its own: a run is what its seed, its tape
//! and its seams make it.

use crate::config::BacktestConfig;
use crate::data::DataFeed;
use crate::domain::{ChainSnapshot, PendingOrder};
use crate::engine::alike_laws::{
    books_alike, entry_alike, inputs_alike, law_openings_lead_on_alike, law_steps_lead_on_alike,
    pending_alike, progress_alike, reason_alike, rows_alike, step_alike, trades_alike,
};
use crate::engine::backtest::{
    driven, fresh, in_phase, ran, replayed, shows_pending, started, step_taken, stepped, walks_keys,
    BacktestRun, ProgressView, RunCalls, StepTrace,
};
use crate::engine::books::{BooksView, PendingEntry};
use crate::engine::exit::ExitReason;
use crate::engine::run_laws::lemma_prefix;
use crate::engine::seams::{
    act_call, end_call, exit_call, filled_by, shown, start_call, start_driven, step_driven, Seams,
    StepCalls,
};
use crate::engine::strategy::{Decision, Strategy};
use crate::execution::{CarryGroup, ExecutionModel, FillGroup, Filling};
use vstd::prelude::*;

verus! {

/// Whether two execution models that were given the same did the same.
pub open spec fn fill_alike<X>(
    before1: X,
    after1: X,
    t1: StepTrace,
    before2: X,
    after2: X,
    t2: StepTrace,
) -> bool {
    before1 == before2 && t1.inputs.cmds == t2.inputs.cmds && t1.inputs.submit_ids
        == t2.inputs.submit_ids && t1.inputs.snapshot == t2.inputs.snapshot ==> {
        &&& after1 == after2
        &&& t1.inputs.fills == t2.inputs.fills
        &&& t1.inputs.groups == t2.inputs.groups
        &&& t1.carry == t2.carry
    }
}

/// Whether two strategies that were shown the same opened with the same.
pub open spec fn open_alike<X, S>(
    from1: Seams<X, S>,
    to1: Seams<X, S>,
    t1: StepTrace,
    from2: Seams<X, S>,
    to2: Seams<X, S>,
    t2: StepTrace,
) -> bool {
    from1.strategy == from2.strategy && from1.rng == from2.rng && t1.inputs.snapshot
        == t2.inputs.snapshot ==> {
        &&& to1.strategy == to2.strategy
        &&& to1.rng == to2.rng
        &&& t1.inputs.cmds == t2.inputs.cmds
    }
}

/// One step of a run, and the calls that led to it.
pub struct Taken<X, S> {
    /// The seams before the step.
    pub from: Seams<X, S>,
    /// The seams after the step.
    pub to: Seams<X, S>,
    /// The books before the step.
    pub books: BooksView,
    /// The step.
    pub trace: StepTrace,
    /// What passed between the strategy's calls.
    pub calls: StepCalls<S>,
}

/// Whether two strategies were shown the same in a step.
pub open spec fn shown_alike<X, S>(a: Taken<X, S>, b: Taken<X, S>) -> bool {
    shown(a.books, a.calls.pending, a.trace.inputs.snapshot) == shown(
        b.books,
        b.calls.pending,
        b.trace.inputs.snapshot,
    )
}

/// Whether the seams of two steps answered each call alike that was alike: of
/// `exits`, of `on_snapshot`, of `on_end`, of `exit_reason` and of the
/// execution model.
pub open spec fn answer_alike<X, S>(a: Taken<X, S>, b: Taken<X, S>) -> bool {
    &&& shown_alike(a, b) && a.from.strategy == b.from.strategy && a.from.rng == b.from.rng
        ==> a.calls.exited == b.calls.exited && a.calls.exit_cmds == b.calls.exit_cmds
    &&& shown_alike(a, b) && a.calls.exited == b.calls.exited && a.from.rng == b.from.rng
        && a.calls.exit_cmds == b.calls.exit_cmds ==> a.calls.acted == b.calls.acted
        && a.calls.rng == b.calls.rng && a.calls.act_cmds == b.calls.act_cmds
    &&& shown_alike(a, b) && a.calls.acted == b.calls.acted && a.calls.rng == b.calls.rng
        && a.calls.act_cmds == b.calls.act_cmds && a.trace.is_last && b.trace.is_last
        ==> a.to.strategy == b.to.strategy && a.to.rng == b.to.rng && a.trace.inputs.cmds
        == b.trace.inputs.cmds
    &&& a.to.strategy == b.to.strategy && a.calls.exit_cmds.len() > 0 && b.calls.exit_cmds.len()
        > 0 ==> reason_alike(
        a.trace.inputs.reasons.policy_reason,
        b.trace.inputs.reasons.policy_reason,
    )
    &&& fill_alike(
        a.from.execution,
        a.to.execution,
        a.trace,
        b.from.execution,
        b.to.execution,
        b.trace,
    )
}

/// Where a run stood before its step at `i`.
pub open spec fn stood_at(
    initial_cents: int,
    opening: StepTrace,
    steps: Seq<StepTrace>,
    i: int,
) -> ProgressView {
    let p0 = fresh(initial_cents);
    let books = started(p0.books, opening)->0;
    replayed(ProgressView { books, ..p0 }, steps.take(i))->0
}

/// The step at `i` of a run, and the calls that led to it.
pub open spec fn taken<F, X, S>(
    initial_cents: int,
    opening: StepTrace,
    steps: Seq<StepTrace>,
    c: RunCalls<F, X, S>,
    i: int,
) -> Taken<X, S> {
    Taken {
        from: c.seams[i + 1],
        to: c.seams[i + 2],
        books: stood_at(initial_cents, opening, steps, i).books,
        trace: steps[i],
        calls: c.calls[i],
    }
}

/// Whether two feeds that were the same before a step yielded the same.
pub open spec fn yield_alike<F>(
    feeds1: Seq<F>,
    steps1: Seq<StepTrace>,
    feeds2: Seq<F>,
    steps2: Seq<StepTrace>,
    i: int,
) -> bool {
    feeds1[i] == feeds2[i] ==> {
        &&& steps1[i].inputs.snapshot == steps2[i].inputs.snapshot
        &&& feeds1[i + 1] == feeds2[i + 1]
    }
}

/// Whether the seams of two runs answered alike: calls that were given the
/// same, at the same point of both runs, came to the same. A reason in words is
/// compared by its text.
pub open spec fn runs_alike<F, X, S>(
    initial_cents: int,
    opening1: StepTrace,
    steps1: Seq<StepTrace>,
    c1: RunCalls<F, X, S>,
    opening2: StepTrace,
    steps2: Seq<StepTrace>,
    c2: RunCalls<F, X, S>,
) -> bool {
    &&& forall|i: int|
        0 <= i < steps1.len() && i < steps2.len() ==> #[trigger] yield_alike(
            c1.feeds,
            steps1,
            c2.feeds,
            steps2,
            i,
        )
    &&& open_alike(c1.seams[0], c1.seams[1], opening1, c2.seams[0], c2.seams[1], opening2)
    &&& fill_alike(
        c1.seams[0].execution,
        c1.seams[1].execution,
        opening1,
        c2.seams[0].execution,
        c2.seams[1].execution,
        opening2,
    )
    &&& forall|i: int|
        0 <= i < steps1.len() && i < steps2.len() ==> #[trigger] answer_alike(
            taken(initial_cents, opening1, steps1, c1, i),
            taken(initial_cents, opening2, steps2, c2, i),
        )
}

/// Whether two runs report the same, reasons by their text.
pub open spec fn same_report(run1: BacktestRun, run2: BacktestRun) -> bool {
    &&& run1.equity_curve@ == run2.equity_curve@
    &&& run1.open_at_end@ == run2.open_at_end@
    &&& trades_alike(run1.trade_log@, run2.trade_log@)
    &&& run1.fills@ == run2.fills@
    &&& rows_alike(run1.positions@, run2.positions@)
    &&& run1.attribution_substrate.steps@ == run2.attribution_substrate.steps@
    &&& run1.attribution_substrate.legs@ == run2.attribution_substrate.legs@
    &&& run1.result.strategy_name@ == run2.result.strategy_name@
    &&& run1.result.initial_capital == run2.result.initial_capital
    &&& run1.result.final_capital == run2.result.final_capital
    &&& run1.result.test_period_start.nanos_since_epoch()
        == run2.result.test_period_start.nanos_since_epoch()
    &&& run1.result.test_period_end.nanos_since_epoch()
        == run2.result.test_period_end.nanos_since_epoch()
    &&& run1.data_identity == run2.data_identity
}

/// The keys of a registry can be walked from the lowest up in one way only.
proof fn lemma_one_walk(
    a: Seq<u64>,
    b: Seq<u64>,
    x: Map<u64, PendingEntry>,
    y: Map<u64, PendingEntry>,
)
    requires
        walks_keys(a, x),
        walks_keys(b, y),
        x.dom() == y.dom(),
    ensures
        a == b,
{
    assert forall|i: int| 0 <= i < a.len() implies i < b.len() && #[trigger] a[i] == b[i] by {
        lemma_same_place(a, b, x, y, i);
    }
    if a.len() > 0 {
        lemma_same_place(a, b, x, y, a.len() - 1);
    }
    if b.len() > 0 {
        lemma_same_place(b, a, y, x, b.len() - 1);
    }
    assert(a =~= b);
}

/// Two walks stand at the same key at the same place.
proof fn lemma_same_place(
    a: Seq<u64>,
    b: Seq<u64>,
    x: Map<u64, PendingEntry>,
    y: Map<u64, PendingEntry>,
    i: int,
)
    requires
        walks_keys(a, x),
        walks_keys(b, y),
        x.dom() == y.dom(),
        0 <= i < a.len(),
    ensures
        i < b.len(),
        a[i] == b[i],
    decreases i,
{
    assert forall|j: int| 0 <= j < i implies j < b.len() && a[j] == b[j] by {
        lemma_same_place(a, b, x, y, j);
    }
    assert(x.dom().contains(a[i]));
    assert(y.dom().contains(a[i]));
    assert(b.contains(a[i]));
    let j = b.index_of(a[i]);
    assert(b[j] == a[i]);
    if j < i {
        assert(a[j] == b[j]);
    } else if j > i {
        assert(y.dom().contains(b[i]));
        assert(x.dom().contains(b[i]));
        assert(a.contains(b[i]));
        let k = a.index_of(b[i]);
        assert(a[k] == b[i]);
        if k < i {
            assert(b[k] == a[k]);
        }
    }
}

/// The same resting orders are shown in one way only.
proof fn lemma_one_view(
    a: Seq<PendingOrder>,
    a_keys: Seq<u64>,
    x: Map<u64, PendingEntry>,
    b: Seq<PendingOrder>,
    b_keys: Seq<u64>,
    y: Map<u64, PendingEntry>,
)
    requires
        shows_pending(a, x, a_keys),
        shows_pending(b, y, b_keys),
        pending_alike(x, y),
    ensures
        a == b,
{
    lemma_one_walk(a_keys, b_keys, x, y);
    assert forall|i: int| 0 <= i < a.len() implies #[trigger] a[i] == b[i] by {
        assert(x.dom().contains(a_keys[i]));
        assert(entry_alike(x[a_keys[i]], y[a_keys[i]]));
        assert(a[i] == x[a_keys[i]].pending);
        assert(b[i] == y[b_keys[i]].pending);
    }
    assert(a =~= b);
}

/// Two steps from the same point, to which the seams answered alike, are
/// alike.
proof fn lemma_same_step<X: ExecutionModel, S: Strategy>(
    p: ProgressView,
    q: ProgressView,
    a: Taken<X, S>,
    b: Taken<X, S>,
)
    requires
        progress_alike(p, q),
        a.from == b.from,
        a.books == p.books,
        b.books == q.books,
        a.trace.inputs.snapshot == b.trace.inputs.snapshot,
        a.trace.is_last == b.trace.is_last,
        step_driven(a.from, a.to, p, a.trace, a.calls),
        step_driven(b.from, b.to, q, b.trace, b.calls),
        stepped(p, a.trace) is Some,
        stepped(q, b.trace) is Some,
        answer_alike(a, b),
    ensures
        step_alike(a.trace, b.trace),
        a.to == b.to,
{
    reveal(step_driven);
    lemma_one_view(
        a.calls.pending,
        a.calls.keys,
        p.books.pending,
        b.calls.pending,
        b.calls.keys,
        q.books.pending,
    );
    assert(in_phase(p, a.trace) && in_phase(q, b.trace));
    let (r1, r2) = (a.trace.inputs.reasons, b.trace.inputs.reasons);
    assert forall|idx: int| 0 <= idx < a.trace.inputs.cmds.len() implies reason_alike(
        #[trigger] r1.reason_at(idx),
        r2.reason_at(idx),
    ) by {
        if idx < r1.exits_end {
            assert(reason_alike(r1.policy_reason, r2.policy_reason));
        } else if idx >= r1.on_end_start {
            assert(reason_alike(r1.end_reason, r2.end_reason));
        }
    }
}

/// Two runs open alike.
proof fn lemma_same_opening<F: DataFeed, X: ExecutionModel, S: Strategy>(
    config: BacktestConfig,
    feed: F,
    execution: X,
    strategy: S,
    initial_cents: int,
    opening1: StepTrace,
    steps1: Seq<StepTrace>,
    c1: RunCalls<F, X, S>,
    opening2: StepTrace,
    steps2: Seq<StepTrace>,
    c2: RunCalls<F, X, S>,
)
    requires
        driven(config.seed, feed, execution, strategy, initial_cents, opening1, steps1, c1),
        driven(config.seed, feed, execution, strategy, initial_cents, opening2, steps2, c2),
        opening1.inputs.snapshot == opening2.inputs.snapshot,
        runs_alike(initial_cents, opening1, steps1, c1, opening2, steps2, c2),
    ensures
        books_alike(
            started(fresh(initial_cents).books, opening1)->0,
            started(fresh(initial_cents).books, opening2)->0,
        ),
        c1.seams[1] == c2.seams[1],
{
    reveal(driven);
    let (r1, r2) = (opening1.inputs.reasons, opening2.inputs.reasons);
    assert forall|idx: int| 0 <= idx < opening1.inputs.cmds.len() implies reason_alike(
        #[trigger] r1.reason_at(idx),
        r2.reason_at(idx),
    ) by {}
    assert(inputs_alike(opening1.inputs, opening2.inputs));
    law_openings_lead_on_alike(fresh(initial_cents).books, opening1, opening2);
}

/// Whether some steps could be taken, from an opening on.
#[verifier::opaque]
spec fn went_through(initial_cents: int, opening: StepTrace, steps: Seq<StepTrace>) -> bool {
    started(fresh(initial_cents).books, opening) matches Some(books) && replayed(
        ProgressView { books, ..fresh(initial_cents) },
        steps,
    ) is Some
}

/// A run stands after a step where the step led it.
proof fn lemma_stands_after(
    initial_cents: int,
    opening: StepTrace,
    steps: Seq<StepTrace>,
    i: int,
)
    requires
        went_through(initial_cents, opening, steps),
        0 <= i < steps.len(),
    ensures
        stepped(stood_at(initial_cents, opening, steps, i), steps[i]) == Some(
            stood_at(initial_cents, opening, steps, i + 1),
        ),
{
    reveal(went_through);
    let p0 = fresh(initial_cents);
    let p1 = ProgressView { books: started(p0.books, opening)->0, ..p0 };
    lemma_prefix(p1, steps, i + 1);
    assert(steps.take(i + 1).drop_last() =~= steps.take(i));
}

/// Whether two runs stand alike before their step at `k`, with the same seams.
#[verifier::opaque]
spec fn stand_alike<F, X, S>(
    initial_cents: int,
    opening1: StepTrace,
    steps1: Seq<StepTrace>,
    c1: RunCalls<F, X, S>,
    opening2: StepTrace,
    steps2: Seq<StepTrace>,
    c2: RunCalls<F, X, S>,
    k: int,
) -> bool {
    &&& progress_alike(
        stood_at(initial_cents, opening1, steps1, k),
        stood_at(initial_cents, opening2, steps2, k),
    )
    &&& c1.feeds[k] == c2.feeds[k]
    &&& c1.seams[k + 1] == c2.seams[k + 1]
}

/// Two runs that opened alike stand alike before their first step.
proof fn lemma_stand_alike_first<F: DataFeed, X: ExecutionModel, S: Strategy>(
    config: BacktestConfig,
    feed: F,
    execution: X,
    strategy: S,
    initial_cents: int,
    opening1: StepTrace,
    steps1: Seq<StepTrace>,
    c1: RunCalls<F, X, S>,
    opening2: StepTrace,
    steps2: Seq<StepTrace>,
    c2: RunCalls<F, X, S>,
)
    requires
        driven(config.seed, feed, execution, strategy, initial_cents, opening1, steps1, c1),
        driven(config.seed, feed, execution, strategy, initial_cents, opening2, steps2, c2),
        books_alike(
            started(fresh(initial_cents).books, opening1)->0,
            started(fresh(initial_cents).books, opening2)->0,
        ),
        c1.seams[1] == c2.seams[1],
    ensures
        stand_alike(initial_cents, opening1, steps1, c1, opening2, steps2, c2, 0),
{
    reveal(driven);
    reveal(stand_alike);
    assert(steps1.take(0) =~= Seq::<StepTrace>::empty());
    assert(steps2.take(0) =~= Seq::<StepTrace>::empty());
}

/// Two runs that stand alike before a step take it alike and stand alike after
/// it.
proof fn lemma_stand_alike_next<F: DataFeed, X: ExecutionModel, S: Strategy>(
    initial_cents: int,
    opening1: StepTrace,
    steps1: Seq<StepTrace>,
    c1: RunCalls<F, X, S>,
    opening2: StepTrace,
    steps2: Seq<StepTrace>,
    c2: RunCalls<F, X, S>,
    i: int,
)
    requires
        stand_alike(initial_cents, opening1, steps1, c1, opening2, steps2, c2, i),
        step_driven(
            c1.seams[i + 1],
            c1.seams[i + 2],
            stood_at(initial_cents, opening1, steps1, i),
            steps1[i],
            c1.calls[i],
        ),
        step_driven(
            c2.seams[i + 1],
            c2.seams[i + 2],
            stood_at(initial_cents, opening2, steps2, i),
            steps2[i],
            c2.calls[i],
        ),
        went_through(initial_cents, opening1, steps1),
        went_through(initial_cents, opening2, steps2),
        0 <= i < steps1.len(),
        i < steps2.len(),
        yield_alike(c1.feeds, steps1, c2.feeds, steps2, i),
        answer_alike(
            taken(initial_cents, opening1, steps1, c1, i),
            taken(initial_cents, opening2, steps2, c2, i),
        ),
        steps1[i].inputs.snapshot == steps2[i].inputs.snapshot ==> steps1[i].is_last
            == steps2[i].is_last,
    ensures
        step_alike(steps1[i], steps2[i]),
        stand_alike(initial_cents, opening1, steps1, c1, opening2, steps2, c2, i + 1),
{
    reveal(stand_alike);
    lemma_stands_after(initial_cents, opening1, steps1, i);
    lemma_stands_after(initial_cents, opening2, steps2, i);
    let mid1 = stood_at(initial_cents, opening1, steps1, i);
    let mid2 = stood_at(initial_cents, opening2, steps2, i);
    lemma_same_step(
        mid1,
        mid2,
        taken(initial_cents, opening1, steps1, c1, i),
        taken(initial_cents, opening2, steps2, c2, i),
    );
    law_steps_lead_on_alike(mid1, mid2, steps1[i], steps2[i]);
}

/// The calls that led to a step of a run.
proof fn lemma_step_was_driven<F: DataFeed, X: ExecutionModel, S: Strategy>(
    config: BacktestConfig,
    feed: F,
    execution: X,
    strategy: S,
    initial_cents: int,
    opening: StepTrace,
    steps: Seq<StepTrace>,
    c: RunCalls<F, X, S>,
    i: int,
)
    requires
        driven(config.seed, feed, execution, strategy, initial_cents, opening, steps, c),
        0 <= i < steps.len(),
    ensures
        F::may_yield(c.feeds[i], c.feeds[i + 1], Ok(Some(steps[i].inputs.snapshot))),
        step_driven(
            c.seams[i + 1],
            c.seams[i + 2],
            stood_at(initial_cents, opening, steps, i),
            steps[i],
            c.calls[i],
        ),
{
    reveal(driven);
    let p0 = fresh(initial_cents);
    assert(step_taken(
        c,
        ProgressView { books: started(p0.books, opening)->0, ..p0 },
        steps,
        i,
    ));
}

/// Two runs are alike up to any point that both come to.
proof fn lemma_same_so_far<F: DataFeed, X: ExecutionModel, S: Strategy>(
    config: BacktestConfig,
    feed: F,
    execution: X,
    strategy: S,
    initial_cents: int,
    opening1: StepTrace,
    steps1: Seq<StepTrace>,
    c1: RunCalls<F, X, S>,
    opening2: StepTrace,
    steps2: Seq<StepTrace>,
    c2: RunCalls<F, X, S>,
    k: int,
)
    requires
        driven(config.seed, feed, execution, strategy, initial_cents, opening1, steps1, c1),
        driven(config.seed, feed, execution, strategy, initial_cents, opening2, steps2, c2),
        runs_alike(initial_cents, opening1, steps1, c1, opening2, steps2, c2),
        stand_alike(initial_cents, opening1, steps1, c1, opening2, steps2, c2, 0),
        went_through(initial_cents, opening1, steps1),
        went_through(initial_cents, opening2, steps2),
        forall|i: int|
            #![trigger steps1[i], steps2[i]]
            0 <= i < steps1.len() && i < steps2.len() && steps1[i].inputs.snapshot
                == steps2[i].inputs.snapshot ==> steps1[i].is_last == steps2[i].is_last,
        0 <= k <= steps1.len(),
        k <= steps2.len(),
    ensures
        stand_alike(initial_cents, opening1, steps1, c1, opening2, steps2, c2, k),
        forall|i: int| 0 <= i < k ==> step_alike(#[trigger] steps1[i], steps2[i]),
    decreases k,
{
    if k > 0 {
        let i = k - 1;
        lemma_same_so_far(
            config,
            feed,
            execution,
            strategy,
            initial_cents,
            opening1,
            steps1,
            c1,
            opening2,
            steps2,
            c2,
            i,
        );
        lemma_step_was_driven(
            config,
            feed,
            execution,
            strategy,
            initial_cents,
            opening1,
            steps1,
            c1,
            i,
        );
        lemma_step_was_driven(
            config,
            feed,
            execution,
            strategy,
            initial_cents,
            opening2,
            steps2,
            c2,
            i,
        );
        assert(yield_alike(c1.feeds, steps1, c2.feeds, steps2, i));
        assert(answer_alike(
            taken(initial_cents, opening1, steps1, c1, i),
            taken(initial_cents, opening2, steps2, c2, i),
        ));
        lemma_stand_alike_next(
            initial_cents,
            opening1,
            steps1,
            c1,
            opening2,
            steps2,
            c2,
            i,
        );
    }
}

/// A run is determined by its seed, its tape and its seams: two runs with the
/// same configuration, feed, execution model and strategy, whose seams
/// answered alike wherever they were asked alike, take the same steps and report
/// the same, field by field. The replay loop draws on nothing else.
pub proof fn law_run_is_reproducible<F: DataFeed, X: ExecutionModel, S: Strategy>(
    run1: BacktestRun,
    run2: BacktestRun,
    config: BacktestConfig,
    feed: F,
    execution: X,
    strategy: S,
    name: Seq<char>,
    opening1: StepTrace,
    steps1: Seq<StepTrace>,
    c1: RunCalls<F, X, S>,
    opening2: StepTrace,
    steps2: Seq<StepTrace>,
    c2: RunCalls<F, X, S>,
)
    requires
        ran(run1, config, feed, execution, strategy, name, opening1, steps1, c1),
        ran(run2, config, feed, execution, strategy, name, opening2, steps2, c2),
        runs_alike(
            (config.initial_capital as i64) as int,
            opening1,
            steps1,
            c1,
            opening2,
            steps2,
            c2,
        ),
    ensures
        steps1.len() == steps2.len(),
        forall|i: int| 0 <= i < steps1.len() ==> step_alike(#[trigger] steps1[i], steps2[i]),
        same_report(run1, run2),
{
    let cents = (config.initial_capital as i64) as int;
    assert(c1.feeds[0] == c2.feeds[0]) by {
        reveal(driven);
    }
    assert(went_through(cents, opening1, steps1) && went_through(cents, opening2, steps2)) by {
        reveal(went_through);
    }
    assert(yield_alike(c1.feeds, steps1, c2.feeds, steps2, 0));
    lemma_same_opening(
        config,
        feed,
        execution,
        strategy,
        cents,
        opening1,
        steps1,
        c1,
        opening2,
        steps2,
        c2,
    );
    lemma_stand_alike_first(
        config,
        feed,
        execution,
        strategy,
        cents,
        opening1,
        steps1,
        c1,
        opening2,
        steps2,
        c2,
    );
    let k = if steps1.len() <= steps2.len() {
        steps1.len() as int
    } else {
        steps2.len() as int
    };
    lemma_same_so_far(
        config,
        feed,
        execution,
        strategy,
        cents,
        opening1,
        steps1,
        c1,
        opening2,
        steps2,
        c2,
        k,
    );
    assert(step_alike(steps1[k - 1], steps2[k - 1]));
    assert(steps1[k - 1].is_last && steps2[k - 1].is_last);
    reveal(stand_alike);
    assert(steps1.take(k) =~= steps1);
    assert(steps2.take(k) =~= steps2);
}

/// Whether two calls of a strategy were given the same.
pub open spec fn given_alike<S>(d: Decision<S>, e: Decision<S>) -> bool {
    &&& d.before == e.before
    &&& d.seen == e.seen
    &&& d.rng == e.rng
    &&& d.out == e.out
    &&& d.error is None
    &&& e.error is None
}

/// Whether two calls of a strategy came to the same.
pub open spec fn made_alike<S>(d: Decision<S>, e: Decision<S>) -> bool {
    &&& d.after == e.after
    &&& d.rng_after == e.rng_after
    &&& d.out_after == e.out_after
}

/// Whether a feed's next snapshot depends on the feed alone.
pub open spec fn feed_is_determined<F: DataFeed>() -> bool {
    forall|
        before: F,
        after1: F,
        after2: F,
        s1: ChainSnapshot,
        s2: ChainSnapshot,
    |
        #[trigger] F::may_yield(before, after1, Ok(Some(s1))) && #[trigger] F::may_yield(
            before,
            after2,
            Ok(Some(s2)),
        ) ==> after1 == after2 && s1 == s2
}

/// Whether what a strategy makes of a call depends on the strategy, what it
/// sees, the generator and the commands so far alone.
pub open spec fn strategy_is_determined<S: Strategy>() -> bool {
    &&& forall|d: Decision<S>, e: Decision<S>|
        given_alike(d, e) && #[trigger] S::may_start(d) && #[trigger] S::may_start(e)
            ==> made_alike(d, e)
    &&& forall|d: Decision<S>, e: Decision<S>|
        given_alike(d, e) && #[trigger] S::may_exit(d) && #[trigger] S::may_exit(e) ==> made_alike(
            d,
            e,
        )
    &&& forall|d: Decision<S>, e: Decision<S>|
        given_alike(d, e) && #[trigger] S::may_act(d) && #[trigger] S::may_act(e) ==> made_alike(
            d,
            e,
        )
    &&& forall|d: Decision<S>, e: Decision<S>|
        given_alike(d, e) && #[trigger] S::may_end(d) && #[trigger] S::may_end(e) ==> made_alike(
            d,
            e,
        )
    &&& forall|s: S, a: ExitReason, b: ExitReason|
        #[trigger] s.may_give(a) && #[trigger] s.may_give(b) ==> reason_alike(a, b)
}

/// Whether how an execution model fills depends on the model, the commands,
/// their ids and the snapshot alone, and its correlation on the model alone.
pub open spec fn model_is_determined<X: ExecutionModel>() -> bool {
    &&& forall|f: Filling<X>, g: Filling<X>|
        f.before == g.before && f.cmds == g.cmds && f.submit_ids == g.submit_ids && f.snapshot
            == g.snapshot && f.out == g.out && f.error is None && g.error is None && #[trigger]
        X::may_fill(f) && #[trigger] X::may_fill(g) ==> f.after == g.after && f.out_after
            == g.out_after
    &&& forall|
        x: X,
        a: Option<Seq<FillGroup>>,
        b: Option<Seq<FillGroup>>,
    |
        #[trigger] x.may_group(a) && #[trigger] x.may_group(b) ==> a == b
    &&& forall|x: X, a: Seq<CarryGroup>, b: Seq<CarryGroup>|
        #[trigger] x.may_carry(a) && #[trigger] x.may_carry(b) ==> a == b
}

/// A determined model fills alike.
proof fn lemma_fills_determined<X: ExecutionModel>(
    before1: X,
    after1: X,
    t1: StepTrace,
    before2: X,
    after2: X,
    t2: StepTrace,
)
    requires
        model_is_determined::<X>(),
        filled_by(before1, after1, t1),
        filled_by(before2, after2, t2),
    ensures
        fill_alike(before1, after1, t1, before2, after2, t2),
{
}

/// Determined seams answer alike in a step.
proof fn lemma_answers_determined<X: ExecutionModel, S: Strategy>(
    p: ProgressView,
    q: ProgressView,
    a: Taken<X, S>,
    b: Taken<X, S>,
)
    requires
        strategy_is_determined::<S>(),
        model_is_determined::<X>(),
        a.books == p.books,
        b.books == q.books,
        step_driven(a.from, a.to, p, a.trace, a.calls),
        step_driven(b.from, b.to, q, b.trace, b.calls),
    ensures
        answer_alike(a, b),
{
    reveal(step_driven);
    lemma_fills_determined(
        a.from.execution,
        a.to.execution,
        a.trace,
        b.from.execution,
        b.to.execution,
        b.trace,
    );
    let (s, t) = (a.trace.inputs.snapshot, b.trace.inputs.snapshot);
    let (d1, e1) = (
        exit_call(a.from, a.books, s, a.calls, None),
        exit_call(b.from, b.books, t, b.calls, None),
    );
    assert(S::may_exit(d1) && S::may_exit(e1));
    assert(given_alike(d1, e1) ==> made_alike(d1, e1));
    let (d2, e2) = (
        act_call(a.from, a.books, s, a.calls, None),
        act_call(b.from, b.books, t, b.calls, None),
    );
    assert(S::may_act(d2) && S::may_act(e2));
    assert(given_alike(d2, e2) ==> made_alike(d2, e2));
    if a.trace.is_last && b.trace.is_last {
        let (d3, e3) = (
            end_call(a.books, s, a.calls, a.to.strategy, a.to.rng, a.trace.inputs.cmds, None),
            end_call(b.books, t, b.calls, b.to.strategy, b.to.rng, b.trace.inputs.cmds, None),
        );
        assert(S::may_end(d3) && S::may_end(e3));
        assert(given_alike(d3, e3) ==> made_alike(d3, e3));
    }
}

/// The same seed, the same tape and determined seams give the same run: where a
/// feed, an execution model and a strategy that draws on nothing but what it is
/// shown and the run's generator are each determined, any two runs of them
/// under one configuration report the same.
pub proof fn law_determined_seams_give_one_run<F: DataFeed, X: ExecutionModel, S: Strategy>(
    run1: BacktestRun,
    run2: BacktestRun,
    config: BacktestConfig,
    feed: F,
    execution: X,
    strategy: S,
    name: Seq<char>,
    opening1: StepTrace,
    steps1: Seq<StepTrace>,
    c1: RunCalls<F, X, S>,
    opening2: StepTrace,
    steps2: Seq<StepTrace>,
    c2: RunCalls<F, X, S>,
)
    requires
        feed_is_determined::<F>(),
        model_is_determined::<X>(),
        strategy_is_determined::<S>(),
        ran(run1, config, feed, execution, strategy, name, opening1, steps1, c1),
        ran(run2, config, feed, execution, strategy, name, opening2, steps2, c2),
    ensures
        same_report(run1, run2),
{
    let cents = (config.initial_capital as i64) as int;
    let p0 = fresh(cents);
    assert(start_driven(c1.seams[0], c1.seams[1], p0.books, opening1) && start_driven(
        c2.seams[0],
        c2.seams[1],
        p0.books,
        opening2,
    )) by {
        reveal(driven);
    }
    assert(open_alike(c1.seams[0], c1.seams[1], opening1, c2.seams[0], c2.seams[1], opening2)
        && fill_alike(
        c1.seams[0].execution,
        c1.seams[1].execution,
        opening1,
        c2.seams[0].execution,
        c2.seams[1].execution,
        opening2,
    )) by {
        reveal(start_driven);
        lemma_fills_determined(
            c1.seams[0].execution,
            c1.seams[1].execution,
            opening1,
            c2.seams[0].execution,
            c2.seams[1].execution,
            opening2,
        );
        let d = start_call(
            c1.seams[0],
            p0.books,
            opening1.inputs.snapshot,
            c1.seams[1].strategy,
            c1.seams[1].rng,
            opening1.inputs.cmds,
            None,
        );
        let e = start_call(
            c2.seams[0],
            p0.books,
            opening2.inputs.snapshot,
            c2.seams[1].strategy,
            c2.seams[1].rng,
            opening2.inputs.cmds,
            None,
        );
        assert(S::may_start(d) && S::may_start(e));
        assert(given_alike(d, e) ==> made_alike(d, e));
    }
    assert forall|i: int|
        0 <= i < steps1.len() && i < steps2.len() implies #[trigger] yield_alike(
        c1.feeds,
        steps1,
        c2.feeds,
        steps2,
        i,
    ) by {
        lemma_step_was_driven(
            config,
            feed,
            execution,
            strategy,
            cents,
            opening1,
            steps1,
            c1,
            i,
        );
        lemma_step_was_driven(
            config,
            feed,
            execution,
            strategy,
            cents,
            opening2,
            steps2,
            c2,
            i,
        );
    }
    assert forall|i: int|
        0 <= i < steps1.len() && i < steps2.len() implies #[trigger] answer_alike(
        taken(cents, opening1, steps1, c1, i),
        taken(cents, opening2, steps2, c2, i),
    ) by {
        lemma_step_was_driven(
            config,
            feed,
            execution,
            strategy,
            cents,
            opening1,
            steps1,
            c1,
            i,
        );
        lemma_step_was_driven(
            config,
            feed,
            execution,
            strategy,
            cents,
            opening2,
            steps2,
            c2,
            i,
        );
        lemma_answers_determined(
            stood_at(cents, opening1, steps1, i),
            stood_at(cents, opening2, steps2, i),
            taken(cents, opening1, steps1, c1, i),
            taken(cents, opening2, steps2, c2, i),
        );
    }
    law_run_is_reproducible(
        run1,
        run2,
        config,
        feed,
        execution,
        strategy,
        name,
        opening1,
        steps1,
        c1,
        opening2,
        steps2,
        c2,
    );
}

} // verus!
