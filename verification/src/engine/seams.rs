//! What the replay loop asks of its seams, and what it makes of their answers.
//!
//! A strategy and an execution model say for themselves what their calls may
//! do. The relations below say which calls the loop makes, with what, and in
//! which order: those that lead to a step, and those after which a step comes
//! to nothing.

use crate::domain::{ChainSnapshot, OrderCommand, OrderId, PendingOrder};
use crate::engine::backtest::{
    entered, ids_fresh, is_close, minted_total, order_ids, shows_pending, step_recorded,
    with_minted, ProgressView, StepTrace,
};
use crate::engine::books::BooksView;
use crate::engine::correlate::{step_applied, CloseReasons};
use crate::engine::strategy::{Decision, Seen, Strategy};
use crate::error::{kind_of, BacktestError, ErrorKind};
use crate::execution::{ExecutionModel, Filling};
use rand_chacha::ChaCha8Rng;
use vstd::prelude::*;

verus! {

/// The seams behind the feed, and the generator.
pub struct Seams<X, S> {
    /// The execution model.
    pub execution: X,
    /// The strategy.
    pub strategy: S,
    /// The generator.
    pub rng: ChaCha8Rng,
}

/// Whether an execution model was given a step's commands, and gave the step's
/// fills and their correlation.
pub open spec fn filled_by<X: ExecutionModel>(before: X, after: X, t: StepTrace) -> bool {
    &&& X::may_fill(
        Filling {
            before,
            after,
            cmds: t.inputs.cmds,
            submit_ids: t.inputs.submit_ids,
            snapshot: t.inputs.snapshot,
            out: Seq::empty(),
            out_after: t.inputs.fills,
            error: None,
        },
    )
    &&& after.may_group(t.inputs.groups)
    &&& after.may_carry(t.carry)
}

/// What a strategy is shown of the books at a snapshot.
pub open spec fn shown(
    b: BooksView,
    pending: Seq<PendingOrder>,
    snapshot: ChainSnapshot,
) -> Seen {
    Seen {
        snapshot,
        open: b.inventory,
        pending,
        marks: b.ledger.marks,
        step: snapshot.step,
    }
}

/// The call of `on_start`.
pub open spec fn start_call<X, S>(
    from: Seams<X, S>,
    b: BooksView,
    snapshot: ChainSnapshot,
    after: S,
    rng_after: ChaCha8Rng,
    cmds: Seq<OrderCommand>,
    error: Option<BacktestError>,
) -> Decision<S> {
    Decision {
        before: from.strategy,
        after,
        seen: shown(b, Seq::empty(), snapshot),
        rng: from.rng,
        rng_after,
        out: Seq::empty(),
        out_after: cmds,
        error,
    }
}

/// Whether the seams led to an opening: the strategy was shown the first
/// snapshot and gave the opening's commands, and the execution model filled
/// them.
#[verifier::opaque]
pub open spec fn start_driven<X: ExecutionModel, S: Strategy>(
    from: Seams<X, S>,
    to: Seams<X, S>,
    b: BooksView,
    t: StepTrace,
) -> bool {
    &&& S::may_start(
        start_call(from, b, t.inputs.snapshot, to.strategy, to.rng, t.inputs.cmds, None),
    )
    &&& filled_by(from.execution, to.execution, t)
}

/// Whether an execution model failed on some commands.
pub open spec fn fill_refused<X: ExecutionModel>(
    before: X,
    after: X,
    cmds: Seq<OrderCommand>,
    submit_ids: Seq<OrderId>,
    snapshot: ChainSnapshot,
    kind: ErrorKind,
) -> bool {
    exists|f: Filling<X>|
        {
            &&& #[trigger] X::may_fill(f)
            &&& f.before == before
            &&& f.after == after
            &&& f.cmds == cmds
            &&& f.submit_ids == submit_ids
            &&& f.snapshot == snapshot
            &&& f.out.len() == 0
            &&& kind_of(f.error) == Some(kind)
        }
}

/// Whether opening commands came to nothing: the ids run out, before the
/// execution model was asked; or they could not be filled, or not be booked.
pub open spec fn opening_refused<X: ExecutionModel>(
    execution: X,
    after: X,
    b: BooksView,
    snapshot: ChainSnapshot,
    cmds: Seq<OrderCommand>,
    kind: ErrorKind,
) -> bool {
    let order = b.ids.order;
    if order + minted_total(cmds) > u64::MAX {
        kind == ErrorKind::ArithmeticOverflow && after == execution
    } else {
        ||| fill_refused(
            execution,
            after,
            cmds,
            order_ids(order as int, minted_total(cmds)),
            snapshot,
            kind,
        )
        ||| exists|t: StepTrace|
            {
                &&& #[trigger] filled_by(execution, after, t)
                &&& t.inputs.cmds == cmds
                &&& t.inputs.snapshot == snapshot
                &&& ids_fresh(b, t.inputs)
                &&& t.inputs.reasons.exits_end == 0
                &&& t.inputs.reasons.on_end_start == cmds.len()
                &&& step_applied(with_minted(b, cmds), t.inputs, t.carry) == Err::<
                    BooksView,
                    ErrorKind,
                >(kind)
            }
    }
}

/// Whether an opening came to nothing: the strategy failed, and the execution
/// model was not asked, or the commands that it gave came to nothing.
#[verifier::opaque]
pub open spec fn start_refused<X: ExecutionModel, S: Strategy>(
    from: Seams<X, S>,
    to: Seams<X, S>,
    b: BooksView,
    snapshot: ChainSnapshot,
    kind: ErrorKind,
) -> bool {
    exists|cmds: Seq<OrderCommand>, error: Option<BacktestError>|
        {
            &&& #[trigger] S::may_start(
                start_call(from, b, snapshot, to.strategy, to.rng, cmds, error),
            )
            &&& match error {
                Some(e) => e.kind() == kind && to.execution == from.execution,
                None => opening_refused(
                    from.execution,
                    to.execution,
                    b,
                    snapshot,
                    cmds,
                    kind,
                ),
            }
        }
}

/// What passed between the calls of a strategy in one step.
pub struct StepCalls<S> {
    /// The resting orders that it was shown.
    pub pending: Seq<PendingOrder>,
    /// Their ids.
    pub keys: Seq<u64>,
    /// The strategy after `exits`.
    pub exited: S,
    /// The commands after `exits`.
    pub exit_cmds: Seq<OrderCommand>,
    /// The strategy after `on_snapshot`.
    pub acted: S,
    /// The commands after `on_snapshot`.
    pub act_cmds: Seq<OrderCommand>,
    /// The generator after `on_snapshot`.
    pub rng: ChaCha8Rng,
}

/// The call of `exits` in a step.
pub open spec fn exit_call<X, S>(
    from: Seams<X, S>,
    b: BooksView,
    snapshot: ChainSnapshot,
    calls: StepCalls<S>,
    error: Option<BacktestError>,
) -> Decision<S> {
    Decision {
        before: from.strategy,
        after: calls.exited,
        seen: shown(b, calls.pending, snapshot),
        rng: from.rng,
        rng_after: from.rng,
        out: Seq::empty(),
        out_after: calls.exit_cmds,
        error,
    }
}

/// The call of `on_snapshot` in a step.
pub open spec fn act_call<X, S>(
    from: Seams<X, S>,
    b: BooksView,
    snapshot: ChainSnapshot,
    calls: StepCalls<S>,
    error: Option<BacktestError>,
) -> Decision<S> {
    Decision {
        before: calls.exited,
        after: calls.acted,
        seen: shown(b, calls.pending, snapshot),
        rng: from.rng,
        rng_after: calls.rng,
        out: calls.exit_cmds,
        out_after: calls.act_cmds,
        error,
    }
}

/// The call of `on_end` in the final step.
pub open spec fn end_call<S>(
    b: BooksView,
    snapshot: ChainSnapshot,
    calls: StepCalls<S>,
    after: S,
    rng_after: ChaCha8Rng,
    cmds: Seq<OrderCommand>,
    error: Option<BacktestError>,
) -> Decision<S> {
    Decision {
        before: calls.acted,
        after,
        seen: shown(b, calls.pending, snapshot),
        rng: calls.rng,
        rng_after,
        out: calls.act_cmds,
        out_after: cmds,
        error,
    }
}

/// Whether a strategy was asked to close, and succeeded.
pub open spec fn exited<X, S: Strategy>(
    from: Seams<X, S>,
    b: BooksView,
    snapshot: ChainSnapshot,
    calls: StepCalls<S>,
) -> bool {
    S::may_exit(exit_call(from, b, snapshot, calls, None))
}

/// Whether a strategy came to a step's commands. It was shown the books as
/// they stood, its resting orders from the lowest id up; it was asked to close,
/// then to act, and in the final step to close what is left, each time with
/// the commands so far.
pub open spec fn commands_given<X, S: Strategy>(
    from: Seams<X, S>,
    b: BooksView,
    snapshot: ChainSnapshot,
    is_last: bool,
    calls: StepCalls<S>,
    strategy: S,
    rng: ChaCha8Rng,
    cmds: Seq<OrderCommand>,
) -> bool {
    &&& shows_pending(calls.pending, b.pending, calls.keys)
    &&& exited(from, b, snapshot, calls)
    &&& S::may_act(act_call(from, b, snapshot, calls, None))
    &&& if is_last {
        S::may_end(end_call(b, snapshot, calls, strategy, rng, cmds, None))
    } else {
        strategy == calls.acted && rng == calls.rng && cmds == calls.act_cmds
    }
}

/// Whether the reasons of a step's closes are those of its calls: what `exits`
/// closed has the strategy's reason, which is asked for only where there is
/// such a close.
pub open spec fn reasons_given<S: Strategy>(
    reasons: CloseReasons,
    calls: StepCalls<S>,
    strategy: S,
) -> bool {
    &&& reasons.exits_end == calls.exit_cmds.len()
    &&& reasons.on_end_start == calls.act_cmds.len()
    &&& reasons.exits_end > 0 ==> strategy.may_give(reasons.policy_reason)
}

/// Whether the seams led to a step: the strategy came to its commands and gave
/// the reasons for its closes, and the execution model filled the commands.
#[verifier::opaque]
pub open spec fn step_driven<X: ExecutionModel, S: Strategy>(
    from: Seams<X, S>,
    to: Seams<X, S>,
    p: ProgressView,
    t: StepTrace,
    calls: StepCalls<S>,
) -> bool {
    &&& commands_given(
        from,
        p.books,
        t.inputs.snapshot,
        t.is_last,
        calls,
        to.strategy,
        to.rng,
        t.inputs.cmds,
    )
    &&& reasons_given(t.inputs.reasons, calls, to.strategy)
    &&& filled_by(from.execution, to.execution, t)
}

/// Whether a strategy failed in a step: when asked to close, to act, or to
/// close what is left. The execution model was not asked.
pub open spec fn ask_refused<X, S: Strategy>(
    from: Seams<X, S>,
    to: Seams<X, S>,
    b: BooksView,
    snapshot: ChainSnapshot,
    is_last: bool,
    calls: StepCalls<S>,
    kind: ErrorKind,
) -> bool {
    &&& shows_pending(calls.pending, b.pending, calls.keys)
    &&& to.execution == from.execution
    &&& {
        ||| to.strategy == calls.exited && to.rng == from.rng && exists|e: BacktestError|
            #[trigger] S::may_exit(exit_call(from, b, snapshot, calls, Some(e))) && e.kind()
                == kind
        ||| to.strategy == calls.acted && to.rng == calls.rng && exited(
            from,
            b,
            snapshot,
            calls,
        ) && exists|e: BacktestError|
            #[trigger] S::may_act(act_call(from, b, snapshot, calls, Some(e))) && e.kind() == kind
        ||| exited(from, b, snapshot, calls) && S::may_act(
            act_call(from, b, snapshot, calls, None),
        ) && is_last && exists|cmds: Seq<OrderCommand>, e: BacktestError| #[trigger]
            S::may_end(end_call(b, snapshot, calls, to.strategy, to.rng, cmds, Some(e)))
                && e.kind() == kind
    }
}

/// Whether what a strategy appended last closes legs, where it was asked to.
pub open spec fn ends_closing<S>(
    is_last: bool,
    calls: StepCalls<S>,
    cmds: Seq<OrderCommand>,
) -> bool {
    is_last ==> forall|i: int|
        calls.act_cmds.len() <= i < cmds.len() ==> is_close(#[trigger] cmds[i])
}

/// Whether a step's commands came to nothing: the last of them do not close, or
/// the ids run out, before the execution model was asked; or they could not be
/// filled, or the step could not be recorded.
pub open spec fn commands_refused<X: ExecutionModel, S: Strategy>(
    execution: X,
    after: X,
    p: ProgressView,
    snapshot: ChainSnapshot,
    is_last: bool,
    calls: StepCalls<S>,
    strategy: S,
    cmds: Seq<OrderCommand>,
    kind: ErrorKind,
) -> bool {
    let order = p.books.ids.order;
    if !ends_closing(is_last, calls, cmds) {
        kind == ErrorKind::Execution && after == execution
    } else if order + minted_total(cmds) > u64::MAX {
        kind == ErrorKind::ArithmeticOverflow && after == execution
    } else {
        ||| fill_refused(
            execution,
            after,
            cmds,
            order_ids(order as int, minted_total(cmds)),
            snapshot,
            kind,
        )
        ||| exists|t: StepTrace|
            {
                &&& #[trigger] filled_by(execution, after, t)
                &&& t.inputs.cmds == cmds
                &&& t.inputs.snapshot == snapshot
                &&& t.is_last == is_last
                &&& ids_fresh(p.books, t.inputs)
                &&& reasons_given(t.inputs.reasons, calls, strategy)
                &&& step_recorded(entered(p, t), t.inputs, t.carry, is_last) == Err::<
                    ProgressView,
                    ErrorKind,
                >(kind)
            }
    }
}

/// Whether a step came to nothing: the clock refused its snapshot, before
/// anything was asked, the strategy failed, or its commands came to nothing.
#[verifier::opaque]
pub open spec fn step_refused<X: ExecutionModel, S: Strategy>(
    from: Seams<X, S>,
    to: Seams<X, S>,
    p: ProgressView,
    snapshot: ChainSnapshot,
    is_last: bool,
    kind: ErrorKind,
) -> bool {
    if !p.clock.may_advance(snapshot.ts, snapshot.step) {
        &&& to == from
        &&& kind == (if snapshot.ts.0 <= p.clock.ts.0 {
            ErrorKind::DataOutOfOrder {
                step: snapshot.step.0,
                ts: snapshot.ts.0,
                prev: p.clock.ts.0,
            }
        } else {
            ErrorKind::Data
        })
    } else {
        ||| exists|calls: StepCalls<S>| #[trigger]
            ask_refused(from, to, p.books, snapshot, is_last, calls, kind)
        ||| exists|calls: StepCalls<S>, cmds: Seq<OrderCommand>|
            {
                &&& #[trigger] commands_given(
                    from,
                    p.books,
                    snapshot,
                    is_last,
                    calls,
                    to.strategy,
                    to.rng,
                    cmds,
                )
                &&& commands_refused(
                    from.execution,
                    to.execution,
                    p,
                    snapshot,
                    is_last,
                    calls,
                    to.strategy,
                    cmds,
                    kind,
                )
            }
    }
}

/// A strategy that fails to open makes the opening come to nothing.
pub proof fn lemma_start_refused<X: ExecutionModel, S: Strategy>(
    from: Seams<X, S>,
    to: Seams<X, S>,
    b: BooksView,
    snapshot: ChainSnapshot,
    cmds: Seq<OrderCommand>,
    e: BacktestError,
)
    requires
        S::may_start(start_call(from, b, snapshot, to.strategy, to.rng, cmds, Some(e))),
        to.execution == from.execution,
    ensures
        start_refused(from, to, b, snapshot, e.kind()),
{
    reveal(start_refused);
}

/// Opening commands that come to nothing make the opening come to nothing.
pub proof fn lemma_opening_refused<X: ExecutionModel, S: Strategy>(
    from: Seams<X, S>,
    to: Seams<X, S>,
    b: BooksView,
    snapshot: ChainSnapshot,
    cmds: Seq<OrderCommand>,
    kind: ErrorKind,
)
    requires
        S::may_start(start_call(from, b, snapshot, to.strategy, to.rng, cmds, None)),
        opening_refused(from.execution, to.execution, b, snapshot, cmds, kind),
    ensures
        start_refused(from, to, b, snapshot, kind),
{
    reveal(start_refused);
}

/// A strategy that fails makes the step come to nothing.
pub proof fn lemma_ask_refused<X: ExecutionModel, S: Strategy>(
    from: Seams<X, S>,
    to: Seams<X, S>,
    p: ProgressView,
    snapshot: ChainSnapshot,
    is_last: bool,
    calls: StepCalls<S>,
    kind: ErrorKind,
)
    requires
        p.clock.may_advance(snapshot.ts, snapshot.step),
        ask_refused(from, to, p.books, snapshot, is_last, calls, kind),
    ensures
        step_refused(from, to, p, snapshot, is_last, kind),
{
    reveal(step_refused);
}

/// Commands that come to nothing make the step come to nothing.
pub proof fn lemma_commands_refused<X: ExecutionModel, S: Strategy>(
    from: Seams<X, S>,
    to: Seams<X, S>,
    p: ProgressView,
    snapshot: ChainSnapshot,
    is_last: bool,
    calls: StepCalls<S>,
    cmds: Seq<OrderCommand>,
    kind: ErrorKind,
)
    requires
        p.clock.may_advance(snapshot.ts, snapshot.step),
        commands_given(from, p.books, snapshot, is_last, calls, to.strategy, to.rng, cmds),
        commands_refused(
            from.execution,
            to.execution,
            p,
            snapshot,
            is_last,
            calls,
            to.strategy,
            cmds,
            kind,
        ),
    ensures
        step_refused(from, to, p, snapshot, is_last, kind),
{
    reveal(step_refused);
}

} // verus!
