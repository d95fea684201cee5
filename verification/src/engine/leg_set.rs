//! The strategy that opens a set of legs and holds them.

use crate::domain::strategy_spec::{
    are_canonical_legs_of, lemma_sorted_once, sorted_legs, LegSetSpec, LegSpec,
};
use crate::domain::{ChainSnapshot, OrderCommand, StrategySpec, Underlying};
use crate::engine::adapter::{points_at, wrong_kind};
use crate::engine::closing::{close_all, ends_flat, evaluate_exits, exits_by};
use crate::engine::entry::{leg_set_quote, open_command, open_of, select_leg_set_quote};
use crate::engine::exit::ExitReason;
use crate::engine::exit_policy::{exit_policy_to_reason, is_reason_of, ExitPolicy};
use crate::engine::named::positive_rate;
use crate::engine::replay_laws::strategy_is_determined;
use crate::engine::strategy::{ChainContext, Decision, Strategy};
use crate::error::{kind_of, refusal, BacktestError, ErrorKind};
use vstd::prelude::*;
use vstd::string::*;

verus! {

/// The orders that open the legs of a set, one per leg and in their order, up
/// to the first leg that is not quoted.
pub open spec fn set_entries(snapshot: ChainSnapshot, legs: Seq<LegSpec>) -> (
    Seq<OrderCommand>,
    Option<ErrorKind>,
)
    decreases legs.len(),
{
    if legs.len() == 0 {
        (Seq::empty(), None)
    } else {
        let (cmds, error) = set_entries(snapshot, legs.drop_last());
        if error is Some {
            (cmds, error)
        } else {
            match leg_set_quote(snapshot, legs.last()) {
                Ok(quote) => (
                    cmds.push(open_of(quote, legs.last().side, legs.last().quantity)),
                    None,
                ),
                Err(kind) => (cmds, Some(kind)),
            }
        }
    }
}

/// A leg that is not quoted ends the entry.
proof fn lemma_set_entries_stop(snapshot: ChainSnapshot, legs: Seq<LegSpec>, k: int)
    requires
        0 <= k <= legs.len(),
        set_entries(snapshot, legs.take(k)).1 is Some,
    ensures
        set_entries(snapshot, legs) == set_entries(snapshot, legs.take(k)),
    decreases legs.len(),
{
    if k < legs.len() {
        assert(legs.drop_last().take(k) =~= legs.take(k));
        lemma_set_entries_stop(snapshot, legs.drop_last(), k);
    } else {
        assert(legs.take(k) =~= legs);
    }
}

/// Whether a leg set can be run: it holds a leg, and neither its dividend
/// yield nor a leg's implied volatility is negative.
pub open spec fn leg_set_runs(spec: LegSetSpec) -> bool {
    &&& spec.legs@.len() > 0
    &&& spec.dividend_yield@ >= 0
    &&& forall|i: int|
        0 <= i < spec.legs@.len() ==> (#[trigger] spec.legs@[i]).implied_volatility@ >= 0
}

/// The strategy that opens a set of legs at the first snapshot and holds them
/// until the exit policy closes them.
///
/// The legs are kept in canonical order, which is the order they are opened
/// in: order, position and trade identities are minted in that order, so the
/// order in which a set was written shows nowhere.
#[derive(Debug)]
pub struct LegSetStrategy {
    legs: Vec<LegSpec>,
    underlying: Underlying,
    entered: bool,
    exit: ExitPolicy,
}

impl LegSetStrategy {
    /// The legs, in the order they are opened in.
    pub closed spec fn held(self) -> Seq<LegSpec> {
        self.legs@
    }

    /// The underlying of every leg.
    pub closed spec fn on(self) -> Seq<char> {
        self.underlying@
    }

    /// Whether the legs were opened.
    pub closed spec fn has_opened(self) -> bool {
        self.entered
    }

    /// The exit policy.
    pub closed spec fn policy(self) -> ExitPolicy {
        self.exit
    }

    /// Whether a strategy runs a leg set under an exit policy and has not
    /// opened it.
    pub open spec fn runs(self, spec: LegSetSpec, exit: ExitPolicy) -> bool {
        &&& are_canonical_legs_of(self.held(), spec.legs@)
        &&& self.on() == spec.underlying@
        &&& self.policy() == exit
        &&& !self.has_opened()
    }

    /// Run the leg set of a specification under an exit policy. A
    /// specification of another kind is refused, and the refusal points at the
    /// constructors that take it.
    pub fn from_spec(spec: &StrategySpec, exit: ExitPolicy) -> (r: Result<Self, BacktestError>)
        ensures
            match r {
                Ok(strategy) => {
                    &&& *spec matches StrategySpec::Legs(set)
                    &&& leg_set_runs(set)
                    &&& strategy.runs(set, exit)
                },
                Err(e) => {
                    &&& e.kind() == ErrorKind::Strategy
                    &&& match *spec {
                        StrategySpec::Legs(set) => !leg_set_runs(set),
                        _ => points_at(
                            e,
                            "LegSetStrategy::from_spec"@,
                            *spec,
                            "build it with OptStratAdapter::from_spec"@,
                        ),
                    }
                },
            },
    {
        match spec {
            StrategySpec::Legs(inner) => LegSetStrategy::new(inner, exit),
            _ => Err(
                wrong_kind(
                    "LegSetStrategy::from_spec",
                    spec,
                    "build it with OptStratAdapter::from_spec",
                ),
            ),
        }
    }

    /// Run a leg set under an exit policy.
    pub fn new(spec: &LegSetSpec, exit: ExitPolicy) -> (r: Result<Self, BacktestError>)
        ensures
            match r {
                Ok(strategy) => leg_set_runs(*spec) && strategy.runs(*spec, exit),
                Err(e) => e.kind() == ErrorKind::Strategy && !leg_set_runs(*spec),
            },
    {
        if spec.legs.len() == 0 {
            return Err(
                BacktestError::Strategy(String::from_str("a leg set must carry at least one leg")),
            );
        }
        match positive_rate(spec.dividend_yield, "leg set dividend yield") {
            Ok(_) => {},
            Err(e) => {
                return Err(e);
            },
        }
        let mut i: usize = 0;
        while i < spec.legs.len()
            invariant
                i <= spec.legs.len(),
                forall|k: int| 0 <= k < i ==> (#[trigger] spec.legs@[k]).implied_volatility@ >= 0,
            decreases spec.legs.len() - i,
        {
            match positive_rate(spec.legs[i].implied_volatility, "leg set implied volatility") {
                Ok(_) => {},
                Err(e) => {
                    assert(spec.legs@[i as int].implied_volatility@ < 0);
                    return Err(e);
                },
            }
            i = i + 1;
        }
        Ok(
            LegSetStrategy {
                legs: sorted_legs(&spec.legs),
                underlying: spec.underlying.clone(),
                entered: false,
                exit,
            },
        )
    }

    /// Whether the legs were opened.
    pub fn has_entered(&self) -> (b: bool)
        ensures
            b == self.has_opened(),
    {
        self.entered
    }

    /// The same strategy, with its legs opened or not.
    pub closed spec fn with_opened(self, opened: bool) -> Self {
        LegSetStrategy { entered: opened, ..self }
    }

    /// What opening the legs does: once they were opened, nothing more.
    pub open spec fn opens(
        before: Self,
        after: Self,
        snapshot: ChainSnapshot,
        out: Seq<OrderCommand>,
        out2: Seq<OrderCommand>,
        error: Option<BacktestError>,
    ) -> bool {
        let (cmds, kind) = set_entries(snapshot, before.held());
        &&& after.held() == before.held()
        &&& after.on() == before.on()
        &&& after.policy() == before.policy()
        &&& after == before.with_opened(after.has_opened())
        &&& if before.has_opened() {
            error is None && after.has_opened() && out2 == out
        } else if snapshot.underlying@ != before.on() {
            &&& kind_of(error) == Some(ErrorKind::Execution)
            &&& !after.has_opened()
            &&& out2 == out
        } else {
            &&& out2 == out + cmds
            &&& kind_of(error) == kind
            &&& after.has_opened() == (kind is None)
        }
    }

    /// Append the orders that open the legs, unless they were opened before.
    pub fn open_entries(&mut self, snapshot: &ChainSnapshot, out: &mut Vec<OrderCommand>) -> (r:
        Result<(), BacktestError>)
        ensures
            Self::opens(*old(self), *final(self), *snapshot, old(out)@, final(out)@, refusal(r)),
    {
        if self.entered {
            return Ok(());
        }
        if snapshot.underlying != self.underlying {
            return Err(
                BacktestError::Execution(
                    String::from_str("leg set underlying ").concat(
                        self.underlying.as_str(),
                    ).concat(" is not the snapshot underlying ").concat(
                        snapshot.underlying.as_str(),
                    ),
                ),
            );
        }
        let mut i: usize = 0;
        proof {
            assert(self.legs@.take(0) =~= Seq::<LegSpec>::empty());
            assert(old(out)@ + Seq::<OrderCommand>::empty() =~= out@);
        }
        while i < self.legs.len()
            invariant
                i <= self.legs.len(),
                *self == *old(self),
                !self.entered,
                snapshot.underlying@ == self.underlying@,
                set_entries(*snapshot, self.legs@.take(i as int)).1 is None,
                out@ == old(out)@ + set_entries(*snapshot, self.legs@.take(i as int)).0,
            decreases self.legs.len() - i,
        {
            assert(self.legs@.take(i + 1).drop_last() =~= self.legs@.take(i as int));
            let ghost before = set_entries(*snapshot, self.legs@.take(i as int)).0;
            let leg: LegSpec = self.legs[i];
            match select_leg_set_quote(snapshot, &leg) {
                Ok(quote) => {
                    let cmd = open_command(quote, leg.side, leg.quantity);
                    out.push(cmd);
                    assert(out@ =~= old(out)@ + before.push(cmd));
                },
                Err(e) => {
                    proof {
                        lemma_set_entries_stop(*snapshot, self.legs@, i + 1);
                    }
                    return Err(e);
                },
            }
            i = i + 1;
        }
        assert(self.legs@.take(self.legs@.len() as int) =~= self.legs@);
        self.entered = true;
        Ok(())
    }
}

impl Strategy for LegSetStrategy {
    open spec fn may_start(d: Decision<Self>) -> bool {
        d.rng_after == d.rng && Self::opens(
            d.before,
            d.after,
            d.seen.snapshot,
            d.out,
            d.out_after,
            d.error,
        )
    }

    open spec fn may_exit(d: Decision<Self>) -> bool {
        exits_by(d.before.policy(), d)
    }

    open spec fn may_act(d: Decision<Self>) -> bool {
        d.is_idle()
    }

    open spec fn may_end(d: Decision<Self>) -> bool {
        ends_flat(d)
    }

    open spec fn may_give(self, reason: ExitReason) -> bool {
        is_reason_of(reason, self.policy())
    }

    fn on_start(&mut self, ctx: &mut ChainContext, out: &mut Vec<OrderCommand>) -> (r: Result<
        (),
        BacktestError,
    >)
        ensures
            *final(ctx) == *old(ctx),
    {
        self.open_entries(ctx.snapshot, out)
    }

    fn exits(&mut self, ctx: &ChainContext, out: &mut Vec<OrderCommand>) -> (r: Result<
        (),
        BacktestError,
    >) {
        evaluate_exits(&self.exit, ctx.snapshot, ctx.open, ctx.marks, ctx.step, out)
    }

    /// Nothing: the legs are opened at the start alone, so that the snapshot
    /// which a relative expiration is resolved against is the first one.
    fn on_snapshot(&mut self, ctx: &mut ChainContext, out: &mut Vec<OrderCommand>) -> (r: Result<
        (),
        BacktestError,
    >)
        ensures
            *final(ctx) == *old(ctx),
    {
        Ok(())
    }

    fn on_end(&mut self, ctx: &mut ChainContext, out: &mut Vec<OrderCommand>) -> (r: Result<
        (),
        BacktestError,
    >)
        ensures
            *final(ctx) == *old(ctx),
    {
        close_all(ctx.open, ctx.pending, ctx.snapshot, out)
    }

    fn exit_reason(&self) -> (reason: ExitReason)
        ensures
            is_reason_of(reason, self.policy()),
    {
        exit_policy_to_reason(&self.exit)
    }
}

/// A leg set draws on nothing but what it is shown: what it makes of a call is
/// determined.
pub proof fn law_leg_set_is_determined()
    ensures
        strategy_is_determined::<LegSetStrategy>(),
{
}

/// The orders that open a leg set do not depend on the order in which its legs
/// were written.
pub proof fn law_written_order_is_not_run(
    a: LegSetSpec,
    b: LegSetSpec,
    run_a: LegSetStrategy,
    run_b: LegSetStrategy,
    exit: ExitPolicy,
    snapshot: ChainSnapshot,
)
    requires
        a.legs@.to_multiset() == b.legs@.to_multiset(),
        run_a.runs(a, exit),
        run_b.runs(b, exit),
    ensures
        run_a.held() == run_b.held(),
        set_entries(snapshot, run_a.held()) == set_entries(snapshot, run_b.held()),
{
    lemma_sorted_once(run_a.held(), run_b.held());
}

/// Where every leg of a set is quoted there is one opening order per leg, each
/// in the leg's own contract and quantity.
pub proof fn law_every_leg_is_opened(snapshot: ChainSnapshot, legs: Seq<LegSpec>)
    requires
        set_entries(snapshot, legs).1 is None,
    ensures
        set_entries(snapshot, legs).0.len() == legs.len(),
        forall|i: int|
            0 <= i < legs.len() ==> leg_set_quote(snapshot, #[trigger] legs[i]) is Ok
                && set_entries(snapshot, legs).0[i] == open_of(
                leg_set_quote(snapshot, legs[i])->Ok_0,
                legs[i].side,
                legs[i].quantity,
            ),
    decreases legs.len(),
{
    if legs.len() > 0 {
        let rest = legs.drop_last();
        law_every_leg_is_opened(snapshot, rest);
        let (cmds, _) = set_entries(snapshot, rest);
        assert forall|i: int| 0 <= i < legs.len() implies leg_set_quote(
            snapshot,
            #[trigger] legs[i],
        ) is Ok && set_entries(snapshot, legs).0[i] == open_of(
            leg_set_quote(snapshot, legs[i])->Ok_0,
            legs[i].side,
            legs[i].quantity,
        ) by {
            if i < rest.len() {
                assert(rest[i] == legs[i]);
                assert(set_entries(snapshot, legs).0[i] == cmds[i]);
            }
        }
    }
}

/// A leg set is opened once and on its own underlying: the first time in full,
/// each leg on its own side and in its own size behind the commands that stood
/// before, and never again. What could not be opened was not opened.
pub proof fn law_leg_set_opens_once(
    before: LegSetStrategy,
    after: LegSetStrategy,
    snapshot: ChainSnapshot,
    out: Seq<OrderCommand>,
    out2: Seq<OrderCommand>,
    error: Option<BacktestError>,
    i: int,
)
    requires
        LegSetStrategy::opens(before, after, snapshot, out, out2, error),
    ensures
        after.held() == before.held(),
        after.on() == before.on(),
        after.policy() == before.policy(),
        out.is_prefix_of(out2),
        before.has_opened() ==> after.has_opened() && out2 == out && error is None,
        error is Some ==> !after.has_opened(),
        !before.has_opened() && snapshot.underlying@ != before.on() ==> kind_of(error) == Some(
            ErrorKind::Execution,
        ) && out2 == out,
        !before.has_opened() && error is None ==> {
            let legs = before.held();
            &&& after.has_opened()
            &&& out2.len() == out.len() + legs.len()
            &&& 0 <= i < legs.len() ==> {
                &&& out2[out.len() + i] matches OrderCommand::Submit(intent)
                &&& intent.action is Open
                &&& intent.side == legs[i].side
                &&& intent.quantity == legs[i].quantity
                &&& intent.limit is None
                &&& intent.tif is Ioc
            }
        },
{
    if !before.has_opened() && error is None {
        law_every_leg_is_opened(snapshot, before.held());
        if 0 <= i < before.held().len() {
            assert(leg_set_quote(snapshot, before.held()[i]) is Ok);
        }
    }
}

/// A leg set runs when it holds a leg and no rate of it is below zero.
pub proof fn law_leg_set_needs_legs_and_rates(spec: LegSetSpec, i: int)
    ensures
        spec.legs@.len() == 0 ==> !leg_set_runs(spec),
        spec.dividend_yield@ < 0 ==> !leg_set_runs(spec),
        0 <= i < spec.legs@.len() && spec.legs@[i].implied_volatility@ < 0 ==> !leg_set_runs(spec),
        spec.legs@.len() > 0 && spec.dividend_yield@ >= 0 && (forall|k: int|
            0 <= k < spec.legs@.len() ==> (#[trigger] spec.legs@[k]).implied_volatility@ >= 0)
            ==> leg_set_runs(spec),
{
    if 0 <= i < spec.legs@.len() {
        assert(spec.legs@[i] == spec.legs@[i]);
    }
}

/// A leg set enters as long as each of its legs is quoted, and what was quoted
/// before the first that is not stays asked for.
pub proof fn law_set_entry_fails_with_a_leg_alone(
    snapshot: ChainSnapshot,
    legs: Seq<LegSpec>,
    leg: LegSpec,
)
    ensures
        (forall|i: int| 0 <= i < legs.len() ==> leg_set_quote(snapshot, #[trigger] legs[i]) is Ok)
            ==> set_entries(snapshot, legs).1 is None,
        set_entries(snapshot, legs).0.is_prefix_of(set_entries(snapshot, legs.push(leg)).0),
        set_entries(snapshot, legs).1 is None && leg_set_quote(snapshot, leg) is Err
            ==> set_entries(snapshot, legs.push(leg)).1 is Some,
    decreases legs.len(),
{
    assert(legs.push(leg).drop_last() =~= legs);
    if legs.len() > 0 {
        let front = legs.drop_last();
        law_set_entry_fails_with_a_leg_alone(snapshot, front, leg);
        assert(legs[legs.len() - 1] == legs.last());
        if forall|i: int|
            0 <= i < legs.len() ==> leg_set_quote(snapshot, #[trigger] legs[i]) is Ok {
            assert forall|i: int| 0 <= i < front.len() implies leg_set_quote(
                snapshot,
                #[trigger] front[i],
            ) is Ok by {
                assert(front[i] == legs[i]);
            }
        }
    }
}

} // verus!
