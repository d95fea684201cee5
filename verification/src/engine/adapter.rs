//! The adapter that drives a strategy with given legs through the replay loop.

use crate::domain::decimal::{hundredfold_fits, lemma_pow10_positive, pow10, Decimal};
use crate::domain::money::{
    dollars_in_cents, law_price_is_the_nearest_cent, lemma_half_even_bounds,
};
use crate::domain::expiration::ExpirationDate;
use crate::domain::strategy_spec::{IronCondorSpec, ShortStrangleSpec};
use crate::domain::{
    ChainSnapshot, OptionStyle, OrderCommand, OrderId, OrderIntent, PendingOrder, PriceCents,
    Quantity, Side, StrategySpec,
};
use crate::engine::closing::{close_all, ends_flat, evaluate_exits, exits_by};
use crate::engine::entry::{
    leg_quote, open_command, open_of, quantity_from_positive, quantity_of, select_leg_quote,
};
use crate::engine::exit::ExitReason;
use crate::engine::exit_policy::{exit_policy_to_reason, is_reason_of, ExitPolicy};
use crate::engine::named::{
    build_iron_condor, build_short_strangle, condor_buildable, condor_legs, condor_terms,
    contracts_of, dollars_of, law_quantities_survive, law_strikes_survive_dollars, leg_of,
    lemma_dollars_are_positive, strangle_buildable, strangle_legs, strangle_numbers,
    strangle_strikes, strangle_terms, struck, IronCondor, PositionableStrategy, ShortStrangle,
    StrategyLeg,
};
use crate::engine::replay_laws::strategy_is_determined;
use crate::engine::strategy::{ChainContext, Decision, Strategy};
use crate::error::{kind_of, refusal, BacktestError, ErrorKind};
use crate::text::unsigned_text;
use vstd::prelude::*;
use vstd::string::*;

verus! {

/// The strike of a leg in cents.
pub open spec fn strike_of(d: Decimal) -> Result<PriceCents, ErrorKind> {
    if d@ < 0 {
        Err(ErrorKind::Conversion)
    } else if !hundredfold_fits(d) {
        Err(ErrorKind::ArithmeticOverflow)
    } else if dollars_in_cents(d) > u64::MAX {
        Err(ErrorKind::Conversion)
    } else {
        Ok(PriceCents(dollars_in_cents(d) as u64))
    }
}

/// The order that opens a leg against a snapshot.
pub open spec fn entry_of(snapshot: ChainSnapshot, leg: StrategyLeg) -> Result<
    OrderCommand,
    ErrorKind,
> {
    match strike_of(leg.strike.dec()) {
        Err(kind) => Err(kind),
        Ok(strike) => match leg_quote(snapshot, strike, leg.style, leg.expiration) {
            None => Err(ErrorKind::Execution),
            Some(quote) => match quantity_of(leg.quantity) {
                Err(kind) => Err(kind),
                Ok(quantity) => Ok(open_of(quote, leg.side, quantity)),
            },
        },
    }
}

/// The order that opens a leg against a snapshot.
fn entry_command(snapshot: &ChainSnapshot, leg: &StrategyLeg) -> (r: Result<
    OrderCommand,
    BacktestError,
>)
    ensures
        match r {
            Ok(cmd) => entry_of(*snapshot, *leg) == Ok::<OrderCommand, ErrorKind>(cmd),
            Err(e) => entry_of(*snapshot, *leg) == Err::<OrderCommand, ErrorKind>(e.kind()),
        },
{
    let strike = match PriceCents::from_decimal_dollars(leg.strike.to_dec()) {
        Ok(strike) => strike,
        Err(e) => {
            return Err(e);
        },
    };
    assert(strike_of(leg.strike.dec()) == Ok::<PriceCents, ErrorKind>(strike));
    let quote = match select_leg_quote(snapshot, strike, leg.style, leg.expiration) {
        Ok(quote) => quote,
        Err(e) => {
            return Err(e);
        },
    };
    let quantity = match quantity_from_positive(leg.quantity) {
        Ok(quantity) => quantity,
        Err(e) => {
            return Err(e);
        },
    };
    Ok(open_command(quote, leg.side, quantity))
}

/// The orders that open some legs, one per leg and in their order, up to the
/// first leg that cannot be opened.
pub open spec fn entries_of(snapshot: ChainSnapshot, legs: Seq<StrategyLeg>) -> (
    Seq<OrderCommand>,
    Option<ErrorKind>,
)
    decreases legs.len(),
{
    if legs.len() == 0 {
        (Seq::empty(), None)
    } else {
        let (cmds, error) = entries_of(snapshot, legs.drop_last());
        if error is Some {
            (cmds, error)
        } else {
            match entry_of(snapshot, legs.last()) {
                Ok(cmd) => (cmds.push(cmd), None),
                Err(kind) => (cmds, Some(kind)),
            }
        }
    }
}

/// A leg that cannot be opened ends the entry.
proof fn lemma_entries_stop(snapshot: ChainSnapshot, legs: Seq<StrategyLeg>, k: int)
    requires
        0 <= k <= legs.len(),
        entries_of(snapshot, legs.take(k)).1 is Some,
    ensures
        entries_of(snapshot, legs) == entries_of(snapshot, legs.take(k)),
    decreases legs.len(),
{
    if k < legs.len() {
        assert(legs.drop_last().take(k) =~= legs.take(k));
        lemma_entries_stop(snapshot, legs.drop_last(), k);
    } else {
        assert(legs.take(k) =~= legs);
    }
}

/// Append the orders that open some legs. The orders before the first leg that
/// cannot be opened stay.
pub fn open_legs(snapshot: &ChainSnapshot, legs: &Vec<StrategyLeg>, out: &mut Vec<OrderCommand>)
    -> (r: Result<(), BacktestError>)
    ensures
        ({
            let (cmds, error) = entries_of(*snapshot, legs@);
            &&& final(out)@ == old(out)@ + cmds
            &&& match r {
                Ok(_) => error is None,
                Err(e) => error == Some(e.kind()),
            }
        }),
{
    let mut i: usize = 0;
    proof {
        assert(legs@.take(0) =~= Seq::<StrategyLeg>::empty());
        assert(old(out)@ + Seq::<OrderCommand>::empty() =~= out@);
    }
    while i < legs.len()
        invariant
            i <= legs.len(),
            entries_of(*snapshot, legs@.take(i as int)).1 is None,
            out@ == old(out)@ + entries_of(*snapshot, legs@.take(i as int)).0,
        decreases legs.len() - i,
    {
        assert(legs@.take(i + 1).drop_last() =~= legs@.take(i as int));
        let ghost before = entries_of(*snapshot, legs@.take(i as int)).0;
        match entry_command(snapshot, &legs[i]) {
            Ok(cmd) => {
                out.push(cmd);
                assert(out@ =~= old(out)@ + before.push(cmd));
            },
            Err(e) => {
                proof {
                    lemma_entries_stop(*snapshot, legs@, i + 1);
                }
                return Err(e);
            },
        }
        i = i + 1;
    }
    assert(legs@.take(legs@.len() as int) =~= legs@);
    Ok(())
}

/// Whether an order is among some resting orders.
pub open spec fn owns(pending: Seq<PendingOrder>, order_id: OrderId) -> bool {
    exists|i: int| 0 <= i < pending.len() && (#[trigger] pending[i]).order_id == order_id
}

/// Refuse an order that is not among the strategy's resting orders.
fn assert_owned(pending: &[PendingOrder], order_id: OrderId) -> (r: Result<(), BacktestError>)
    ensures
        match r {
            Ok(_) => owns(pending@, order_id),
            Err(e) => !owns(pending@, order_id) && e.kind() == ErrorKind::Execution,
        },
{
    let mut i: usize = 0;
    while i < pending.len()
        invariant
            i <= pending.len(),
            forall|k: int| 0 <= k < i ==> (#[trigger] pending@[k]).order_id != order_id,
        decreases pending.len() - i,
    {
        if pending[i].order_id.0 == order_id.0 {
            assert(pending@[i as int].order_id == order_id);
            return Ok(());
        }
        i = i + 1;
    }
    Err(
        BacktestError::Execution(
            String::from_str("order ").concat(&unsigned_text(order_id.0 as u128)).concat(
                " is not a resting strategy order; a strategy may only cancel or replace its own orders",
            ),
        ),
    )
}

/// The adapter that drives a strategy with given legs: it opens them once,
/// closes them as the exit policy says, and closes what is left at the end.
#[derive(Debug)]
pub struct OptStratAdapter<S: PositionableStrategy> {
    inner: S,
    entered: bool,
    exit: ExitPolicy,
}

impl<S: PositionableStrategy> OptStratAdapter<S> {
    /// The strategy.
    pub closed spec fn strategy(self) -> S {
        self.inner
    }

    /// Whether its legs were opened.
    pub closed spec fn has_opened(self) -> bool {
        self.entered
    }

    /// The exit policy.
    pub closed spec fn policy(self) -> ExitPolicy {
        self.exit
    }

    /// Drive a strategy under an exit policy.
    pub fn new(inner: S, exit: ExitPolicy) -> (adapter: Self)
        ensures
            adapter.strategy() == inner,
            adapter.policy() == exit,
            !adapter.has_opened(),
    {
        OptStratAdapter { inner, entered: false, exit }
    }

    /// Whether its legs were opened.
    pub fn has_entered(&self) -> (b: bool)
        ensures
            b == self.has_opened(),
    {
        self.entered
    }

    /// Append a cancel of one of the strategy's own resting orders.
    pub fn request_cancel(
        &self,
        ctx: &ChainContext,
        order_id: OrderId,
        out: &mut Vec<OrderCommand>,
    ) -> (r: Result<(), BacktestError>)
        ensures
            match r {
                Ok(_) => owns(ctx.pending@, order_id) && final(out)@ == old(out)@.push(
                    OrderCommand::Cancel(order_id),
                ),
                Err(e) => !owns(ctx.pending@, order_id) && final(out)@ == old(out)@ && e.kind()
                    == ErrorKind::Execution,
            },
    {
        match assert_owned(ctx.pending, order_id) {
            Ok(_) => {
                out.push(OrderCommand::Cancel(order_id));
                Ok(())
            },
            Err(e) => Err(e),
        }
    }

    /// Append a replacement of one of the strategy's own resting orders.
    pub fn request_replace(
        &self,
        ctx: &ChainContext,
        order_id: OrderId,
        replacement: OrderIntent,
        out: &mut Vec<OrderCommand>,
    ) -> (r: Result<(), BacktestError>)
        ensures
            match r {
                Ok(_) => owns(ctx.pending@, order_id) && final(out)@ == old(out)@.push(
                    (OrderCommand::Replace { order_id, replacement }),
                ),
                Err(e) => !owns(ctx.pending@, order_id) && final(out)@ == old(out)@ && e.kind()
                    == ErrorKind::Execution,
            },
    {
        match assert_owned(ctx.pending, order_id) {
            Ok(_) => {
                out.push(OrderCommand::Replace { order_id, replacement });
                Ok(())
            },
            Err(e) => Err(e),
        }
    }

    /// What opening the legs does: once they were opened, nothing more.
    pub open spec fn opens(
        before: Self,
        after: Self,
        snapshot: ChainSnapshot,
        out: Seq<OrderCommand>,
        out2: Seq<OrderCommand>,
        error: Option<BacktestError>,
    ) -> bool {
        &&& after.strategy() == before.strategy()
        &&& after.policy() == before.policy()
        &&& if before.has_opened() {
            error is None && after.has_opened() && out2 == out
        } else {
            match before.strategy().legs() {
                None => {
                    &&& kind_of(error) == Some(ErrorKind::Strategy)
                    &&& !after.has_opened()
                    &&& out2 == out
                },
                Some(legs) => {
                    let (cmds, kind) = entries_of(snapshot, legs);
                    &&& out2 == out + cmds
                    &&& kind_of(error) == kind
                    &&& after.has_opened() == (kind is None && legs.len() > 0)
                },
            }
        }
    }

    /// Append the orders that open the legs, unless they were opened before.
    pub fn open_entries(&mut self, snapshot: &ChainSnapshot, out: &mut Vec<OrderCommand>) -> (r:
        Result<(), BacktestError>)
        ensures
            Self::opens(*old(self), *final(self), *snapshot, old(out)@, final(out)@, refusal(r)),
    {
        if self.entered {
            return Ok(());
        }
        let legs = match self.inner.get_positions() {
            Ok(legs) => legs,
            Err(e) => {
                return Err(e);
            },
        };
        match open_legs(snapshot, &legs, out) {
            Ok(_) => {},
            Err(e) => {
                return Err(e);
            },
        }
        if legs.len() > 0 {
            self.entered = true;
        }
        Ok(())
    }
}

/// Whether an error refuses a specification of another kind, and points at the
/// constructor that takes it.
pub open spec fn points_at(
    e: BacktestError,
    what: Seq<char>,
    spec: StrategySpec,
    constructor: Seq<char>,
) -> bool {
    e matches BacktestError::Strategy(text) && text@ == what + " received a "@ + spec.kind_text()
        + " spec; "@ + constructor
}

/// The refusal of a specification of another kind, which points at the
/// constructor that takes it.
pub(crate) fn wrong_kind(what: &str, spec: &StrategySpec, constructor: &str) -> (e: BacktestError)
    ensures
        points_at(e, what@, *spec, constructor@),
{
    BacktestError::Strategy(
        String::from_str(what).concat(" received a ").concat(spec.kind()).concat(" spec; ").concat(
            constructor,
        ),
    )
}

impl OptStratAdapter<IronCondor> {
    /// Drive the iron condor of a specification under an exit policy. A
    /// specification of another kind is refused, and the refusal points at the
    /// constructor that takes it.
    pub fn from_spec(spec: &StrategySpec, exit: ExitPolicy) -> (r: Result<Self, BacktestError>)
        ensures
            match r {
                Ok(adapter) => {
                    &&& *spec matches StrategySpec::IronCondor(condor)
                    &&& condor_buildable(condor)
                    &&& adapter.strategy().terms() == condor_terms(condor)
                    &&& adapter.policy() == exit
                    &&& !adapter.has_opened()
                },
                Err(e) => {
                    &&& e.kind() == ErrorKind::Strategy
                    &&& match *spec {
                        StrategySpec::IronCondor(condor) => !condor_buildable(condor),
                        StrategySpec::ShortStrangle(_) => points_at(
                            e,
                            "OptStratAdapter::<IronCondor>::from_spec"@,
                            *spec,
                            "build it with OptStratAdapter::<ShortStrangle>::from_spec"@,
                        ),
                        StrategySpec::Legs(_) => points_at(
                            e,
                            "OptStratAdapter::<IronCondor>::from_spec"@,
                            *spec,
                            "an explicit leg set has no upstream strategy object — build it with LegSetStrategy::from_spec"@,
                        ),
                    }
                },
            },
    {
        match spec {
            StrategySpec::IronCondor(inner) => match build_iron_condor(inner) {
                Ok(condor) => Ok(OptStratAdapter::<IronCondor>::new(condor, exit)),
                Err(e) => Err(e),
            },
            StrategySpec::ShortStrangle(_) => Err(
                wrong_kind(
                    "OptStratAdapter::<IronCondor>::from_spec",
                    spec,
                    "build it with OptStratAdapter::<ShortStrangle>::from_spec",
                ),
            ),
            StrategySpec::Legs(_) => Err(
                wrong_kind(
                    "OptStratAdapter::<IronCondor>::from_spec",
                    spec,
                    "an explicit leg set has no upstream strategy object — build it with LegSetStrategy::from_spec",
                ),
            ),
        }
    }
}

impl OptStratAdapter<ShortStrangle> {
    /// Drive the short strangle of a specification under an exit policy. A
    /// specification of another kind is refused, and the refusal points at the
    /// constructor that takes it.
    pub fn from_spec(spec: &StrategySpec, exit: ExitPolicy) -> (r: Result<Self, BacktestError>)
        ensures
            match r {
                Ok(adapter) => {
                    &&& *spec matches StrategySpec::ShortStrangle(strangle)
                    &&& strangle_buildable(strangle)
                    &&& adapter.strategy().terms() == struck(
                        strangle_terms(strangle),
                        strangle_strikes(
                            strangle.underlying@,
                            strangle_numbers(strangle_terms(strangle)),
                        )->0,
                    )
                    &&& strangle.call_strike.0 != 0 && strangle.put_strike.0 != 0
                        ==> adapter.strategy().terms() == strangle_terms(strangle)
                    &&& adapter.policy() == exit
                    &&& !adapter.has_opened()
                },
                Err(e) => {
                    &&& e.kind() == ErrorKind::Strategy
                    &&& match *spec {
                        StrategySpec::ShortStrangle(strangle) => !strangle_buildable(strangle),
                        StrategySpec::IronCondor(_) => points_at(
                            e,
                            "OptStratAdapter::<ShortStrangle>::from_spec"@,
                            *spec,
                            "build it with OptStratAdapter::<IronCondor>::from_spec"@,
                        ),
                        StrategySpec::Legs(_) => points_at(
                            e,
                            "OptStratAdapter::<ShortStrangle>::from_spec"@,
                            *spec,
                            "an explicit leg set has no upstream strategy object — build it with LegSetStrategy::from_spec"@,
                        ),
                    }
                },
            },
    {
        match spec {
            StrategySpec::ShortStrangle(inner) => match build_short_strangle(inner) {
                Ok(strangle) => Ok(OptStratAdapter::<ShortStrangle>::new(strangle, exit)),
                Err(e) => Err(e),
            },
            StrategySpec::IronCondor(_) => Err(
                wrong_kind(
                    "OptStratAdapter::<ShortStrangle>::from_spec",
                    spec,
                    "build it with OptStratAdapter::<IronCondor>::from_spec",
                ),
            ),
            StrategySpec::Legs(_) => Err(
                wrong_kind(
                    "OptStratAdapter::<ShortStrangle>::from_spec",
                    spec,
                    "an explicit leg set has no upstream strategy object — build it with LegSetStrategy::from_spec",
                ),
            ),
        }
    }
}

impl<S: PositionableStrategy> Strategy for OptStratAdapter<S> {
    open spec fn may_start(d: Decision<Self>) -> bool {
        d.rng_after == d.rng && Self::opens(
            d.before,
            d.after,
            d.seen.snapshot,
            d.out,
            d.out_after,
            d.error,
        )
    }

    open spec fn may_exit(d: Decision<Self>) -> bool {
        exits_by(d.before.policy(), d)
    }

    open spec fn may_act(d: Decision<Self>) -> bool {
        d.rng_after == d.rng && Self::opens(
            d.before,
            d.after,
            d.seen.snapshot,
            d.out,
            d.out_after,
            d.error,
        )
    }

    open spec fn may_end(d: Decision<Self>) -> bool {
        ends_flat(d)
    }

    open spec fn may_give(self, reason: ExitReason) -> bool {
        is_reason_of(reason, self.policy())
    }

    fn on_start(&mut self, ctx: &mut ChainContext, out: &mut Vec<OrderCommand>) -> (r: Result<
        (),
        BacktestError,
    >)
        ensures
            *final(ctx) == *old(ctx),
    {
        self.open_entries(ctx.snapshot, out)
    }

    fn exits(&mut self, ctx: &ChainContext, out: &mut Vec<OrderCommand>) -> (r: Result<
        (),
        BacktestError,
    >) {
        evaluate_exits(&self.exit, ctx.snapshot, ctx.open, ctx.marks, ctx.step, out)
    }

    fn on_snapshot(&mut self, ctx: &mut ChainContext, out: &mut Vec<OrderCommand>) -> (r: Result<
        (),
        BacktestError,
    >)
        ensures
            *final(ctx) == *old(ctx),
    {
        self.open_entries(ctx.snapshot, out)
    }

    fn on_end(&mut self, ctx: &mut ChainContext, out: &mut Vec<OrderCommand>) -> (r: Result<
        (),
        BacktestError,
    >)
        ensures
            *final(ctx) == *old(ctx),
    {
        close_all(ctx.open, ctx.pending, ctx.snapshot, out)
    }

    fn exit_reason(&self) -> (reason: ExitReason)
        ensures
            is_reason_of(reason, self.policy()),
    {
        exit_policy_to_reason(&self.exit)
    }
}

/// A named strategy draws on nothing but what it is shown: what it makes of a
/// call is determined.
pub proof fn law_named_strategy_is_determined<P: PositionableStrategy>()
    ensures
        strategy_is_determined::<OptStratAdapter<P>>(),
{
}

/// Where every leg can be opened there is one opening order per leg, in the
/// legs' order.
pub proof fn law_every_leg_is_entered(snapshot: ChainSnapshot, legs: Seq<StrategyLeg>)
    requires
        entries_of(snapshot, legs).1 is None,
    ensures
        entries_of(snapshot, legs).0.len() == legs.len(),
        forall|i: int|
            0 <= i < legs.len() ==> entry_of(snapshot, #[trigger] legs[i]) == Ok::<
                OrderCommand,
                ErrorKind,
            >(entries_of(snapshot, legs).0[i]),
    decreases legs.len(),
{
    if legs.len() > 0 {
        let rest = legs.drop_last();
        law_every_leg_is_entered(snapshot, rest);
        let (cmds, _) = entries_of(snapshot, rest);
        assert forall|i: int| 0 <= i < legs.len() implies entry_of(snapshot, #[trigger] legs[i])
            == Ok::<OrderCommand, ErrorKind>(entries_of(snapshot, legs).0[i]) by {
            if i < rest.len() {
                assert(rest[i] == legs[i]);
                assert(entries_of(snapshot, legs).0[i] == cmds[i]);
            }
        }
    }
}

/// The order that opens a leg with a strike in cents and a whole number of
/// contracts.
pub open spec fn specified_entry(
    snapshot: ChainSnapshot,
    strike: PriceCents,
    style: OptionStyle,
    side: Side,
    quantity: Quantity,
    expiration: ExpirationDate,
) -> Result<OrderCommand, ErrorKind> {
    match leg_quote(snapshot, strike, style, expiration) {
        None => Err(ErrorKind::Execution),
        Some(quote) => Ok(open_of(quote, side, quantity)),
    }
}

/// A leg whose strike and quantity come from cents and a whole number is
/// opened at just that strike and quantity.
proof fn lemma_specified_entry(
    snapshot: ChainSnapshot,
    strike: PriceCents,
    style: OptionStyle,
    side: Side,
    quantity: Quantity,
    expiration: ExpirationDate,
)
    requires
        quantity.wf(),
    ensures
        entry_of(
            snapshot,
            leg_of(dollars_of(strike), style, side, contracts_of(quantity), expiration),
        ) == specified_entry(snapshot, strike, style, side, quantity, expiration),
{
    law_strikes_survive_dollars(strike);
    law_quantities_survive(quantity);
    lemma_dollars_are_positive(strike);
}

/// An iron condor is opened as its specification says: a short call, a short
/// put, a long call and a long put at the strikes and with the quantity that it
/// names, in that order.
pub proof fn law_condor_opens_as_specified(spec: IronCondorSpec, snapshot: ChainSnapshot)
    requires
        spec.quantity.wf(),
    ensures
        ({
            let legs = condor_legs(condor_terms(spec));
            let (q, e) = (spec.quantity, spec.expiration);
            &&& legs.len() == 4
            &&& entry_of(snapshot, legs[0]) == specified_entry(
                snapshot,
                spec.short_call_strike,
                OptionStyle::Call,
                Side::Short,
                q,
                e,
            )
            &&& entry_of(snapshot, legs[1]) == specified_entry(
                snapshot,
                spec.short_put_strike,
                OptionStyle::Put,
                Side::Short,
                q,
                e,
            )
            &&& entry_of(snapshot, legs[2]) == specified_entry(
                snapshot,
                spec.long_call_strike,
                OptionStyle::Call,
                Side::Long,
                q,
                e,
            )
            &&& entry_of(snapshot, legs[3]) == specified_entry(
                snapshot,
                spec.long_put_strike,
                OptionStyle::Put,
                Side::Long,
                q,
                e,
            )
        }),
{
    let (q, e) = (spec.quantity, spec.expiration);
    lemma_specified_entry(snapshot, spec.short_call_strike, OptionStyle::Call, Side::Short, q, e);
    lemma_specified_entry(snapshot, spec.short_put_strike, OptionStyle::Put, Side::Short, q, e);
    lemma_specified_entry(snapshot, spec.long_call_strike, OptionStyle::Call, Side::Long, q, e);
    lemma_specified_entry(snapshot, spec.long_put_strike, OptionStyle::Put, Side::Long, q, e);
}

/// A short strangle is opened as its specification says: a short call and then
/// a short put at the strikes and with the quantity that it names.
pub proof fn law_strangle_opens_as_specified(spec: ShortStrangleSpec, snapshot: ChainSnapshot)
    requires
        spec.quantity.wf(),
    ensures
        ({
            let legs = strangle_legs(strangle_terms(spec));
            let (q, e) = (spec.quantity, spec.expiration);
            &&& legs.len() == 2
            &&& entry_of(snapshot, legs[0]) == specified_entry(
                snapshot,
                spec.call_strike,
                OptionStyle::Call,
                Side::Short,
                q,
                e,
            )
            &&& entry_of(snapshot, legs[1]) == specified_entry(
                snapshot,
                spec.put_strike,
                OptionStyle::Put,
                Side::Short,
                q,
                e,
            )
        }),
{
    let (q, e) = (spec.quantity, spec.expiration);
    lemma_specified_entry(snapshot, spec.call_strike, OptionStyle::Call, Side::Short, q, e);
    lemma_specified_entry(snapshot, spec.put_strike, OptionStyle::Put, Side::Short, q, e);
}

/// A strike is the number of cents nearest to its dollars; one below zero is
/// refused, and so is one that cannot be counted in cents.
pub proof fn law_strike_is_the_nearest_cent(d: Decimal)
    ensures
        match strike_of(d) {
            Ok(strike) => {
                let cent = pow10(26);
                let gap = d@ - strike.0 * cent;
                d@ >= 0 && -cent <= 2 * gap <= cent
            },
            Err(kind) => {
                &&& d@ < 0 ==> kind == ErrorKind::Conversion
                &&& d@ >= 0 ==> !hundredfold_fits(d) || dollars_in_cents(d) > u64::MAX
            },
        },
{
    if d@ >= 0 {
        law_price_is_the_nearest_cent(d);
        lemma_pow10_positive(28);
        lemma_half_even_bounds(d@ * 100, pow10(28));
    }
}

/// Whether a command opens a leg: at the market, on the side and in the number
/// of contracts of the leg.
pub open spec fn opens_leg(cmd: OrderCommand, leg: StrategyLeg) -> bool {
    &&& cmd matches OrderCommand::Submit(intent)
    &&& intent.action is Open
    &&& leg.side is Long ==> intent.side is Long
    &&& leg.side is Short ==> intent.side is Short
    &&& quantity_of(leg.quantity) == Ok::<Quantity, ErrorKind>(intent.quantity)
    &&& intent.limit is None
    &&& intent.tif is Ioc
}

/// A strategy opens its legs once: the first time in full, each leg on its own
/// side and in its own size behind the commands that stood before, and never
/// again. What it could not open it has not opened.
pub proof fn law_named_strategy_opens_once<P: PositionableStrategy>(
    before: OptStratAdapter<P>,
    after: OptStratAdapter<P>,
    snapshot: ChainSnapshot,
    out: Seq<OrderCommand>,
    out2: Seq<OrderCommand>,
    error: Option<BacktestError>,
    i: int,
)
    requires
        OptStratAdapter::<P>::opens(before, after, snapshot, out, out2, error),
    ensures
        after.strategy() == before.strategy(),
        after.policy() == before.policy(),
        out.is_prefix_of(out2),
        before.has_opened() ==> after.has_opened() && out2 == out && error is None,
        error is Some ==> !after.has_opened(),
        !before.has_opened() && error is None ==> {
            &&& before.strategy().legs() matches Some(legs)
            &&& after.has_opened() <==> legs.len() > 0
            &&& out2.len() == out.len() + legs.len()
            &&& 0 <= i < legs.len() ==> opens_leg(out2[out.len() + i], legs[i])
        },
{
    if !before.has_opened() && error is None {
        let legs = before.strategy().legs()->0;
        law_every_leg_is_entered(snapshot, legs);
        if 0 <= i < legs.len() {
            assert(entry_of(snapshot, legs[i]) is Ok);
        }
    }
}

/// A strategy enters as long as each of its legs can be opened, and what could
/// be opened before the first that cannot stays asked for.
pub proof fn law_entry_fails_with_a_leg_alone(
    snapshot: ChainSnapshot,
    legs: Seq<StrategyLeg>,
    leg: StrategyLeg,
)
    ensures
        (forall|i: int| 0 <= i < legs.len() ==> entry_of(snapshot, #[trigger] legs[i]) is Ok)
            ==> entries_of(snapshot, legs).1 is None,
        entries_of(snapshot, legs).0.is_prefix_of(entries_of(snapshot, legs.push(leg)).0),
        entries_of(snapshot, legs).1 is None && entry_of(snapshot, leg) is Err ==> entries_of(
            snapshot,
            legs.push(leg),
        ).1 is Some,
    decreases legs.len(),
{
    assert(legs.push(leg).drop_last() =~= legs);
    if legs.len() > 0 {
        let front = legs.drop_last();
        law_entry_fails_with_a_leg_alone(snapshot, front, leg);
        assert(legs[legs.len() - 1] == legs.last());
        assert forall|i: int| 0 <= i < front.len() implies #[trigger] front[i] == legs[i] by {}
        if forall|i: int| 0 <= i < legs.len() ==> entry_of(snapshot, #[trigger] legs[i]) is Ok {
            assert forall|i: int| 0 <= i < front.len() implies entry_of(
                snapshot,
                #[trigger] front[i],
            ) is Ok by {
                assert(front[i] == legs[i]);
            }
        }
    }
}

} // verus!
