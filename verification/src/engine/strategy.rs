//! The seam to the strategies.
//!
//! A strategy decides; it does not price and does not execute. Each callback
//! appends commands to a buffer that the replay loop owns.

use crate::domain::contract::KeyView;
use crate::domain::{
    ChainSnapshot, ContractMap, OpenPosition, OrderCommand, PendingOrder, PriceCents, StepIndex,
};
use crate::engine::exit::ExitReason;
use crate::error::{refusal, BacktestError};
use rand_chacha::rand_core::SeedableRng;
use rand_chacha::ChaCha8Rng;
use vstd::prelude::*;
use vstd::string::*;

verus! {

/// The generator of `rand_chacha` that a run draws its random numbers from.
#[verifier::external_type_specification]
#[verifier::external_body]
pub struct ExChaCha8Rng(ChaCha8Rng);

/// The generator that `ChaCha8Rng::seed_from_u64` makes of a seed.
pub uninterp spec fn generator_of(seed: u64) -> ChaCha8Rng;

/// Make a generator by `SeedableRng::seed_from_u64` of `ChaCha8Rng`: its state
/// depends on the seed alone.
#[verifier::external_body]
pub(crate) fn seeded_generator(seed: u64) -> (rng: ChaCha8Rng)
    ensures
        rng == generator_of(seed),
{
    ChaCha8Rng::seed_from_u64(seed)
}

/// What a strategy sees of a step.
pub struct ChainContext<'a> {
    /// The snapshot of the step, the only market state that it may read.
    pub snapshot: &'a ChainSnapshot,
    /// The open legs, in the order they were opened.
    pub open: &'a [OpenPosition],
    /// The strategy's own resting orders.
    pub pending: &'a [PendingOrder],
    /// The last known mid of each contract marked so far.
    pub marks: &'a ContractMap<PriceCents>,
    /// The run's only source of random numbers.
    pub rng: &'a mut ChaCha8Rng,
    /// The step.
    pub step: StepIndex,
}

/// What a strategy sees of a step, apart from the generator.
pub struct Seen {
    /// The snapshot.
    pub snapshot: ChainSnapshot,
    /// The open legs.
    pub open: Seq<OpenPosition>,
    /// The resting orders.
    pub pending: Seq<PendingOrder>,
    /// The last known mids.
    pub marks: Map<KeyView, PriceCents>,
    /// The step.
    pub step: StepIndex,
}

impl<'a> ChainContext<'a> {
    /// What the context shows, apart from the generator.
    pub open spec fn seen(self) -> Seen {
        Seen {
            snapshot: *self.snapshot,
            open: self.open@,
            pending: self.pending@,
            marks: self.marks@,
            step: self.step,
        }
    }

    /// The generator as it stands.
    pub open spec fn generator(self) -> ChaCha8Rng {
        *self.rng
    }
}

/// One call of a strategy: what it was given and what it made of it.
pub struct Decision<S> {
    /// The strategy before the call.
    pub before: S,
    /// The strategy after the call.
    pub after: S,
    /// What it saw.
    pub seen: Seen,
    /// The generator before the call.
    pub rng: ChaCha8Rng,
    /// The generator after the call.
    pub rng_after: ChaCha8Rng,
    /// The commands before the call.
    pub out: Seq<OrderCommand>,
    /// The commands after the call.
    pub out_after: Seq<OrderCommand>,
    /// The error, where the call failed.
    pub error: Option<BacktestError>,
}

impl<S> Decision<S> {
    /// Whether the call did nothing.
    pub open spec fn is_idle(self) -> bool {
        &&& self.after == self.before
        &&& self.rng_after == self.rng
        &&& self.out_after == self.out
        &&& self.error is None
    }
}

/// Whether a reason is the one to record where a strategy has none of its own.
pub open spec fn is_default_reason(reason: ExitReason) -> bool {
    reason matches ExitReason::Other(text) && text@ == "exit_policy"@
}

/// The reason that a strategy without one of its own gives for its exits.
pub fn default_exit_reason() -> (reason: ExitReason)
    ensures
        is_default_reason(reason),
{
    ExitReason::Other(String::from_str("exit_policy"))
}

/// A strategy, as the replay loop drives it.
///
/// Each strategy says for itself what its callbacks may do, as a relation over
/// what they are given and what they make of it; a strategy that says nothing
/// may do anything. The replay loop is proved for whatever it says.
pub trait Strategy: Sized {
    /// What `on_start` may do.
    open spec fn may_start(d: Decision<Self>) -> bool {
        true
    }

    /// What `exits` may do.
    open spec fn may_exit(d: Decision<Self>) -> bool {
        true
    }

    /// What `on_snapshot` may do.
    open spec fn may_act(d: Decision<Self>) -> bool {
        true
    }

    /// What `on_end` may do.
    open spec fn may_end(d: Decision<Self>) -> bool {
        true
    }

    /// What `exit_reason` may give.
    open spec fn may_give(self, reason: ExitReason) -> bool {
        true
    }

    /// Called once before the first step. Appends opening orders only.
    fn on_start(&mut self, ctx: &mut ChainContext, out: &mut Vec<OrderCommand>) -> (r: Result<
        (),
        BacktestError,
    >)
        ensures
            *final(final(ctx).rng) == *final(old(ctx).rng),
            Self::may_start(
                (Decision {
                    before: *old(self),
                    after: *final(self),
                    seen: old(ctx).seen(),
                    rng: *old(ctx).rng,
                    rng_after: *final(ctx).rng,
                    out: old(out)@,
                    out_after: final(out)@,
                    error: refusal(r),
                }),
            ),
    ;

    /// Called each step before `on_snapshot`. Appends closing orders only; a
    /// strategy that never exits by itself appends none.
    fn exits(&mut self, ctx: &ChainContext, out: &mut Vec<OrderCommand>) -> (r: Result<
        (),
        BacktestError,
    >)
        ensures
            Self::may_exit(
                (Decision {
                    before: *old(self),
                    after: *final(self),
                    seen: ctx.seen(),
                    rng: ctx.generator(),
                    rng_after: ctx.generator(),
                    out: old(out)@,
                    out_after: final(out)@,
                    error: refusal(r),
                }),
            ),
    ;

    /// Called once per step, after `exits`. Appends entries and adjustments.
    fn on_snapshot(&mut self, ctx: &mut ChainContext, out: &mut Vec<OrderCommand>) -> (r: Result<
        (),
        BacktestError,
    >)
        ensures
            *final(final(ctx).rng) == *final(old(ctx).rng),
            Self::may_act(
                (Decision {
                    before: *old(self),
                    after: *final(self),
                    seen: old(ctx).seen(),
                    rng: *old(ctx).rng,
                    rng_after: *final(ctx).rng,
                    out: old(out)@,
                    out_after: final(out)@,
                    error: refusal(r),
                }),
            ),
    ;

    /// Called once within the final step. Appends closing orders only.
    fn on_end(&mut self, ctx: &mut ChainContext, out: &mut Vec<OrderCommand>) -> (r: Result<
        (),
        BacktestError,
    >)
        ensures
            *final(final(ctx).rng) == *final(old(ctx).rng),
            Self::may_end(
                (Decision {
                    before: *old(self),
                    after: *final(self),
                    seen: old(ctx).seen(),
                    rng: *old(ctx).rng,
                    rng_after: *final(ctx).rng,
                    out: old(out)@,
                    out_after: final(out)@,
                    error: refusal(r),
                }),
            ),
    ;

    /// The reason to record for what `exits` closes. A strategy without one of
    /// its own gives `default_exit_reason`.
    fn exit_reason(&self) -> (reason: ExitReason)
        ensures
            self.may_give(reason),
    ;
}

/// A strategy without a reason of its own says that its policy closed.
pub proof fn law_default_reason_is_told(reason: ExitReason)
    requires
        is_default_reason(reason),
    ensures
        reason matches ExitReason::Other(text) && text@ == seq![
            'e',
            'x',
            'i',
            't',
            '_',
            'p',
            'o',
            'l',
            'i',
            'c',
            'y',
        ],
{
    reveal_strlit("exit_policy");
    assert("exit_policy"@ =~= seq!['e', 'x', 'i', 't', '_', 'p', 'o', 'l', 'i', 'c', 'y']);
}

} // verus!
