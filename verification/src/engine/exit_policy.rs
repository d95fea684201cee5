//! When a leg is to be closed.

use crate::domain::decimal::{pow10, Decimal, MAX_MANTISSA};
use crate::domain::positive::Positive;
use crate::engine::exit::ExitReason;
use optionstratlib::simulation::{check_exit_policy, ExitPolicy as OutsidePolicy};
use vstd::prelude::*;
use vstd::string::*;

verus! {

/// When a leg is to be closed.
#[derive(Debug)]
pub enum ExitPolicy {
    /// When the profit reaches a fraction of the initial premium.
    ProfitPercent(Decimal),
    /// When the loss reaches a fraction of the initial premium.
    LossPercent(Decimal),
    /// When the premium is at a price.
    FixedPrice(Positive),
    /// When the premium falls to a price.
    MinPrice(Positive),
    /// When the premium rises to a price.
    MaxPrice(Positive),
    /// After a number of steps.
    TimeSteps(usize),
    /// When so many days or fewer are left.
    DaysToExpiration(Positive),
    /// When the delta crosses a threshold. It is not supported and never met.
    DeltaThreshold(Decimal),
    /// When the underlying is at a price.
    UnderlyingPrice(Positive),
    /// When the underlying is below a price.
    UnderlyingBelow(Positive),
    /// When the underlying is above a price.
    UnderlyingAbove(Positive),
    /// When no day is left.
    Expiration,
    /// When all of some policies are met.
    And(Vec<ExitPolicy>),
    /// When one of some policies is met.
    Or(Vec<ExitPolicy>),
}

/// The policies of `optionstratlib`.
#[verifier::external_type_specification]
#[verifier::external_body]
pub struct ExExitPolicy(OutsidePolicy);

impl ExitPolicy {
    /// The same policy as `optionstratlib` writes it, to be handed to an
    /// outside function. Nothing is claimed of what is inside it.
    #[verifier::external_body]
    fn outside(&self) -> (p: OutsidePolicy) {
        match self {
            ExitPolicy::And(all) => OutsidePolicy::And(all.iter().map(|p| p.outside()).collect()),
            ExitPolicy::Or(any) => OutsidePolicy::Or(any.iter().map(|p| p.outside()).collect()),
            ExitPolicy::ProfitPercent(d) => OutsidePolicy::ProfitPercent(d.outside()),
            ExitPolicy::LossPercent(d) => OutsidePolicy::LossPercent(d.outside()),
            ExitPolicy::DeltaThreshold(d) => OutsidePolicy::DeltaThreshold(d.outside()),
            ExitPolicy::TimeSteps(n) => OutsidePolicy::TimeSteps(*n),
            ExitPolicy::Expiration => OutsidePolicy::Expiration,
            other => other.outside_bound(),
        }
    }

    /// The same for the policies that are bounded by a price or by days.
    #[verifier::external_body]
    fn outside_bound(&self) -> (p: OutsidePolicy) {
        match self {
            ExitPolicy::FixedPrice(x) => OutsidePolicy::FixedPrice(x.outside()),
            ExitPolicy::MinPrice(x) => OutsidePolicy::MinPrice(x.outside()),
            ExitPolicy::MaxPrice(x) => OutsidePolicy::MaxPrice(x.outside()),
            ExitPolicy::DaysToExpiration(x) => OutsidePolicy::DaysToExpiration(x.outside()),
            ExitPolicy::UnderlyingPrice(x) => OutsidePolicy::UnderlyingPrice(x.outside()),
            ExitPolicy::UnderlyingBelow(x) => OutsidePolicy::UnderlyingBelow(x.outside()),
            ExitPolicy::UnderlyingAbove(x) => OutsidePolicy::UnderlyingAbove(x.outside()),
            other => other.outside(),
        }
    }
}

/// Whether a policy is decided by `check_exit_policy`: it is neither composed
/// of others nor one of the two that the engine decides itself.
pub open spec fn is_plain(policy: ExitPolicy) -> bool {
    match policy {
        ExitPolicy::And(_) | ExitPolicy::Or(_) | ExitPolicy::Expiration
        | ExitPolicy::DeltaThreshold(_) => false,
        _ => true,
    }
}

/// `1 + pct` or `1 - pct`, in units of the last place of `pct`.
pub open spec fn factor_of(pct: Decimal, grows: bool) -> int {
    if grows {
        pow10(pct.places()) + pct.mant()
    } else {
        pow10(pct.places()) - pct.mant()
    }
}

/// Whether a number of digits fits a decimal.
pub open spec fn digits_fit(n: int) -> bool {
    -MAX_MANTISSA <= n <= MAX_MANTISSA
}

/// Whether `initial * (1 + pct)`, or `initial * (1 - pct)`, is computed without
/// rounding.
pub open spec fn scaled_exactly(initial: Decimal, pct: Decimal, grows: bool) -> bool {
    &&& digits_fit(factor_of(pct, grows))
    &&& initial.places() + pct.places() <= 28
    &&& digits_fit(initial.mant() * factor_of(pct, grows))
}

/// Whether `a - b` is computed without rounding.
pub open spec fn subtracted_exactly(a: Decimal, b: Decimal) -> bool {
    let places = if a.places() > b.places() {
        a.places()
    } else {
        b.places()
    };
    let x = a.mant() * pow10(places - a.places());
    let y = b.mant() * pow10(places - b.places());
    digits_fit(x) && digits_fit(y) && digits_fit(x - y)
}

/// Whether the premium has risen to `initial * (1 + pct)`.
pub open spec fn has_grown(current: Decimal, initial: Decimal, pct: Decimal) -> bool {
    current@ * pow10(pct.places()) >= initial@ * factor_of(pct, true)
}

/// Whether the premium has fallen to `initial * (1 - pct)`.
pub open spec fn has_shrunk(current: Decimal, initial: Decimal, pct: Decimal) -> bool {
    current@ * pow10(pct.places()) <= initial@ * factor_of(pct, false)
}

/// Whether two amounts are less than one cent apart.
pub open spec fn within_a_cent(a: Decimal, b: Decimal) -> bool {
    -pow10(26) < a@ - b@ < pow10(26)
}

/// Whether a plain policy is decided without rounding.
pub open spec fn decided_exactly(
    policy: ExitPolicy,
    initial: Decimal,
    current: Decimal,
    underlying: Positive,
    is_long: bool,
) -> bool {
    match policy {
        ExitPolicy::ProfitPercent(pct) => scaled_exactly(initial, pct, is_long),
        ExitPolicy::LossPercent(pct) => scaled_exactly(initial, pct, !is_long),
        ExitPolicy::FixedPrice(price) => subtracted_exactly(current, price.dec()),
        ExitPolicy::UnderlyingPrice(price) => subtracted_exactly(underlying.dec(), price.dec()),
        _ => true,
    }
}

/// When a plain policy is met: a long profits from a premium that grows and a
/// short from one that shrinks.
pub open spec fn plainly_met(
    policy: ExitPolicy,
    initial: Decimal,
    current: Decimal,
    step_num: usize,
    days_left: Positive,
    underlying: Positive,
    is_long: bool,
) -> bool {
    match policy {
        ExitPolicy::ProfitPercent(pct) => if is_long {
            has_grown(current, initial, pct)
        } else {
            has_shrunk(current, initial, pct)
        },
        ExitPolicy::LossPercent(pct) => if is_long {
            has_shrunk(current, initial, pct)
        } else {
            has_grown(current, initial, pct)
        },
        ExitPolicy::FixedPrice(price) => within_a_cent(current, price.dec()),
        ExitPolicy::MinPrice(price) => current@ <= price@,
        ExitPolicy::MaxPrice(price) => current@ >= price@,
        ExitPolicy::TimeSteps(steps) => step_num >= steps,
        ExitPolicy::DaysToExpiration(days) => days_left@ <= days@,
        ExitPolicy::UnderlyingPrice(price) => within_a_cent(underlying.dec(), price.dec()),
        ExitPolicy::UnderlyingBelow(price) => underlying@ < price@,
        ExitPolicy::UnderlyingAbove(price) => underlying@ > price@,
        _ => false,
    }
}

/// A plain policy's number among those that may round.
pub open spec fn rounding_rule(policy: ExitPolicy) -> int {
    match policy {
        ExitPolicy::ProfitPercent(_) => 0,
        ExitPolicy::LossPercent(_) => 1,
        ExitPolicy::FixedPrice(_) => 2,
        _ => 3,
    }
}

/// The decimal that bounds a plain policy that may round.
pub open spec fn rounding_bound(policy: ExitPolicy) -> Decimal {
    match policy {
        ExitPolicy::ProfitPercent(pct) => pct,
        ExitPolicy::LossPercent(pct) => pct,
        ExitPolicy::FixedPrice(price) => price.dec(),
        ExitPolicy::UnderlyingPrice(price) => price.dec(),
        _ => Decimal::of(0, 0),
    }
}

/// What `check_exit_policy` makes of a policy where its arithmetic rounds or
/// runs out of range: the policy by its number, then the digits and places of
/// its bound, of the initial premium, of the current premium and of the
/// underlying price, then whether the leg is long.
pub uninterp spec fn met_in_rounding(
    rule: int,
    bound: (int, int),
    initial: (int, int),
    current: (int, int),
    underlying: (int, int),
    is_long: bool,
) -> bool;

/// The digits and places of a decimal.
pub open spec fn parts(d: Decimal) -> (int, int) {
    (d.mant(), d.places())
}

/// Decide by `optionstratlib::simulation::check_exit_policy`. Where none of its
/// arithmetic rounds, a plain policy is met as `plainly_met` says: the two
/// percentages compare the current premium with the scaled initial one, the two
/// fixed prices allow less than one cent either way, and the others compare
/// directly. Where it rounds, the outcome is only named.
#[verifier::external_body]
fn check_plain(
    policy: &ExitPolicy,
    initial: Decimal,
    current: Decimal,
    step_num: usize,
    days_left: Positive,
    underlying: Positive,
    is_long: bool,
) -> (r: bool)
    requires
        is_plain(*policy),
    ensures
        decided_exactly(*policy, initial, current, underlying, is_long) ==> r == plainly_met(
            *policy,
            initial,
            current,
            step_num,
            days_left,
            underlying,
            is_long,
        ),
        !decided_exactly(*policy, initial, current, underlying, is_long) ==> r == met_in_rounding(
            rounding_rule(*policy),
            parts(rounding_bound(*policy)),
            parts(initial),
            parts(current),
            parts(underlying.dec()),
            is_long,
        ),
{
    check_exit_policy(
        &policy.outside(),
        initial.outside(),
        current.outside(),
        step_num,
        days_left.outside(),
        underlying.outside(),
        is_long,
    ).is_some()
}

/// When a policy is met. Holding to expiration ends when no day is left, a
/// delta threshold is never met, and composed policies are met by all or by
/// one of theirs.
pub open spec fn policy_met(
    policy: ExitPolicy,
    initial: Decimal,
    current: Decimal,
    step_num: usize,
    days_left: Positive,
    underlying: Positive,
    is_long: bool,
) -> bool
    decreases policy,
{
    match policy {
        ExitPolicy::And(all) => forall|i: int|
            0 <= i < all@.len() ==> policy_met(
                #[trigger] all@[i],
                initial,
                current,
                step_num,
                days_left,
                underlying,
                is_long,
            ),
        ExitPolicy::Or(any) => exists|i: int|
            0 <= i < any@.len() && policy_met(
                #[trigger] any@[i],
                initial,
                current,
                step_num,
                days_left,
                underlying,
                is_long,
            ),
        ExitPolicy::Expiration => days_left@ == 0,
        ExitPolicy::DeltaThreshold(_) => false,
        _ => if decided_exactly(policy, initial, current, underlying, is_long) {
            plainly_met(policy, initial, current, step_num, days_left, underlying, is_long)
        } else {
            met_in_rounding(
                rounding_rule(policy),
                parts(rounding_bound(policy)),
                parts(initial),
                parts(current),
                parts(underlying.dec()),
                is_long,
            )
        },
    }
}

/// A policy is larger than those that it is composed of.
proof fn lemma_parts_are_smaller(policy: ExitPolicy, i: int)
    ensures
        policy is And && 0 <= i < policy->And_0@.len() ==> decreases_to!(
            policy => policy->And_0@[i]
        ),
        policy is Or && 0 <= i < policy->Or_0@.len() ==> decreases_to!(policy => policy->Or_0@[i]),
{
    if policy is And {
        assert(decreases_to!(policy => policy->And_0));
        assert(decreases_to!(policy->And_0 => policy->And_0@));
        if 0 <= i < policy->And_0@.len() {
            assert(decreases_to!(policy->And_0@ => policy->And_0@[i]));
        }
    }
    if policy is Or {
        assert(decreases_to!(policy => policy->Or_0));
        assert(decreases_to!(policy->Or_0 => policy->Or_0@));
        if 0 <= i < policy->Or_0@.len() {
            assert(decreases_to!(policy->Or_0@ => policy->Or_0@[i]));
        }
    }
}

/// Whether a policy is met for one leg.
pub fn policy_triggered(
    policy: &ExitPolicy,
    initial_premium: Decimal,
    current_premium: Decimal,
    step_num: usize,
    days_left: Positive,
    underlying_price: Positive,
    is_long: bool,
) -> (r: bool)
    ensures
        r == policy_met(
            *policy,
            initial_premium,
            current_premium,
            step_num,
            days_left,
            underlying_price,
            is_long,
        ),
    decreases policy,
{
    proof {
        reveal_with_fuel(policy_met, 2);
    }
    match policy {
        ExitPolicy::And(all) => {
            let mut i: usize = 0;
            while i < all.len()
                invariant
                    i <= all.len(),
                    *policy == ExitPolicy::And(*all),
                    forall|k: int|
                        0 <= k < i ==> policy_met(
                            #[trigger] all@[k],
                            initial_premium,
                            current_premium,
                            step_num,
                            days_left,
                            underlying_price,
                            is_long,
                        ),
                decreases all.len() - i,
            {
                proof {
                    lemma_parts_are_smaller(*policy, i as int);
                }
                if !policy_triggered(
                    &all[i],
                    initial_premium,
                    current_premium,
                    step_num,
                    days_left,
                    underlying_price,
                    is_long,
                ) {
                    return false;
                }
                i = i + 1;
            }
            true
        },
        ExitPolicy::Or(any) => {
            let mut i: usize = 0;
            while i < any.len()
                invariant
                    i <= any.len(),
                    *policy == ExitPolicy::Or(*any),
                    forall|k: int|
                        0 <= k < i ==> !(policy_met(
                            #[trigger] any@[k],
                            initial_premium,
                            current_premium,
                            step_num,
                            days_left,
                            underlying_price,
                            is_long,
                        )),
                decreases any.len() - i,
            {
                proof {
                    lemma_parts_are_smaller(*policy, i as int);
                }
                if policy_triggered(
                    &any[i],
                    initial_premium,
                    current_premium,
                    step_num,
                    days_left,
                    underlying_price,
                    is_long,
                ) {
                    return true;
                }
                i = i + 1;
            }
            false
        },
        ExitPolicy::Expiration => days_left.to_dec().is_zero(),
        ExitPolicy::DeltaThreshold(_) => false,
        plain => check_plain(
            plain,
            initial_premium,
            current_premium,
            step_num,
            days_left,
            underlying_price,
            is_long,
        ),
    }
}

/// Whether deciding a policy needs the strategy to be priced anew. No policy
/// does: each is decided from the snapshot and the leg alone.
pub fn policy_reads_inner(policy: &ExitPolicy) -> (r: bool)
    ensures
        !r,
    decreases policy,
{
    match policy {
        ExitPolicy::And(parts) | ExitPolicy::Or(parts) => {
            let mut i: usize = 0;
            while i < parts.len()
                invariant
                    i <= parts.len(),
                    *policy == ExitPolicy::And(*parts) || *policy == ExitPolicy::Or(*parts),
                decreases parts.len() - i,
            {
                proof {
                    lemma_parts_are_smaller(*policy, i as int);
                }
                if policy_reads_inner(&parts[i]) {
                    return true;
                }
                i = i + 1;
            }
            false
        },
        _ => false,
    }
}

/// How `optionstratlib` writes a policy.
pub uninterp spec fn policy_text(policy: ExitPolicy) -> Seq<char>;

/// Write a policy by the `Display` of `optionstratlib::simulation::ExitPolicy`,
/// whose text depends on the policy alone.
#[verifier::external_body]
fn write_policy(policy: &ExitPolicy) -> (text: String)
    ensures
        text@ == policy_text(*policy),
{
    format!("{}", policy.outside())
}

/// Whether a reason is the one to record for what a policy closes: a target
/// for a profit, a stop for a loss, an expiration for running out of days. A
/// hold for a number of steps is no expiration and says so. The others are
/// recorded in words.
pub open spec fn is_reason_of(reason: ExitReason, policy: ExitPolicy) -> bool {
    match policy {
        ExitPolicy::ProfitPercent(_) | ExitPolicy::MaxPrice(_) | ExitPolicy::FixedPrice(_) => reason
            == ExitReason::TargetReached,
        ExitPolicy::LossPercent(_) | ExitPolicy::MinPrice(_) => reason == ExitReason::StopLoss,
        ExitPolicy::Expiration | ExitPolicy::DaysToExpiration(_) => reason
            == ExitReason::Expiration,
        ExitPolicy::TimeSteps(_) => reason matches ExitReason::Other(text) && text@
            == "time_steps"@,
        _ => reason matches ExitReason::Other(text) && text@ == policy_text(policy),
    }
}

/// The reason to record for what a policy closes.
pub fn exit_policy_to_reason(policy: &ExitPolicy) -> (reason: ExitReason)
    ensures
        is_reason_of(reason, *policy),
{
    match policy {
        ExitPolicy::ProfitPercent(_) => ExitReason::TargetReached,
        ExitPolicy::LossPercent(_) => ExitReason::StopLoss,
        ExitPolicy::Expiration => ExitReason::Expiration,
        ExitPolicy::DaysToExpiration(_) => ExitReason::Expiration,
        ExitPolicy::TimeSteps(_) => ExitReason::Other(String::from_str("time_steps")),
        ExitPolicy::MinPrice(_) => ExitReason::StopLoss,
        ExitPolicy::MaxPrice(_) => ExitReason::TargetReached,
        ExitPolicy::FixedPrice(_) => ExitReason::TargetReached,
        other => ExitReason::Other(write_policy(other)),
    }
}

/// A policy on a level of the underlying is met exactly where the underlying
/// stands strictly beyond the level, whatever else holds of the leg.
pub proof fn law_underlying_beyond_a_level(
    level: Positive,
    initial: Decimal,
    current: Decimal,
    step_num: usize,
    days_left: Positive,
    underlying: Positive,
    is_long: bool,
)
    ensures
        policy_met(
            ExitPolicy::UnderlyingBelow(level),
            initial,
            current,
            step_num,
            days_left,
            underlying,
            is_long,
        ) <==> underlying@ < level@,
        policy_met(
            ExitPolicy::UnderlyingAbove(level),
            initial,
            current,
            step_num,
            days_left,
            underlying,
            is_long,
        ) <==> underlying@ > level@,
{
}

/// A policy on a bound of the premium is met from the bound on: a lower bound
/// by a premium at or below it, an upper bound by one at or above it.
pub proof fn law_premium_at_a_bound(
    price: Positive,
    initial: Decimal,
    current: Decimal,
    step_num: usize,
    days_left: Positive,
    underlying: Positive,
    is_long: bool,
)
    ensures
        policy_met(
            ExitPolicy::MinPrice(price),
            initial,
            current,
            step_num,
            days_left,
            underlying,
            is_long,
        ) <==> current@ <= price@,
        policy_met(
            ExitPolicy::MaxPrice(price),
            initial,
            current,
            step_num,
            days_left,
            underlying,
            is_long,
        ) <==> current@ >= price@,
{
}

/// A policy on time looks at nothing but time: a hold ends once its steps have
/// passed, a number of days is met when no more are left, and holding to
/// expiration ends when none is left.
pub proof fn law_time_alone_ends_a_hold(
    steps: usize,
    days: Positive,
    initial: Decimal,
    current: Decimal,
    step_num: usize,
    days_left: Positive,
    underlying: Positive,
    is_long: bool,
)
    ensures
        policy_met(
            ExitPolicy::TimeSteps(steps),
            initial,
            current,
            step_num,
            days_left,
            underlying,
            is_long,
        ) <==> steps <= step_num,
        policy_met(
            ExitPolicy::DaysToExpiration(days),
            initial,
            current,
            step_num,
            days_left,
            underlying,
            is_long,
        ) <==> days_left@ <= days@,
        policy_met(
            ExitPolicy::Expiration,
            initial,
            current,
            step_num,
            days_left,
            underlying,
            is_long,
        ) <==> days_left@ == 0,
{
}

/// A delta threshold is never met.
pub proof fn law_delta_is_never_met(
    delta: Decimal,
    initial: Decimal,
    current: Decimal,
    step_num: usize,
    days_left: Positive,
    underlying: Positive,
    is_long: bool,
)
    ensures
        !policy_met(
            ExitPolicy::DeltaThreshold(delta),
            initial,
            current,
            step_num,
            days_left,
            underlying,
            is_long,
        ),
{
}

/// A conjunction is met when every part is, and a disjunction when one is. Of no
/// parts the first is met and the second is not; of any parts at all, whatever
/// meets the first meets the second.
pub proof fn law_composed_policies(
    parts: Vec<ExitPolicy>,
    initial: Decimal,
    current: Decimal,
    step_num: usize,
    days_left: Positive,
    underlying: Positive,
    is_long: bool,
)
    ensures
        ({
            let all = policy_met(
                ExitPolicy::And(parts),
                initial,
                current,
                step_num,
                days_left,
                underlying,
                is_long,
            );
            let any = policy_met(
                ExitPolicy::Or(parts),
                initial,
                current,
                step_num,
                days_left,
                underlying,
                is_long,
            );
            &&& parts@.len() == 0 ==> all && !any
            &&& parts@.len() > 0 && all ==> any
            &&& forall|i: int|
                0 <= i < parts@.len() ==> {
                    let part = policy_met(
                        #[trigger] parts@[i],
                        initial,
                        current,
                        step_num,
                        days_left,
                        underlying,
                        is_long,
                    );
                    &&& part ==> any
                    &&& !part ==> !all
                    &&& parts@.len() == 1 ==> all == part && any == part
                }
        }),
{
    reveal_with_fuel(policy_met, 2);
    let whole = ExitPolicy::Or(parts);
    assert(whole->Or_0 == parts);
    let any = policy_met(whole, initial, current, step_num, days_left, underlying, is_long);
    assert forall|i: int|
        0 <= i < parts@.len() && policy_met(
            #[trigger] parts@[i],
            initial,
            current,
            step_num,
            days_left,
            underlying,
            is_long,
        ) implies any by {
        lemma_parts_are_smaller(whole, i);
    }
    let every = ExitPolicy::And(parts);
    assert(every->And_0 == parts);
    let all = policy_met(every, initial, current, step_num, days_left, underlying, is_long);
    assert forall|i: int|
        0 <= i < parts@.len() && !policy_met(
            #[trigger] parts@[i],
            initial,
            current,
            step_num,
            days_left,
            underlying,
            is_long,
        ) implies !all by {
        lemma_parts_are_smaller(every, i);
    }
    if parts@.len() > 0 {
        let first = policy_met(
            parts@[0],
            initial,
            current,
            step_num,
            days_left,
            underlying,
            is_long,
        );
        assert(first ==> any);
        assert(!first ==> !all);
    }
}

/// A scaled comparison holds in any unit.
proof fn lemma_comparison_scales(a: int, b: int, p: int, m: int, k: int)
    requires
        k > 0,
    ensures
        (a * p >= b * (p + m)) == (a * (p * k) >= b * (p * k + m * k)),
        (a * p <= b * (p + m)) == (a * (p * k) <= b * (p * k + m * k)),
{
    let x = a * p;
    let y = b * (p + m);
    assert(a * (p * k) == x * k) by (nonlinear_arith)
        requires
            x == a * p,
    ;
    assert(b * (p * k + m * k) == y * k) by (nonlinear_arith)
        requires
            y == b * (p + m),
    ;
    assert((x >= y) == (x * k >= y * k)) by (nonlinear_arith)
        requires
            k > 0,
    ;
    assert((x <= y) == (x * k <= y * k)) by (nonlinear_arith)
        requires
            k > 0,
    ;
}

/// A profit target is met when the premium has moved by the fraction in the
/// leg's favour, a loss limit when it has moved by it against the leg: a long
/// gains as the premium grows, a short as it shrinks. The fraction is of the
/// initial premium, and one is written `10^28` as in every view.
pub proof fn law_profit_and_loss_are_fractions_of_the_premium(
    pct: Decimal,
    initial: Decimal,
    current: Decimal,
    step_num: usize,
    days_left: Positive,
    underlying: Positive,
    is_long: bool,
)
    requires
        pct.wf(),
        scaled_exactly(initial, pct, true),
        scaled_exactly(initial, pct, false),
    ensures
        ({
            let target = policy_met(
                ExitPolicy::ProfitPercent(pct),
                initial,
                current,
                step_num,
                days_left,
                underlying,
                is_long,
            );
            let limit = policy_met(
                ExitPolicy::LossPercent(pct),
                initial,
                current,
                step_num,
                days_left,
                underlying,
                is_long,
            );
            let grown = current@ * pow10(28) >= initial@ * (pow10(28) + pct@);
            let shrunk = current@ * pow10(28) <= initial@ * (pow10(28) - pct@);
            if is_long {
                target == grown && limit == shrunk
            } else {
                target == shrunk && limit == grown
            }
        }),
{
    let p = pow10(pct.places());
    let k = pow10(28 - pct.places());
    crate::domain::decimal::lemma_pow10_positive(28 - pct.places());
    vstd::arithmetic::power::lemma_pow_adds(
        10,
        pct.places() as nat,
        (28 - pct.places()) as nat,
    );
    assert(pow10(28) == p * k);
    lemma_comparison_scales(current@, initial@, p, pct.mant(), k);
    lemma_comparison_scales(current@, initial@, p, -pct.mant(), k);
    assert(-pct.mant() * k == -(pct.mant() * k)) by (nonlinear_arith);
}

/// A fixed price, of the premium or of the underlying, is met by whatever is
/// less than a cent away from it, on either side.
pub proof fn law_fixed_price_allows_less_than_a_cent(
    price: Positive,
    initial: Decimal,
    current: Decimal,
    step_num: usize,
    days_left: Positive,
    underlying: Positive,
    is_long: bool,
)
    ensures
        subtracted_exactly(current, price.dec()) ==> (policy_met(
            ExitPolicy::FixedPrice(price),
            initial,
            current,
            step_num,
            days_left,
            underlying,
            is_long,
        ) <==> price@ - pow10(26) < current@ < price@ + pow10(26)),
        subtracted_exactly(underlying.dec(), price.dec()) ==> (policy_met(
            ExitPolicy::UnderlyingPrice(price),
            initial,
            current,
            step_num,
            days_left,
            underlying,
            is_long,
        ) <==> price@ - pow10(26) < underlying@ < price@ + pow10(26)),
{
}

/// Whatever is neither composed, nor held to expiration, nor a delta
/// threshold, is met as `check_exit_policy` decides.
pub proof fn law_other_policies_are_checked(
    policy: ExitPolicy,
    initial: Decimal,
    current: Decimal,
    step_num: usize,
    days_left: Positive,
    underlying: Positive,
    is_long: bool,
)
    requires
        policy !is And,
        policy !is Or,
        policy !is Expiration,
        policy !is DeltaThreshold,
    ensures
        is_plain(policy),
        policy_met(policy, initial, current, step_num, days_left, underlying, is_long) == if
            decided_exactly(policy, initial, current, underlying, is_long) {
            plainly_met(policy, initial, current, step_num, days_left, underlying, is_long)
        } else {
            met_in_rounding(
                rounding_rule(policy),
                parts(rounding_bound(policy)),
                parts(initial),
                parts(current),
                parts(underlying.dec()),
                is_long,
            )
        },
{
}

/// What a close is recorded as: a profit is a target reached and a loss a stop,
/// a premium that rose to its bound a target and one that fell to it a stop,
/// and days that ran out an expiration. Steps that ran out are none of these.
pub proof fn law_reasons_tell_profit_from_loss(
    reason: ExitReason,
    pct: Decimal,
    price: Positive,
    steps: usize,
)
    ensures
        is_reason_of(reason, ExitPolicy::ProfitPercent(pct)) <==> reason is TargetReached,
        is_reason_of(reason, ExitPolicy::LossPercent(pct)) <==> reason is StopLoss,
        is_reason_of(reason, ExitPolicy::MaxPrice(price)) <==> reason is TargetReached,
        is_reason_of(reason, ExitPolicy::FixedPrice(price)) <==> reason is TargetReached,
        is_reason_of(reason, ExitPolicy::MinPrice(price)) <==> reason is StopLoss,
        is_reason_of(reason, ExitPolicy::DaysToExpiration(price)) <==> reason is Expiration,
        is_reason_of(reason, ExitPolicy::Expiration) <==> reason is Expiration,
        is_reason_of(reason, ExitPolicy::TimeSteps(steps)) ==> reason is Other,
        is_reason_of(reason, ExitPolicy::UnderlyingBelow(price)) ==> reason is Other,
        is_reason_of(reason, ExitPolicy::UnderlyingAbove(price)) ==> reason is Other,
        is_reason_of(reason, ExitPolicy::UnderlyingPrice(price)) ==> reason is Other,
        is_reason_of(reason, ExitPolicy::DeltaThreshold(pct)) ==> reason is Other,
{
}

} // verus!
