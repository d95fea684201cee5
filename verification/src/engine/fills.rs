//! Several fills of one order, taken together.

use crate::domain::decimal::{
    half_even, law_rounding_is_to_the_nearest, lemma_pow10_positive, pow10, Decimal, MAX_PLACES,
};
use crate::domain::execution::sign_convention::{sum_cents, sums_fit};
use crate::domain::money::{
    dollars_in_cents, fits_i64, lemma_half_even_bounds, lemma_half_even_exact,
    lemma_half_even_scales,
};
use crate::domain::{Cents, Fill, PriceCents, Quantity};
use crate::error::{BacktestError, ErrorKind};
use vstd::prelude::*;
use vstd::string::*;

verus! {

/// What the fills of one order come to: the contracts, their average price,
/// and the sums of fees and slippage.
#[derive(Debug, Clone, Copy)]
pub struct FillAggregate {
    /// How many contracts were filled.
    pub quantity: Quantity,
    /// The average price, weighted by contracts and rounded half to even.
    pub vwap: PriceCents,
    /// The sum of the fees.
    pub fees: Cents,
    /// The sum of the slippages.
    pub slippage: Cents,
}

/// The contracts of some fills.
pub open spec fn total_quantity(fills: Seq<Fill>) -> int
    decreases fills.len(),
{
    if fills.len() == 0 {
        0
    } else {
        total_quantity(fills.drop_last()) + fills.last().quantity.n()
    }
}

/// What some fills traded for: price times contracts, summed up.
pub open spec fn notional(fills: Seq<Fill>) -> int
    decreases fills.len(),
{
    if fills.len() == 0 {
        0
    } else {
        notional(fills.drop_last()) + fills.last().price.0 * fills.last().quantity.n()
    }
}

/// The fees of some fills.
pub open spec fn fees_of(fills: Seq<Fill>) -> Seq<Cents> {
    fills.map_values(|fill: Fill| fill.fees)
}

/// The slippages of some fills.
pub open spec fn slippages_of(fills: Seq<Fill>) -> Seq<Cents> {
    fills.map_values(|fill: Fill| fill.slippage)
}

/// The average price of `quantity` contracts that traded for `notional`.
pub open spec fn average(notional: int, quantity: int) -> Result<PriceCents, ErrorKind> {
    if quantity == 0 {
        Err(ErrorKind::Execution)
    } else if half_even(notional, quantity) > u64::MAX {
        Err(ErrorKind::ArithmeticOverflow)
    } else {
        Ok(PriceCents(half_even(notional, quantity) as u64))
    }
}

/// What some fills come to.
pub open spec fn aggregate(fills: Seq<Fill>) -> Result<FillAggregate, ErrorKind> {
    if fills.len() == 0 || !sums_fit(fees_of(fills)) || !sums_fit(slippages_of(fills))
        || total_quantity(fills) > u32::MAX {
        Err(ErrorKind::ArithmeticOverflow)
    } else {
        match average(notional(fills), total_quantity(fills)) {
            Ok(vwap) => Ok(
                FillAggregate {
                    quantity: Quantity::of(total_quantity(fills)),
                    vwap,
                    fees: Cents(sum_cents(fees_of(fills)) as i64),
                    slippage: Cents(sum_cents(slippages_of(fills)) as i64),
                },
            ),
            Err(kind) => Err(kind),
        }
    }
}

/// The average price, rounded half to even. No contracts have no average.
pub fn vwap_cents(notional: u128, total_qty: u64) -> (r: Result<PriceCents, BacktestError>)
    ensures
        match r {
            Ok(price) => average(notional as int, total_qty as int) == Ok::<PriceCents, ErrorKind>(
                price,
            ),
            Err(e) => average(notional as int, total_qty as int) == Err::<PriceCents, ErrorKind>(
                e.kind(),
            ),
        },
{
    if total_qty == 0 {
        return Err(
            BacktestError::Execution(String::from_str("cannot average a zero-quantity order")),
        );
    }
    let divisor: u128 = total_qty as u128;
    let quotient: u128 = notional / divisor;
    let remainder: u128 = notional % divisor;
    let twice_rem: u128 = remainder * 2;
    let up = if twice_rem < divisor {
        false
    } else if twice_rem > divisor {
        true
    } else {
        quotient % 2 != 0
    };
    let rounded: u128 = if up {
        match quotient.checked_add(1) {
            Some(next) => next,
            None => {
                return Err(BacktestError::ArithmeticOverflow);
            },
        }
    } else {
        quotient
    };
    if rounded > u64::MAX as u128 {
        return Err(BacktestError::ArithmeticOverflow);
    }
    Ok(PriceCents(rounded as u64))
}

/// A part of some fills has no more contracts than the whole.
pub proof fn lemma_quantity_grows(fills: Seq<Fill>, k: int)
    requires
        0 <= k <= fills.len(),
    ensures
        0 <= total_quantity(fills.take(k)) <= total_quantity(fills),
    decreases fills.len() - k, k,
{
    broadcast use Quantity::lemma_of;

    if k < fills.len() {
        lemma_quantity_grows(fills, k + 1);
        assert(fills.take(k + 1).drop_last() =~= fills.take(k));
        fills.take(k + 1).last().quantity.lemma_of();
    } else {
        assert(fills.take(k) =~= fills);
    }
    lemma_quantity_nonnegative(fills.take(k));
}

/// Fills never have fewer than no contracts.
pub proof fn lemma_quantity_nonnegative(fills: Seq<Fill>)
    ensures
        0 <= total_quantity(fills),
    decreases fills.len(),
{
    if fills.len() > 0 {
        lemma_quantity_nonnegative(fills.drop_last());
        fills.last().quantity.lemma_of();
    }
}

/// Where every price lies between two bounds, what was traded lies between
/// the bounds times the contracts.
proof fn lemma_notional_between(fills: Seq<Fill>, low: int, high: int)
    requires
        0 <= low,
        forall|i: int| 0 <= i < fills.len() ==> low <= (#[trigger] fills[i]).price.0 <= high,
    ensures
        low * total_quantity(fills) <= notional(fills) <= high * total_quantity(fills),
    decreases fills.len(),
{
    if fills.len() > 0 {
        let front = fills.drop_last();
        assert forall|i: int| 0 <= i < front.len() implies low <= (#[trigger] front[i]).price.0
            <= high by {
            assert(front[i] == fills[i]);
        }
        lemma_notional_between(front, low, high);
        let p = fills.last().price.0 as int;
        let q = fills.last().quantity.n();
        let t = total_quantity(front);
        fills.last().quantity.lemma_of();
        assert(low <= fills[fills.len() - 1].price.0 <= high);
        assert(low * q <= p * q <= high * q) by (nonlinear_arith)
            requires
                low <= p <= high,
                0 <= q,
        ;
        assert(low * (t + q) == low * t + low * q) by (nonlinear_arith);
        assert(high * (t + q) == high * t + high * q) by (nonlinear_arith);
    }
}

/// The average price of some fills is a price again: it lies between the
/// lowest and the highest of theirs.
pub proof fn law_average_lies_between_prices(fills: Seq<Fill>, low: int, high: int)
    requires
        0 <= low,
        total_quantity(fills) > 0,
        forall|i: int| 0 <= i < fills.len() ==> low <= (#[trigger] fills[i]).price.0 <= high,
    ensures
        low <= half_even(notional(fills), total_quantity(fills)) <= high,
{
    let n = notional(fills);
    let t = total_quantity(fills);
    lemma_notional_between(fills, low, high);
    assert(0 <= low * t) by (nonlinear_arith)
        requires
            0 <= low,
            0 < t,
    ;
    lemma_half_even_bounds(n, t);
    vstd::arithmetic::div_mod::lemma_fundamental_div_mod(n, t);
    let q = n / t;
    assert(low <= q) by (nonlinear_arith)
        requires
            low * t <= n,
            n == t * q + n % t,
            0 <= n % t < t,
            t > 0,
    ;
    assert(q <= high) by (nonlinear_arith)
        requires
            n <= high * t,
            n == t * q + n % t,
            0 <= n % t < t,
            t > 0,
    ;
    if q == high {
        assert(n % t == 0) by (nonlinear_arith)
            requires
                n <= high * t,
                n == t * q + n % t,
                0 <= n % t < t,
                q == high,
        ;
    }
}

/// A single fill's average price is its price.
pub proof fn law_average_of_one_fill_is_its_price(fill: Fill)
    requires
        fill.quantity.n() > 0,
    ensures
        average(notional(seq![fill]), total_quantity(seq![fill])) == Ok::<PriceCents, ErrorKind>(
            fill.price,
        ),
{
    let s = seq![fill];
    assert(s.drop_last() =~= Seq::<Fill>::empty());
    assert(notional(s.drop_last()) == 0);
    assert(total_quantity(s.drop_last()) == 0);
    lemma_half_even_exact(fill.price.0 as int, fill.quantity.n());
}

/// There is one rule of rounding: an average of `notional / quantity` cents,
/// and a dollar amount of the same value, come to the same price.
pub proof fn law_averages_round_as_dollars_do(notional: int, quantity: int, d: Decimal)
    requires
        0 <= notional,
        0 < quantity,
        0 <= d@,
        d@ * 100 * quantity == notional * pow10(MAX_PLACES as int),
    ensures
        match average(notional, quantity) {
            Ok(price) => price.0 == dollars_in_cents(d),
            Err(kind) => kind == ErrorKind::ArithmeticOverflow && dollars_in_cents(d) > u64::MAX,
        },
{
    let unit = pow10(MAX_PLACES as int);
    lemma_pow10_positive(MAX_PLACES as int);
    lemma_half_even_scales(notional, quantity, unit);
    lemma_half_even_scales(d@ * 100, unit, quantity);
    lemma_half_even_bounds(notional, quantity);
    assert(unit * quantity == quantity * unit) by (nonlinear_arith);
}

/// The fees of one fill more.
proof fn lemma_fees_push(fills: Seq<Fill>, k: int)
    requires
        0 <= k < fills.len(),
    ensures
        fees_of(fills.take(k)) == fees_of(fills).take(k),
        slippages_of(fills.take(k)) == slippages_of(fills).take(k),
        sum_cents(fees_of(fills).take(k + 1)) == sum_cents(fees_of(fills).take(k))
            + fills[k].fees.0,
        sum_cents(slippages_of(fills).take(k + 1)) == sum_cents(slippages_of(fills).take(k))
            + fills[k].slippage.0,
{
    assert(fees_of(fills.take(k)) =~= fees_of(fills).take(k));
    assert(slippages_of(fills.take(k)) =~= slippages_of(fills).take(k));
    assert(fees_of(fills).take(k + 1).drop_last() =~= fees_of(fills).take(k));
    assert(slippages_of(fills).take(k + 1).drop_last() =~= slippages_of(fills).take(k));
}

/// Take the fills of one order together. No fills at all are refused, as a sum
/// that does not fit is.
pub fn aggregate_fills(fills: &[Fill]) -> (r: Result<FillAggregate, BacktestError>)
    ensures
        match r {
            Ok(agg) => aggregate(fills@) == Ok::<FillAggregate, ErrorKind>(agg),
            Err(e) => aggregate(fills@) == Err::<FillAggregate, ErrorKind>(e.kind()),
        },
{
    if fills.len() == 0 {
        return Err(BacktestError::ArithmeticOverflow);
    }
    let ghost fees = fees_of(fills@);
    let ghost slips = slippages_of(fills@);
    let mut total_qty: u64 = 0;
    let mut sum: u128 = 0;
    let mut total_fees: i64 = 0;
    let mut total_slippage: i64 = 0;
    let mut i: usize = 0;
    assert(fills@.take(0) =~= Seq::<Fill>::empty());
    assert(fees.take(0) =~= Seq::<Cents>::empty());
    assert(slips.take(0) =~= Seq::<Cents>::empty());
    while i < fills.len()
        invariant
            i <= fills.len(),
            fees == fees_of(fills@),
            slips == slippages_of(fills@),
            total_qty == total_quantity(fills@.take(i as int)),
            i <= total_qty,
            sum == notional(fills@.take(i as int)),
            total_fees == sum_cents(fees.take(i as int)),
            total_slippage == sum_cents(slips.take(i as int)),
            forall|k: int| 0 <= k <= i ==> fits_i64(#[trigger] sum_cents(fees.take(k))),
            forall|k: int| 0 <= k <= i ==> fits_i64(#[trigger] sum_cents(slips.take(k))),
        decreases fills.len() - i,
    {
        let fill = &fills[i];
        let ghost next = fills@.take(i + 1);
        proof {
            assert(next.drop_last() =~= fills@.take(i as int));
            assert(next.last() == *fill);
            lemma_fees_push(fills@, i as int);
            lemma_quantity_grows(fills@, i + 1);
            assert forall|k: int| 0 <= k < next.len() implies 0 <= (#[trigger] next[k]).price.0
                <= u64::MAX by {}
            lemma_notional_between(next, 0, u64::MAX as int);
        }
        let q: u32 = fill.quantity.value();
        total_qty = match total_qty.checked_add(q as u64) {
            Some(total) => total,
            None => {
                return Err(BacktestError::ArithmeticOverflow);
            },
        };
        assert(0 <= fill.price.0 * q <= 0xffff_ffff_ffff_ffff * 0xffff_ffff) by (nonlinear_arith)
            requires
                0 <= fill.price.0 <= 0xffff_ffff_ffff_ffff,
                0 <= q <= 0xffff_ffff,
        ;
        sum = match sum.checked_add(fill.price.0 as u128 * q as u128) {
            Some(total) => total,
            None => {
                assert(total_quantity(next) > u32::MAX) by (nonlinear_arith)
                    requires
                        notional(next) > u128::MAX,
                        notional(next) <= u64::MAX * total_quantity(next),
                ;
                return Err(BacktestError::ArithmeticOverflow);
            },
        };
        total_fees = match total_fees.checked_add(fill.fees.0) {
            Some(total) => total,
            None => {
                assert(!fits_i64(sum_cents(fees.take(i + 1))));
                return Err(BacktestError::ArithmeticOverflow);
            },
        };
        total_slippage = match total_slippage.checked_add(fill.slippage.0) {
            Some(total) => total,
            None => {
                assert(!fits_i64(sum_cents(slips.take(i + 1))));
                return Err(BacktestError::ArithmeticOverflow);
            },
        };
        i = i + 1;
    }
    proof {
        assert(fills@.take(fills@.len() as int) =~= fills@);
        assert(fees.take(fees.len() as int) =~= fees);
        assert(slips.take(slips.len() as int) =~= slips);
    }
    if total_qty > u32::MAX as u64 {
        return Err(BacktestError::ArithmeticOverflow);
    }
    let quantity = match Quantity::new(total_qty as u32) {
        Ok(quantity) => quantity,
        Err(_) => {
            return Err(BacktestError::ArithmeticOverflow);
        },
    };
    let vwap = match vwap_cents(sum, total_qty) {
        Ok(vwap) => vwap,
        Err(e) => {
            return Err(e);
        },
    };
    Ok(
        FillAggregate {
            quantity,
            vwap,
            fees: Cents(total_fees),
            slippage: Cents(total_slippage),
        },
    )
}

/// The contracts and the turnover of some fills are those of each, summed up.
pub proof fn law_fills_add_up(a: Seq<Fill>, b: Seq<Fill>, fill: Fill)
    ensures
        total_quantity(Seq::empty()) == 0,
        notional(Seq::empty()) == 0,
        total_quantity(seq![fill]) == fill.quantity.n(),
        notional(seq![fill]) == fill.price.0 * fill.quantity.n(),
        total_quantity(a + b) == total_quantity(a) + total_quantity(b),
        notional(a + b) == notional(a) + notional(b),
    decreases b.len(),
{
    let one = seq![fill];
    assert(one.drop_last() =~= Seq::<Fill>::empty());
    assert(total_quantity(one.drop_last()) == 0 && notional(one.drop_last()) == 0);
    if b.len() == 0 {
        assert(a + b =~= a);
    } else {
        law_fills_add_up(a, b.drop_last(), fill);
        assert((a + b).drop_last() =~= a + b.drop_last());
        assert((a + b).last() == b.last());
    }
}

/// What some fills come to is what they are in sum: all their contracts, all
/// their fees and all their slippage, at a price that times the contracts is
/// their turnover to half a cent per contract.
pub proof fn law_aggregate_is_the_sum_of_its_fills(fills: Seq<Fill>)
    requires
        aggregate(fills) is Ok,
    ensures
        ({
            let agg = aggregate(fills)->Ok_0;
            let off = notional(fills) - agg.vwap.0 * agg.quantity.n();
            &&& fills.len() > 0
            &&& agg.quantity.n() == total_quantity(fills)
            &&& agg.fees.0 == sum_cents(fills.map_values(|f: Fill| f.fees))
            &&& agg.slippage.0 == sum_cents(fills.map_values(|f: Fill| f.slippage))
            &&& -agg.quantity.n() <= 2 * off <= agg.quantity.n()
            &&& 2 * off == agg.quantity.n() || 2 * off == -agg.quantity.n() ==> agg.vwap.0 % 2
                == 0
        }),
{
    let n = notional(fills);
    let t = total_quantity(fills);
    lemma_quantity_nonnegative(fills);
    Quantity::lemma_n(t);
    assert forall|i: int| 0 <= i < fills.len() implies 0 <= (#[trigger] fills[i]).price.0
        <= u64::MAX by {}
    lemma_notional_between(fills, 0, u64::MAX as int);
    law_rounding_is_to_the_nearest(n, t, 0);
    lemma_half_even_bounds(n, t);
    let fees = fees_of(fills);
    let slips = slippages_of(fills);
    assert(fits_i64(sum_cents(fees.take(fees.len() as int))));
    assert(fees.take(fees.len() as int) =~= fees);
    assert(fits_i64(sum_cents(slips.take(slips.len() as int))));
    assert(slips.take(slips.len() as int) =~= slips);
    assert(fees =~= fills.map_values(|f: Fill| f.fees));
    assert(slips =~= fills.map_values(|f: Fill| f.slippage));
}

/// No contracts have no average, and no fills come to nothing; whatever else
/// is summed up comes to something as long as the sums fit.
pub proof fn law_fills_come_to_something(fills: Seq<Fill>, notional_cents: int)
    ensures
        average(notional_cents, 0) == Err::<PriceCents, ErrorKind>(ErrorKind::Execution),
        fills.len() == 0 ==> aggregate(fills) == Err::<FillAggregate, ErrorKind>(
            ErrorKind::ArithmeticOverflow,
        ),
        fills.len() > 0 && 0 < total_quantity(fills) <= 0xffff_ffff && sums_fit(
            fills.map_values(|f: Fill| f.fees),
        ) && sums_fit(fills.map_values(|f: Fill| f.slippage)) ==> aggregate(fills) is Ok,
{
    assert(fees_of(fills) =~= fills.map_values(|f: Fill| f.fees));
    assert(slippages_of(fills) =~= fills.map_values(|f: Fill| f.slippage));
    if fills.len() > 0 && total_quantity(fills) > 0 {
        assert forall|i: int| 0 <= i < fills.len() implies 0 <= (#[trigger] fills[i]).price.0
            <= u64::MAX by {}
        law_average_lies_between_prices(fills, 0, u64::MAX as int);
    }
}

} // verus!
