//! The one sign convention: positive slippage is adverse, on either side.

use crate::domain::contract::Side;
use crate::domain::money::{fits_i64, Cents, PriceCents, Quantity};
use crate::error::{BacktestError, ErrorKind};
use vstd::prelude::*;

verus! {

/// `1` for a long and `-1` for a short.
pub open spec fn sign_of(side: Side) -> int {
    match side {
        Side::Long => 1,
        Side::Short => -1,
    }
}

/// `1` for a long and `-1` for a short.
pub fn side_sign(side: Side) -> (s: i64)
    ensures
        s == sign_of(side),
{
    match side {
        Side::Long => 1,
        Side::Short => -1,
    }
}

/// How much worse than the decision mid a fill was, over all its contracts.
pub open spec fn slippage_of(price: int, mid: int, quantity: int, side: Side) -> int {
    (price - mid) * quantity * sign_of(side)
}

/// The signed slippage of a fill: positive where it was adverse.
pub fn slippage_cents(
    price: PriceCents,
    decision_mid: PriceCents,
    quantity: Quantity,
    side: Side,
) -> (r: Result<Cents, BacktestError>)
    ensures
        match r {
            Ok(c) => c.0 == slippage_of(
                price.0 as int,
                decision_mid.0 as int,
                quantity.n(),
                side,
            ),
            Err(e) => e.kind() == ErrorKind::ArithmeticOverflow && !fits_i64(
                slippage_of(price.0 as int, decision_mid.0 as int, quantity.n(), side),
            ),
        },
{
    let diff: i128 = price.0 as i128 - decision_mid.0 as i128;
    let qty: i128 = quantity.value() as i128;
    assert(-0x1_0000_0000_0000_0000_0000_0000 < diff * qty < 0x1_0000_0000_0000_0000_0000_0000)
        by (nonlinear_arith)
        requires
            -0x1_0000_0000_0000_0000 < diff < 0x1_0000_0000_0000_0000,
            0 < qty < 0x1_0000_0000,
    ;
    let scaled: i128 = diff * qty;
    let product: i128 = match side {
        Side::Long => scaled,
        Side::Short => -scaled,
    };
    assert(scaled * 1 == scaled && scaled * -1 == -scaled);
    if product < i64::MIN as i128 || product > i64::MAX as i128 {
        return Err(BacktestError::ArithmeticOverflow);
    }
    Ok(Cents(product as i64))
}

/// The sum of some amounts.
pub open spec fn sum_cents(amounts: Seq<Cents>) -> int
    decreases amounts.len(),
{
    if amounts.len() == 0 {
        0
    } else {
        sum_cents(amounts.drop_last()) + amounts.last().0
    }
}

/// Whether the amounts can be summed up one by one without leaving `i64`.
pub open spec fn sums_fit(amounts: Seq<Cents>) -> bool {
    forall|k: int| 0 <= k <= amounts.len() ==> fits_i64(#[trigger] sum_cents(amounts.take(k)))
}

/// The spread captured by some fills: their slippages, summed up and turned
/// round.
pub fn spread_capture_cents(slippages: &[Cents]) -> (r: Result<Cents, BacktestError>)
    ensures
        match r {
            Ok(c) => sums_fit(slippages@) && c.0 == -sum_cents(slippages@),
            Err(e) => e.kind() == ErrorKind::ArithmeticOverflow && !(sums_fit(slippages@)
                && fits_i64(-sum_cents(slippages@))),
        },
{
    let mut total: Cents = Cents(0);
    let mut i: usize = 0;
    assert(slippages@.take(0) =~= Seq::<Cents>::empty());
    while i < slippages.len()
        invariant
            i <= slippages.len(),
            total.0 == sum_cents(slippages@.take(i as int)),
            forall|k: int|
                0 <= k <= i ==> fits_i64(#[trigger] sum_cents(slippages@.take(k))),
        decreases slippages.len() - i,
    {
        let ghost next = slippages@.take(i + 1);
        assert(next.drop_last() =~= slippages@.take(i as int));
        assert(sum_cents(next) == total.0 + slippages@[i as int].0);
        total = match total.checked_add(slippages[i]) {
            Ok(sum) => sum,
            Err(e) => {
                assert(!fits_i64(sum_cents(slippages@.take(i + 1))));
                return Err(e);
            },
        };
        i = i + 1;
    }
    assert(slippages@.take(slippages@.len() as int) =~= slippages@);
    if total.0 == i64::MIN {
        return Err(BacktestError::ArithmeticOverflow);
    }
    Ok(Cents(-total.0))
}

/// Slippage is positive exactly when the fill was worse than the mid: dearer
/// for a buyer, cheaper for a seller.
pub proof fn law_slippage_is_adverse(price: int, mid: int, quantity: int)
    requires
        quantity > 0,
    ensures
        (slippage_of(price, mid, quantity, Side::Long) > 0) == (price > mid),
        (slippage_of(price, mid, quantity, Side::Short) > 0) == (price < mid),
        slippage_of(price, mid, quantity, Side::Short) == -slippage_of(
            price,
            mid,
            quantity,
            Side::Long,
        ),
{
    let d = price - mid;
    assert((d * quantity > 0) == (d > 0)) by (nonlinear_arith)
        requires
            quantity > 0,
    ;
    assert((d * quantity < 0) == (d < 0)) by (nonlinear_arith)
        requires
            quantity > 0,
    ;
    assert((d * quantity) * -1 == -(d * quantity));
    assert((d * quantity) * 1 == d * quantity);
}

/// Slippage scales with the number of contracts.
pub proof fn law_slippage_scales(price: int, mid: int, quantity: int, side: Side)
    ensures
        slippage_of(price, mid, quantity, side) == slippage_of(price, mid, 1, side) * quantity,
{
    let d = price - mid;
    let s = sign_of(side);
    assert(d * quantity * s == (d * 1 * s) * quantity) by (nonlinear_arith);
}

/// A sum of amounts takes each amount once: amounts taken together come to
/// what they come to apart.
pub proof fn law_amounts_add_up(a: Seq<Cents>, b: Seq<Cents>, c: Cents)
    ensures
        sum_cents(Seq::empty()) == 0,
        sum_cents(seq![c]) == c.0,
        sum_cents(a + b) == sum_cents(a) + sum_cents(b),
    decreases b.len(),
{
    assert(seq![c].drop_last() =~= Seq::<Cents>::empty());
    assert(sum_cents(seq![c].drop_last()) == 0);
    if b.len() == 0 {
        assert(a + b =~= a);
    } else {
        law_amounts_add_up(a, b.drop_last(), c);
        assert((a + b).drop_last() =~= a + b.drop_last());
        assert((a + b).last() == b.last());
    }
}

/// The slippage of one contract is how far its price lies from the mid: above
/// it for a buyer, below it for a seller.
pub proof fn law_slippage_is_the_distance_from_the_mid(price: int, mid: int)
    ensures
        slippage_of(price, mid, 1, Side::Long) == price - mid,
        slippage_of(price, mid, 1, Side::Short) == mid - price,
{
    let d = price - mid;
    assert(d * 1 * 1 == d && d * 1 * -1 == -d) by (nonlinear_arith);
}

} // verus!
