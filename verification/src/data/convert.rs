//! Values on their way into the engine.

use crate::domain::decimal::{
    half_even, law_rounding_is_to_the_nearest, lemma_pow10_positive, pow10,
};
use crate::domain::expiration::{ExpirationDate, ExpirationView, Instant, NANOS_PER_SECOND};
use crate::domain::money::{
    fits_i64, law_dollars_invert_cents, lemma_half_even_bounds, lemma_half_even_exact,
    lemma_half_even_scales, PriceCents,
};
use crate::domain::positive::Positive;
use crate::domain::time::SimTime;
use crate::error::{BacktestError, ErrorKind};
use vstd::prelude::*;

verus! {

/// The nanoseconds of a day.
pub const NANOS_PER_DAY: i64 = 86_400_000_000_000;

/// A price in dollars.
pub fn positive_from_price(price: PriceCents) -> (p: Positive)
    ensures
        p.dec().mant() == price.0,
        p.dec().places() == 2,
        p.dec() == crate::domain::decimal::Decimal::of(price.0 as int, 2),
{
    let d = price.to_decimal_dollars();
    proof {
        law_dollars_invert_cents(price, d);
    }
    match Positive::new_decimal(d) {
        Ok(p) => p,
        Err(_) => Positive::zero(),
    }
}

/// A number of days in nanoseconds, rounded half to even.
pub open spec fn days_in_nanos(days: Positive) -> int {
    half_even(days.dec().mant() * NANOS_PER_DAY, pow10(days.dec().places()))
}

/// The moment that lies a number of days past an anchor, in nanoseconds.
pub open spec fn days_past(days: Positive, anchor: SimTime) -> int {
    anchor.0 + days_in_nanos(days)
}

/// Whether an expiration is another one, resolved against an anchor: days lie
/// that far past the anchor, and an instant is what it is.
pub open spec fn is_resolved(
    resolved: ExpirationDate,
    expiration: ExpirationDate,
    anchor: SimTime,
) -> bool {
    match expiration {
        ExpirationDate::DateTime(_) => resolved == expiration,
        ExpirationDate::Days(days) => resolved@ == ExpirationView::DateTime(
            days_past(days, anchor) / NANOS_PER_SECOND as int,
            days_past(days, anchor) % NANOS_PER_SECOND as int,
        ),
    }
}

/// Ten to a power that an `i128` can hold.
fn power_of_ten(n: u32) -> (p: i128)
    requires
        n <= 28,
    ensures
        p == pow10(n as int),
        p > 0,
{
    let mut p: i128 = 1;
    let mut i: u32 = 0;
    proof {
        vstd::arithmetic::power::lemma_pow0(10);
        reveal_with_fuel(vstd::arithmetic::power::pow, 29);
    }
    while i < n
        invariant
            i <= n <= 28,
            p == pow10(i as int),
            1 <= p <= 10_000_000_000_000_000_000_000_000_000,
            pow10(28) == 10_000_000_000_000_000_000_000_000_000,
        decreases n - i,
    {
        proof {
            vstd::arithmetic::power::lemma_pow_adds(10, i as nat, 1);
            vstd::arithmetic::power::lemma_pow1(10);
            vstd::arithmetic::power::lemma_pow_increases(10, (i + 1) as nat, 28);
        }
        p = p * 10;
        i = i + 1;
    }
    p
}

/// A quotient rounded half to even.
fn half_even_quotient(n: i128, d: i128) -> (q: i128)
    requires
        0 <= n <= 0x3fff_ffff_ffff_ffff_ffff_ffff_ffff_ffff,
        0 < d <= 0x3fff_ffff_ffff_ffff_ffff_ffff_ffff_ffff,
    ensures
        q == half_even(n as int, d as int),
{
    let q: i128 = n / d;
    let r: i128 = n % d;
    proof {
        lemma_half_even_bounds(n as int, d as int);
        assert(n as int / d as int <= n) by (nonlinear_arith)
            requires
                n >= 0,
                d > 0,
        ;
    }
    if 2 * r < d || (2 * r == d && q % 2 == 0) {
        q
    } else {
        q + 1
    }
}

/// A number of days in nanoseconds, where an `i128` can hold them.
fn nanos_of_days(days: Positive) -> (r: Option<i128>)
    ensures
        match r {
            Some(n) => n == days_in_nanos(days) && n >= 0,
            None => days_in_nanos(days) > i128::MAX,
        },
{
    let d = days.to_dec();
    let mant: i128 = d.mantissa();
    let places: u32 = d.scale();
    proof {
        use_type_invariant(&d);
        lemma_pow10_positive(28 - d.places());
        crate::domain::decimal::lemma_scaled_sign(d.mant(), pow10(28 - d.places()));
        lemma_pow10_positive(d.places());
        reveal_with_fuel(vstd::arithmetic::power::pow, 12);
        assert(pow10(11) == 100_000_000_000);
    }
    let scaled: i128 = mant * 864;
    if places <= 11 {
        let factor: i128 = power_of_ten(11 - places);
        proof {
            vstd::arithmetic::power::lemma_pow_adds(10, places as nat, (11 - places) as nat);
            let low = pow10(places as int);
            assert(mant * NANOS_PER_DAY == (scaled * factor) * low) by (nonlinear_arith)
                requires
                    scaled == mant * 864,
                    low * factor == 100_000_000_000,
                    NANOS_PER_DAY == 86_400_000_000_000,
            ;
            lemma_half_even_exact(scaled * factor, low);
            assert(scaled * factor >= 0) by (nonlinear_arith)
                requires
                    scaled >= 0,
                    factor > 0,
            ;
        }
        scaled.checked_mul(factor)
    } else {
        let divisor: i128 = power_of_ten(places - 11);
        proof {
            vstd::arithmetic::power::lemma_pow_adds(10, (places - 11) as nat, 11);
            vstd::arithmetic::power::lemma_pow_increases(10, (places - 11) as nat, 28);
            lemma_half_even_scales(scaled as int, divisor as int, 100_000_000_000);
            lemma_half_even_bounds(scaled as int, divisor as int);
            reveal_with_fuel(vstd::arithmetic::power::pow, 29);
        }
        Some(half_even_quotient(scaled, divisor))
    }
}

/// Resolve an expiration against an anchor: days lie that far past it, and an
/// instant is what it is.
pub fn resolve_expiration(expiration: &ExpirationDate, anchor: SimTime) -> (r: Result<
    ExpirationDate,
    BacktestError,
>)
    ensures
        match r {
            Ok(resolved) => is_resolved(resolved, *expiration, anchor),
            Err(e) => e.kind() == ErrorKind::ArithmeticOverflow,
        },
        r is Err == (*expiration matches ExpirationDate::Days(days) && !fits_i64(
            days_past(days, anchor),
        )),
{
    match expiration {
        ExpirationDate::DateTime(t) => Ok(ExpirationDate::DateTime(*t)),
        ExpirationDate::Days(days) => {
            let nanos: i128 = match nanos_of_days(*days) {
                Some(nanos) => nanos,
                None => {
                    return Err(BacktestError::ArithmeticOverflow);
                },
            };
            if nanos > i64::MAX as i128 - anchor.0 as i128 {
                return Err(BacktestError::ArithmeticOverflow);
            }
            Ok(
                ExpirationDate::DateTime(
                    Instant::from_timestamp_nanos((anchor.0 as i128 + nanos) as i64),
                ),
            )
        },
    }
}

/// A number of days is the number of nanoseconds nearest to it, at 86400
/// seconds to the day: a whole number of days is so many whole days.
pub proof fn law_days_have_86400_seconds(days: Positive, whole: int)
    requires
        days.wf(),
    ensures
        ({
            let day = 86_400int * 1_000_000_000;
            let one = pow10(28);
            let off = days@ * day - days_in_nanos(days) * one;
            &&& -one <= 2 * off <= one
            &&& days@ == whole * one ==> days_in_nanos(days) == whole * day
        }),
{
    let d = days.dec();
    let p = pow10(d.places());
    let k = pow10(28 - d.places());
    let day = NANOS_PER_DAY as int;
    let one = pow10(28);
    lemma_pow10_positive(d.places());
    lemma_pow10_positive(28 - d.places());
    crate::domain::decimal::lemma_scaled_sign(d.mant(), k);
    vstd::arithmetic::power::lemma_pow_adds(10, d.places() as nat, (28 - d.places()) as nat);
    let m = d.mant();
    let n = m * day;
    let r = days_in_nanos(days);
    assert(n >= 0) by (nonlinear_arith)
        requires
            m >= 0,
            day >= 0,
            n == m * day,
    ;
    law_rounding_is_to_the_nearest(n, p, 0);
    let gap = n - r * p;
    assert((m * k) * day - r * one == gap * k) by (nonlinear_arith)
        requires
            one == p * k,
            n == m * day,
            gap == n - r * p,
    ;
    assert(-one <= 2 * (gap * k) <= one) by (nonlinear_arith)
        requires
            -p <= 2 * gap <= p,
            one == p * k,
            k > 0,
    ;
    if days@ == whole * one {
        assert(m == whole * p) by (nonlinear_arith)
            requires
                m * k == whole * one,
                one == p * k,
                k > 0,
        ;
        assert(n == (whole * day) * p) by (nonlinear_arith)
            requires
                n == m * day,
                m == whole * p,
        ;
        lemma_half_even_exact(whole * day, p);
    }
}

/// Resolving leaves an instant as it is, and puts a number of days so far past
/// the anchor: whole seconds first, the nanoseconds that are left behind them.
pub proof fn law_resolving_anchors_days(
    resolved: ExpirationDate,
    expiration: ExpirationDate,
    anchor: SimTime,
)
    requires
        is_resolved(resolved, expiration, anchor),
    ensures
        expiration is DateTime ==> resolved == expiration,
        expiration matches ExpirationDate::Days(days) ==> {
            &&& resolved@ matches ExpirationView::DateTime(seconds, nanos)
            &&& 0 <= nanos < 1_000_000_000
            &&& seconds * 1_000_000_000 + nanos == anchor.0 + days_in_nanos(days)
        },
{
}

} // verus!
