//! Money in integer cents, and contract counts.
//!
//! There is one rounding policy: half to even, applied where a decimal dollar
//! amount becomes cents ([`PriceCents::from_decimal_dollars`]). Everything
//! behind that point is checked integer arithmetic.

use crate::domain::decimal::{
    checked_mul, half_even, hundredfold_fits, law_rounding_is_to_the_nearest,
    lemma_pow10_positive, lemma_scaled_sign, pow10, round_half_even, to_u64, written, Decimal,
    MAX_PLACES,
};
use crate::error::{BacktestError, ErrorKind};
use vstd::prelude::*;
use vstd::std_specs::convert::{FromSpecImpl, TryFromSpecImpl};
use vstd::string::*;

verus! {

/// A signed amount of money in integer cents.
#[derive(Debug, Clone, Copy, PartialEq, Eq, PartialOrd, Ord, Hash, Structural)]
pub struct Cents(pub i64);

/// Whether `n` is an `i64`.
pub open spec fn fits_i64(n: int) -> bool {
    i64::MIN <= n <= i64::MAX
}

impl Cents {
    /// `cents` cents.
    pub fn new(cents: i64) -> (c: Self)
        ensures
            c.0 == cents,
    {
        Cents(cents)
    }

    /// The amount in cents.
    pub fn value(self) -> (cents: i64)
        ensures
            cents == self.0,
    {
        self.0
    }

    /// `self + rhs`, or an overflow.
    pub fn checked_add(self, rhs: Self) -> (r: Result<Self, BacktestError>)
        ensures
            match r {
                Ok(c) => c.0 == self.0 + rhs.0,
                Err(e) => e.kind() == ErrorKind::ArithmeticOverflow && !fits_i64(self.0 + rhs.0),
            },
    {
        match self.0.checked_add(rhs.0) {
            Some(c) => Ok(Cents(c)),
            None => Err(BacktestError::ArithmeticOverflow),
        }
    }

    /// `self - rhs`, or an overflow.
    pub fn checked_sub(self, rhs: Self) -> (r: Result<Self, BacktestError>)
        ensures
            match r {
                Ok(c) => c.0 == self.0 - rhs.0,
                Err(e) => e.kind() == ErrorKind::ArithmeticOverflow && !fits_i64(self.0 - rhs.0),
            },
    {
        match self.0.checked_sub(rhs.0) {
            Some(c) => Ok(Cents(c)),
            None => Err(BacktestError::ArithmeticOverflow),
        }
    }

    /// `self * qty`, or an overflow.
    pub fn checked_mul_qty(self, qty: Quantity) -> (r: Result<Self, BacktestError>)
        ensures
            match r {
                Ok(c) => c.0 == self.0 * qty.n(),
                Err(e) => e.kind() == ErrorKind::ArithmeticOverflow && !fits_i64(
                    self.0 * qty.n(),
                ),
            },
    {
        match self.0.checked_mul(qty.value() as i64) {
            Some(c) => Ok(Cents(c)),
            None => Err(BacktestError::ArithmeticOverflow),
        }
    }
}

/// A price in integer cents, never negative.
#[derive(Debug, Clone, Copy, PartialEq, Eq, PartialOrd, Ord, Hash, Structural)]
pub struct PriceCents(pub u64);

/// The cents of a dollar amount that is not negative: one hundred times the
/// amount, rounded half to even.
pub open spec fn dollars_in_cents(d: Decimal) -> int {
    half_even(d@ * 100, pow10(MAX_PLACES as int))
}

impl PriceCents {
    /// The price of `cents` cents.
    pub fn new(cents: u64) -> (p: Self)
        ensures
            p.0 == cents,
    {
        PriceCents(cents)
    }

    /// The price in cents.
    pub fn value(self) -> (cents: u64)
        ensures
            cents == self.0,
    {
        self.0
    }

    /// The price of a dollar amount, rounded half to even to a whole cent.
    pub fn from_decimal_dollars(d: Decimal) -> (r: Result<Self, BacktestError>)
        ensures
            match r {
                Ok(p) => 0 <= d@ && hundredfold_fits(d) && p.0 == dollars_in_cents(d),
                Err(e) => if d@ < 0 {
                    e.kind() == ErrorKind::Conversion
                } else if !hundredfold_fits(d) {
                    e.kind() == ErrorKind::ArithmeticOverflow
                } else {
                    dollars_in_cents(d) > u64::MAX && e.kind() == ErrorKind::Conversion
                },
            },
    {
        if d.is_negative() {
            return Err(
                BacktestError::Conversion(
                    String::from_str("negative dollar amount ").concat(&written(d)).concat(
                        " cannot be a price",
                    ),
                ),
            );
        }
        let cents = match checked_mul(d, Decimal::new(100, 0)) {
            Some(cents) => cents,
            None => {
                return Err(BacktestError::ArithmeticOverflow);
            },
        };
        let rounded = round_half_even(cents);
        proof {
            use_type_invariant(&cents);
            let low = pow10(cents.places());
            let high = pow10(MAX_PLACES - cents.places());
            lemma_pow10_positive(cents.places());
            lemma_pow10_positive(MAX_PLACES - cents.places());
            lemma_scaled_sign(cents.mant(), high);
            vstd::arithmetic::power::lemma_pow_adds(
                10,
                cents.places() as nat,
                (MAX_PLACES - cents.places()) as nat,
            );
            lemma_half_even_scales(cents.mant(), low, high);
            lemma_half_even_bounds(cents.mant(), low);
            vstd::arithmetic::power::lemma_pow0(10);
        }
        match to_u64(rounded) {
            Some(c) => Ok(PriceCents(c)),
            None => Err(
                BacktestError::Conversion(
                    String::from_str("dollar amount ").concat(&written(d)).concat(
                        " out of range for u64 cents",
                    ),
                ),
            ),
        }
    }

    /// The price as a dollar amount, exactly: cents over one hundred.
    pub fn to_decimal_dollars(self) -> (d: Decimal)
        ensures
            d == Decimal::of(self.0 as int, 2),
            d.mant() == self.0,
            d.places() == 2,
    {
        Decimal::from_i128_with_scale(self.0 as i128, 2)
    }
}

/// Rounding does not depend on the unit in which a quotient is written.
pub proof fn lemma_half_even_scales(n: int, d: int, k: int)
    requires
        n >= 0,
        d > 0,
        k > 0,
    ensures
        half_even(n, d) == half_even(n * k, d * k),
{
    let q = n / d;
    let r = n % d;
    vstd::arithmetic::div_mod::lemma_fundamental_div_mod(n, d);
    assert(n * k == q * (d * k) + r * k) by (nonlinear_arith)
        requires
            n == d * q + r,
    ;
    assert(0 <= r * k < d * k) by (nonlinear_arith)
        requires
            0 <= r < d,
            k > 0,
    ;
    assert(d * k > 0) by (nonlinear_arith)
        requires
            d > 0,
            k > 0,
    ;
    vstd::arithmetic::div_mod::lemma_fundamental_div_mod_converse(n * k, d * k, q, r * k);
    assert((2 * r < d) == (2 * (r * k) < d * k)) by (nonlinear_arith)
        requires
            k > 0,
    ;
    assert((2 * r == d) == (2 * (r * k) == d * k)) by (nonlinear_arith)
        requires
            k > 0,
    ;
}

/// A rounded quotient lies between the quotients that enclose it.
pub proof fn lemma_half_even_bounds(n: int, d: int)
    requires
        n >= 0,
        d > 0,
    ensures
        0 <= n / d <= half_even(n, d) <= n / d + 1,
{
    assert(n / d >= 0) by (nonlinear_arith)
        requires
            n >= 0,
            d > 0,
    ;
}

/// A whole quotient is not moved by rounding.
pub proof fn lemma_half_even_exact(q: int, d: int)
    requires
        d > 0,
    ensures
        half_even(q * d, d) == q,
{
    vstd::arithmetic::div_mod::lemma_fundamental_div_mod_converse(q * d, d, q, 0);
}

/// A price survives the way to dollars and back, for every price.
pub proof fn law_dollars_invert_cents(p: PriceCents, d: Decimal)
    requires
        d.mant() == p.0,
        d.places() == 2,
    ensures
        0 <= d@,
        hundredfold_fits(d),
        dollars_in_cents(d) == p.0,
{
    let low = pow10(26);
    lemma_pow10_positive(26);
    assert(pow10(28) == pow10(2) * pow10(26)) by {
        vstd::arithmetic::power::lemma_pow_adds(10, 2, 26);
    }
    assert(pow10(2) == 100) by {
        reveal_with_fuel(vstd::arithmetic::power::pow, 3);
    }
    assert(d@ == p.0 * low);
    assert(d@ * 100 == p.0 * pow10(28)) by (nonlinear_arith)
        requires
            d@ == p.0 * low,
            pow10(28) == 100 * low,
    ;
    lemma_pow10_positive(28);
    lemma_half_even_exact(p.0 as int, pow10(28));
    lemma_scaled_sign(p.0 as int, low);
}

/// A number of contracts, never zero.
#[derive(Debug, Clone, Copy, PartialEq, Eq, PartialOrd, Ord, Hash, Structural)]
pub struct Quantity(u32);

impl Quantity {
    /// The number of contracts.
    pub closed spec fn n(self) -> int {
        self.0 as int
    }

    /// The quantity of `n` contracts.
    pub closed spec fn of(n: int) -> Self {
        Quantity(n as u32)
    }

    /// A quantity is never zero.
    #[verifier::type_invariant]
    pub open spec fn wf(self) -> bool {
        0 < self.n() <= u32::MAX
    }

    /// A quantity is what its number of contracts says it is.
    pub broadcast proof fn lemma_of(self)
        ensures
            #[trigger] Quantity::of(self.n()) == self,
            0 <= self.n() <= u32::MAX,
    {
    }

    /// The quantity of `n` contracts holds `n` contracts.
    pub broadcast proof fn lemma_n(n: int)
        requires
            0 <= n <= u32::MAX,
        ensures
            #[trigger] Quantity::of(n).n() == n,
    {
    }

    /// The quantity of `quantity` contracts; zero is refused.
    pub fn new(quantity: u32) -> (r: Result<Self, BacktestError>)
        ensures
            match r {
                Ok(q) => quantity > 0 && q == Quantity::of(quantity as int) && q.n() == quantity,
                Err(e) => quantity == 0 && e == BacktestError::InvalidQuantity(0),
            },
    {
        if quantity == 0 {
            return Err(BacktestError::InvalidQuantity(quantity));
        }
        Ok(Quantity(quantity))
    }

    /// The number of contracts.
    pub fn value(self) -> (n: u32)
        ensures
            n == self.n(),
            n > 0,
    {
        proof {
            use_type_invariant(&self);
        }
        self.0
    }
}

impl TryFrom<u32> for Quantity {
    type Error = BacktestError;

    fn try_from(value: u32) -> (r: Result<Self, BacktestError>) {
        Quantity::new(value)
    }
}

impl TryFromSpecImpl<u32> for Quantity {
    open spec fn obeys_try_from_spec() -> bool {
        true
    }

    open spec fn try_from_spec(value: u32) -> Result<Self, BacktestError> {
        if value == 0 {
            Err(BacktestError::InvalidQuantity(0))
        } else {
            Ok(Quantity::of(value as int))
        }
    }
}

impl From<Quantity> for u32 {
    fn from(quantity: Quantity) -> (n: u32) {
        quantity.value()
    }
}

impl FromSpecImpl<Quantity> for u32 {
    open spec fn obeys_from_spec() -> bool {
        true
    }

    open spec fn from_spec(quantity: Quantity) -> u32 {
        quantity.n() as u32
    }
}

/// A count of price ticks.
#[derive(Debug, Clone, Copy, PartialEq, Eq, PartialOrd, Ord, Hash, Structural)]
pub struct Ticks(pub u128);

impl Ticks {
    /// `ticks` ticks.
    pub fn new(ticks: u128) -> (t: Self)
        ensures
            t.0 == ticks,
    {
        Ticks(ticks)
    }

    /// The number of ticks.
    pub fn value(self) -> (ticks: u128)
        ensures
            ticks == self.0,
    {
        self.0
    }
}

/// A price is the number of cents nearest to a hundred times the dollars: no
/// price is off by more than half a cent.
pub proof fn law_price_is_the_nearest_cent(d: Decimal)
    requires
        d@ >= 0,
    ensures
        ({
            let cent = pow10(26);
            let gap = d@ - dollars_in_cents(d) * cent;
            &&& -cent <= 2 * gap <= cent
            &&& 2 * gap == cent || 2 * gap == -cent ==> dollars_in_cents(d) % 2 == 0
        }),
{
    lemma_pow10_positive(28);
    let unit = pow10(28);
    let cent = pow10(26);
    law_rounding_is_to_the_nearest(d@ * 100, unit, 0);
    assert(unit == 100 * cent) by {
        vstd::arithmetic::power::lemma_pow_adds(10, 2, 26);
        reveal_with_fuel(vstd::arithmetic::power::pow, 3);
    }
    let r = dollars_in_cents(d);
    assert(r * unit == 100 * (r * cent)) by (nonlinear_arith)
        requires
            unit == 100 * cent,
    ;
}

/// What does not fit is what sixty-four bits cannot hold.
pub proof fn law_amounts_have_sixty_four_bits(n: int)
    ensures
        fits_i64(n) <==> -0x8000_0000_0000_0000 <= n < 0x8000_0000_0000_0000,
{
}

} // verus!
