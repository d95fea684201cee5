//! Decimals that are not negative.

use crate::domain::decimal::Decimal;
use optionstratlib::prelude::Positive as PositiveDecimal;
use vstd::prelude::*;

verus! {

/// A decimal of zero or more.
#[derive(Clone, Copy, Debug)]
pub struct Positive(Decimal);

impl Positive {
    /// The decimal.
    pub closed spec fn dec(self) -> Decimal {
        self.0
    }

    /// The positive of a decimal.
    pub closed spec fn of(d: Decimal) -> Self {
        Positive(d)
    }

    /// The positive of a decimal holds it, and a positive is that of its
    /// decimal.
    pub proof fn lemma_of(self, d: Decimal)
        ensures
            Positive::of(d).dec() == d,
            Positive::of(self.dec()) == self,
    {
    }

    /// A positive is what its decimal says it is.
    pub proof fn lemma_dec(a: Self, b: Self)
        requires
            a.dec() == b.dec(),
        ensures
            a == b,
    {
    }

    /// The decimal is not negative.
    #[verifier::type_invariant]
    pub open spec fn wf(self) -> bool {
        &&& self.dec().wf()
        &&& self.dec()@ >= 0
    }
}

impl View for Positive {
    type V = int;

    /// The value, in units of 10^-28.
    open spec fn view(&self) -> int {
        self.dec()@
    }
}

impl Positive {
    /// Take a decimal that is not negative; the text of the refusal otherwise.
    pub fn new_decimal(value: Decimal) -> (r: Result<Self, String>)
        ensures
            match r {
                Ok(p) => value@ >= 0 && p.dec() == value,
                Err(_) => value@ < 0,
            },
    {
        match check_positive(value) {
            Ok(_) => {
                proof {
                    use_type_invariant(&value);
                }
                Ok(Positive(value))
            },
            Err(text) => Err(text),
        }
    }

    /// Zero.
    pub fn zero() -> (p: Self)
        ensures
            p@ == 0,
            p.dec().mant() == 0,
            p.dec().places() == 0,
    {
        let d = Decimal::new(0, 0);
        proof {
            use_type_invariant(&d);
        }
        Positive(d)
    }

    /// The decimal.
    pub fn to_dec(&self) -> (d: Decimal)
        ensures
            d == self.dec(),
            d@ >= 0,
    {
        proof {
            use_type_invariant(self);
        }
        self.0
    }
}

/// The decimals of the `positive` crate.
#[verifier::external_type_specification]
#[verifier::external_body]
pub struct ExPositive(PositiveDecimal);

impl Positive {
    /// The same decimal by `positive::Positive::new_decimal`, to be handed to
    /// an outside function. It takes every decimal of zero or more, so the
    /// refusal does not arise. Nothing is claimed of what is inside it.
    #[verifier::external_body]
    pub(crate) fn outside(self) -> (p: PositiveDecimal) {
        PositiveDecimal::new_decimal(self.0.outside()).unwrap_or(PositiveDecimal::ZERO)
    }
}

/// Validate by `positive::Positive::new_decimal`, which takes every decimal of
/// zero or more and refuses the others. Nothing is claimed of the text of a
/// refusal.
#[verifier::external_body]
fn check_positive(value: Decimal) -> (r: Result<(), String>)
    ensures
        r is Ok == (value@ >= 0),
{
    match PositiveDecimal::new_decimal(value.outside()) {
        Ok(_) => Ok(()),
        Err(error) => Err(format!("{error}")),
    }
}

} // verus!
